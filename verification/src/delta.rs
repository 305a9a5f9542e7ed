//! Which declared records the zone lacks, and which of its records are not
//! declared.

use vstd::prelude::*;
use vstd::string::StringExecFns;
use crate::ipv4::ipv4_text;
use crate::ipv6::ipv6_text;
use crate::config::Configuration;
use crate::record::{
    ContentModel, DesiredModel, DesiredRecord, ExistingModel, ExistingRecord, RecordContent,
};
use crate::numeral::{append_decimal, decimal_text};
use crate::text::{contains, ends_with, is_infix, is_prefix, is_suffix, same_text, starts_with};

verus! {

/// The two contents are of the same kind and hold the same payload.
pub open spec fn contents_match(want: ContentModel, have: ContentModel) -> bool {
    match (want, have) {
        (ContentModel::A { content: left }, ContentModel::A { content: right }) => left == right,
        (ContentModel::AAAA { content: left }, ContentModel::AAAA { content: right }) => left
            == right,
        (ContentModel::CNAME { content: left }, ContentModel::CNAME { content: right }) => left
            == right,
        (ContentModel::TXT { content: left }, ContentModel::TXT { content: right }) => left
            == right,
        (ContentModel::SRV { content: left }, ContentModel::SRV { content: right }) => left
            == right,
        (
            ContentModel::MX { content: left, priority: left_priority },
            ContentModel::MX { content: right, priority: right_priority },
        ) => left == right && left_priority == right_priority,
        (ContentModel::NS { content: left }, ContentModel::NS { content: right }) => left == right,
        _ => false,
    }
}

/// The declared record `want` and the observed record `have` are the same
/// DNS entry.
pub open spec fn records_match(want: DesiredModel, have: ExistingModel) -> bool {
    &&& want.proxied.unwrap_or(false) == have.proxied
    &&& want.name == have.name
    &&& (want.ttl is None || want.ttl == Some(have.ttl))
    &&& contents_match(want.content, have.content)
}

/// Whether the two contents are of the same kind and hold the same payload.
pub fn is_content_match(want: &RecordContent, have: &RecordContent) -> (matched: bool)
    ensures
        matched == contents_match(want@, have@),
{
    match (want, have) {
        (RecordContent::A { content: left }, RecordContent::A { content: right }) => left.same_as(
            right,
        ),
        (RecordContent::AAAA { content: left }, RecordContent::AAAA { content: right }) => {
            left.same_as(right)
        },
        (RecordContent::CNAME { content: left }, RecordContent::CNAME { content: right }) => {
            *left == *right
        },
        (RecordContent::TXT { content: left }, RecordContent::TXT { content: right }) => {
            *left == *right
        },
        (RecordContent::SRV { content: left }, RecordContent::SRV { content: right }) => {
            *left == *right
        },
        (
            RecordContent::MX { content: left, priority: left_priority },
            RecordContent::MX { content: right, priority: right_priority },
        ) => *left == *right && *left_priority == *right_priority,
        (RecordContent::NS { content: left }, RecordContent::NS { content: right }) => {
            *left == *right
        },
        _ => false,
    }
}

/// Whether the declared record `want` and the observed record `have` are the
/// same DNS entry.
pub fn is_record_match(want: &DesiredRecord, have: &ExistingRecord) -> (matched: bool)
    ensures
        matched == records_match(want@, have@),
{
    let proxied = match want.proxied {
        Some(proxied) => proxied,
        None => false,
    };
    let ttl_agrees = match want.ttl {
        Some(ttl) => ttl == have.ttl,
        None => true,
    };
    proxied == have.proxied && want.name == have.name && ttl_agrees && is_content_match(
        &want.content,
        &have.content,
    )
}

/// The host name that the provider's mail routing puts into MX records.
pub open spec fn mail_routing_host() -> Seq<char> {
    "mx.cloudflare.net"@
}

/// The host name by which an SPF record includes the provider's mail routing.
pub open spec fn spf_include_host() -> Seq<char> {
    "_spf.mx.cloudflare.net"@
}

/// What the name of a DKIM key published by the provider begins with.
pub open spec fn dkim_name_prefix() -> Seq<char> {
    "cf"@
}

/// What the name of a DKIM key in the zone `zone_domain` ends with.
pub open spec fn dkim_name_suffix(zone_domain: Seq<char>) -> Seq<char> {
    "._domainkey."@ + zone_domain
}

/// The record is one that the provider's mail routing keeps in the zone
/// `zone_domain` by itself: its MX records, its DKIM keys, its SPF record.
pub open spec fn is_provider_managed(zone_domain: Seq<char>, record: ExistingModel) -> bool {
    match record.content {
        ContentModel::MX { content, priority } => is_infix(content, mail_routing_host()),
        ContentModel::TXT { content } => {
            ||| (is_prefix(record.name, dkim_name_prefix()) && is_suffix(
                record.name,
                dkim_name_suffix(zone_domain),
            ))
            ||| (record.name == zone_domain && is_infix(content, spf_include_host()))
        },
        _ => false,
    }
}

/// Whether the provider's mail routing keeps `record` in the zone `domain` by
/// itself.
pub fn is_cloudflare_email(domain: &str, record: &ExistingRecord) -> (managed: bool)
    ensures
        managed == is_provider_managed(domain@, record@),
{
    match &record.content {
        RecordContent::MX { content, priority: _ } => contains(
            content.as_str(),
            "mx.cloudflare.net",
        ),
        RecordContent::TXT { content } => {
            let mut suffix = String::from_str("._domainkey.");
            suffix.append(domain);
            (starts_with(record.name.as_str(), "cf") && ends_with(
                record.name.as_str(),
                suffix.as_str(),
            )) || (same_text(record.name.as_str(), domain) && contains(
                content.as_str(),
                "_spf.mx.cloudflare.net",
            ))
        },
        _ => false,
    }
}

/// A record is declared when some declared record is the same entry.
pub open spec fn is_declared(desired: Seq<DesiredModel>, record: ExistingModel) -> bool {
    exists|i: int| 0 <= i < desired.len() && records_match(#[trigger] desired[i], record)
}

/// A declared record is present when some record of the zone is the same
/// entry.
pub open spec fn is_present(record: DesiredModel, existing: Seq<ExistingModel>) -> bool {
    exists|i: int| 0 <= i < existing.len() && records_match(record, #[trigger] existing[i])
}

/// The declared records that must be created: those that are not present.
pub open spec fn is_missing_from(existing: Seq<ExistingModel>) -> spec_fn(DesiredModel) -> bool {
    |record: DesiredModel| !is_present(record, existing)
}

/// The records of the zone that must be removed: those that are not declared,
/// but for the provider's own mail records where `exclusion_enabled` protects
/// them.
pub open spec fn is_surplus_to(
    desired: Seq<DesiredModel>,
    exclusion_enabled: bool,
    zone_domain: Seq<char>,
) -> spec_fn(ExistingModel) -> bool {
    |record: ExistingModel|
        !is_declared(desired, record) && !(exclusion_enabled && is_provider_managed(
            zone_domain,
            record,
        ))
}

/// The changes that bring a zone to its declared state.
pub struct DnsRecordDelta<'record> {
    /// The records to remove, in the order in which the zone listed them.
    pub deleted: Vec<&'record ExistingRecord>,
    /// The records to create, in the order in which they are declared.
    pub added: Vec<&'record DesiredRecord>,
}

/// A `DnsRecordDelta` as a mathematical value.
pub struct DeltaModel {
    pub deleted: Seq<ExistingModel>,
    pub added: Seq<DesiredModel>,
}

impl<'record> View for DnsRecordDelta<'record> {
    type V = DeltaModel;

    open spec fn view(&self) -> DeltaModel {
        DeltaModel { deleted: self.deleted.deep_view(), added: self.added.deep_view() }
    }
}

/// The delta between the declared records `desired` and the records
/// `existing` of the zone `zone_domain`.
pub open spec fn delta_of(
    desired: Seq<DesiredModel>,
    existing: Seq<ExistingModel>,
    exclusion_enabled: bool,
    zone_domain: Seq<char>,
) -> DeltaModel {
    DeltaModel {
        deleted: existing.filter(is_surplus_to(desired, exclusion_enabled, zone_domain)),
        added: desired.filter(is_missing_from(existing)),
    }
}

/// Whether some record of `want` is the same entry as `have`.
pub fn has_desired_match(want: &[DesiredRecord], have: &ExistingRecord) -> (found: bool)
    ensures
        found == is_declared(want.deep_view(), have@),
{
    let mut i: usize = 0;
    while i < want.len()
        invariant
            i <= want.len(),
            forall|k: int| 0 <= k < i ==> !records_match(#[trigger] want.deep_view()[k], have@),
        decreases want.len() - i,
    {
        if is_record_match(&want[i], have) {
            assert(records_match(want.deep_view()[i as int], have@));
            return true;
        }
        i += 1;
    }
    false
}

/// Whether some record of `have` is the same entry as `want`.
pub fn has_existing_match(want: &DesiredRecord, have: &[ExistingRecord]) -> (found: bool)
    ensures
        found == is_present(want@, have.deep_view()),
{
    let mut i: usize = 0;
    while i < have.len()
        invariant
            i <= have.len(),
            forall|k: int| 0 <= k < i ==> !records_match(want@, #[trigger] have.deep_view()[k]),
        decreases have.len() - i,
    {
        if is_record_match(want, &have[i]) {
            assert(records_match(want@, have.deep_view()[i as int]));
            return true;
        }
        i += 1;
    }
    false
}

/// Computes what must be removed from and created in the zone that `config`
/// describes, which holds the records `have`, so that it holds the records
/// `want`.
pub fn delta_dns_records<'record>(
    config: &Configuration,
    want: &'record [DesiredRecord],
    have: &'record [ExistingRecord],
) -> (delta: DnsRecordDelta<'record>)
    ensures
        delta@ == delta_of(
            want.deep_view(),
            have.deep_view(),
            config@.zone.email.cloudflare,
            config@.zone.domain,
        ),
{
    let ghost desired = want.deep_view();
    let ghost existing = have.deep_view();
    let ghost surplus = is_surplus_to(desired, config.zone.email.cloudflare, config.zone.domain@);
    let ghost missing = is_missing_from(existing);

    let mut deleted: Vec<&'record ExistingRecord> = Vec::new();
    let mut i: usize = 0;
    assert(existing.take(0).filter(surplus) =~= Seq::empty()) by {
        reveal(Seq::filter);
    }
    while i < have.len()
        invariant
            i <= have.len(),
            desired == want.deep_view(),
            existing == have.deep_view(),
            surplus == is_surplus_to(desired, config.zone.email.cloudflare, config.zone.domain@),
            deleted.deep_view() == existing.take(i as int).filter(surplus),
        decreases have.len() - i,
    {
        let record = &have[i];
        let keep = has_desired_match(want, record) || (config.zone.email.cloudflare
            && is_cloudflare_email(config.zone.domain.as_str(), record));
        proof {
            assert(existing.take(i + 1) =~= existing.take(i as int).push(record@));
            existing.take(i as int).lemma_filter_push(record@, surplus);
        }
        if !keep {
            let ghost before = deleted.deep_view();
            deleted.push(record);
            assert(deleted.deep_view() =~= before.push(record@));
        }
        i += 1;
    }
    assert(existing.take(have.len() as int) =~= existing);

    let mut added: Vec<&'record DesiredRecord> = Vec::new();
    let mut j: usize = 0;
    assert(desired.take(0).filter(missing) =~= Seq::empty()) by {
        reveal(Seq::filter);
    }
    while j < want.len()
        invariant
            j <= want.len(),
            desired == want.deep_view(),
            existing == have.deep_view(),
            missing == is_missing_from(existing),
            added.deep_view() == desired.take(j as int).filter(missing),
        decreases want.len() - j,
    {
        let record = &want[j];
        let present = has_existing_match(record, have);
        proof {
            assert(desired.take(j + 1) =~= desired.take(j as int).push(record@));
            desired.take(j as int).lemma_filter_push(record@, missing);
        }
        if !present {
            let ghost before = added.deep_view();
            added.push(record);
            assert(added.deep_view() =~= before.push(record@));
        }
        j += 1;
    }
    assert(desired.take(want.len() as int) =~= desired);

    DnsRecordDelta { deleted, added }
}

/// The line that describes a content: its kind, then what it holds.
pub open spec fn content_text(content: ContentModel) -> Seq<char> {
    match content {
        ContentModel::A { content } => "A "@ + ipv4_text(content),
        ContentModel::AAAA { content } => "AAAA "@ + ipv6_text(content),
        ContentModel::CNAME { content } => "CNAME "@ + content,
        ContentModel::NS { content } => "NS "@ + content,
        ContentModel::MX { content, priority } => "MX "@ + content + " "@ + decimal_text(
            priority as nat,
        ),
        ContentModel::TXT { content } => "TXT "@ + content,
        ContentModel::SRV { content } => "SRV "@ + content,
    }
}

/// Describes a content in one line for a reader.
pub fn describe_content(content: &RecordContent) -> (line: String)
    ensures
        line@ == content_text(content@),
{
    match content {
        RecordContent::A { content } => {
            let mut line = String::from_str("A ");
            content.append_to(&mut line);
            line
        },
        RecordContent::AAAA { content } => {
            let mut line = String::from_str("AAAA ");
            content.append_to(&mut line);
            line
        },
        RecordContent::CNAME { content } => String::from_str("CNAME ").concat(content.as_str()),
        RecordContent::NS { content } => String::from_str("NS ").concat(content.as_str()),
        RecordContent::MX { content, priority } => {
            let mut line = String::from_str("MX ");
            line.append(content.as_str());
            line.append(" ");
            append_decimal(&mut line, *priority);
            line
        },
        RecordContent::TXT { content } => String::from_str("TXT ").concat(content.as_str()),
        RecordContent::SRV { content } => String::from_str("SRV ").concat(content.as_str()),
    }
}

} // verus!
