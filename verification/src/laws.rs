//! What holds of every match and of every delta.

use vstd::prelude::*;
use crate::delta::{
    contents_match, delta_of, is_declared, is_missing_from, is_present, is_provider_managed,
    is_surplus_to, records_match, DeltaModel,
};
use crate::record::{ContentModel, DesiredModel, ExistingModel};

verus! {

/// Two contents match exactly when they are the same content.
pub proof fn lemma_contents_match_is_equality(want: ContentModel, have: ContentModel)
    ensures
        contents_match(want, have) <==> want == have,
{
}

/// Contents of different kinds never match, whatever they hold, and neither
/// do records that hold them.
pub proof fn lemma_kinds_are_told_apart(want: DesiredModel, have: ExistingModel)
    requires
        want.content.kind() != have.content.kind(),
    ensures
        !contents_match(want.content, have.content),
        !records_match(want, have),
{
}

/// A declared record without a time to live matches whatever time to live
/// the zone's record has, all else being equal.
pub proof fn lemma_unset_ttl_matches_any(want: DesiredModel, have: ExistingModel, ttl: u32)
    requires
        want.ttl is None,
    ensures
        records_match(want, have) == records_match(want, ExistingModel { ttl, ..have }),
{
}

/// What a filter keeps: the members that satisfy the predicate.
proof fn lemma_filter_members<A>(all: Seq<A>, keep: spec_fn(A) -> bool)
    ensures
        forall|x: A| #[trigger] all.filter(keep).contains(x) <==> all.contains(x) && keep(x),
{
    assert forall|x: A| #[trigger] all.filter(keep).contains(x) <==> all.contains(x) && keep(
        x,
    ) by {
        if all.filter(keep).contains(x) {
            all.lemma_filter_contains_rev(keep, x);
            let i = choose|i: int| 0 <= i < all.filter(keep).len() && all.filter(keep)[i] == x;
            all.lemma_filter_pred(keep, i);
        }
        if all.contains(x) && keep(x) {
            let i = choose|i: int| 0 <= i < all.len() && all[i] == x;
            all.lemma_filter_contains(keep, i);
        }
    }
}

/// What a delta holds: the records to create are the declared records that
/// are not present, and the records to remove are the zone's records that
/// are neither declared nor protected.
pub proof fn lemma_delta_members(
    desired: Seq<DesiredModel>,
    existing: Seq<ExistingModel>,
    exclusion_enabled: bool,
    zone_domain: Seq<char>,
)
    ensures
        forall|record: DesiredModel| #[trigger]
            delta_of(desired, existing, exclusion_enabled, zone_domain).added.contains(record)
                <==> desired.contains(record) && !is_present(record, existing),
        forall|record: ExistingModel| #[trigger]
            delta_of(desired, existing, exclusion_enabled, zone_domain).deleted.contains(record)
                <==> existing.contains(record) && !is_declared(desired, record) && !(
            exclusion_enabled && is_provider_managed(zone_domain, record)),
{
    lemma_filter_members(desired, is_missing_from(existing));
    lemma_filter_members(existing, is_surplus_to(desired, exclusion_enabled, zone_domain));
}

/// Where every declared record is present and every record of the zone is
/// declared, there is nothing to create and nothing to remove.
pub proof fn lemma_agreeing_sets_give_empty_delta(
    desired: Seq<DesiredModel>,
    existing: Seq<ExistingModel>,
    exclusion_enabled: bool,
    zone_domain: Seq<char>,
)
    requires
        forall|i: int| 0 <= i < desired.len() ==> is_present(#[trigger] desired[i], existing),
        forall|i: int| 0 <= i < existing.len() ==> is_declared(desired, #[trigger] existing[i]),
    ensures
        delta_of(desired, existing, exclusion_enabled, zone_domain) == (DeltaModel {
            deleted: Seq::empty(),
            added: Seq::empty(),
        }),
{
    let delta = delta_of(desired, existing, exclusion_enabled, zone_domain);
    lemma_delta_members(desired, existing, exclusion_enabled, zone_domain);
    if delta.added.len() > 0 {
        assert(delta.added.contains(delta.added[0]));
    }
    if delta.deleted.len() > 0 {
        assert(delta.deleted.contains(delta.deleted[0]));
    }
    assert(delta.added =~= Seq::empty());
    assert(delta.deleted =~= Seq::empty());
}

/// With the protection switched on, a record that the provider manages is
/// never removed, declared or not.
pub proof fn lemma_protected_record_is_kept(
    desired: Seq<DesiredModel>,
    existing: Seq<ExistingModel>,
    zone_domain: Seq<char>,
    record: ExistingModel,
)
    requires
        is_provider_managed(zone_domain, record),
    ensures
        !delta_of(desired, existing, true, zone_domain).deleted.contains(record),
{
    lemma_delta_members(desired, existing, true, zone_domain);
}

/// With the protection switched off, every record of the zone that is not
/// declared is removed, the provider's own records too.
pub proof fn lemma_unprotected_record_is_removed(
    desired: Seq<DesiredModel>,
    existing: Seq<ExistingModel>,
    zone_domain: Seq<char>,
    record: ExistingModel,
)
    requires
        existing.contains(record),
        !is_declared(desired, record),
    ensures
        delta_of(desired, existing, false, zone_domain).deleted.contains(record),
{
    lemma_delta_members(desired, existing, false, zone_domain);
}

/// The zone holds `after` once `delta` has been carried out on a zone that
/// held `before`: the removed records are gone, the others have stayed, for
/// each record to create the zone holds a record that is the same entry, and
/// it holds nothing else.
pub open spec fn is_outcome_of(
    after: Seq<ExistingModel>,
    before: Seq<ExistingModel>,
    delta: DeltaModel,
) -> bool {
    &&& forall|i: int|
        0 <= i < before.len() && !delta.deleted.contains(before[i]) ==> after.contains(
            #[trigger] before[i],
        )
    &&& forall|k: int| 0 <= k < delta.added.len() ==> is_present(#[trigger] delta.added[k], after)
    &&& forall|j: int|
        0 <= j < after.len() ==> {
            ||| before.contains(#[trigger] after[j]) && !delta.deleted.contains(after[j])
            ||| is_declared(delta.added, after[j])
        }
}

/// Once a delta has been carried out, the delta between the same declared
/// records and what the zone then holds is empty.
pub proof fn lemma_delta_after_apply_is_empty(
    desired: Seq<DesiredModel>,
    existing: Seq<ExistingModel>,
    exclusion_enabled: bool,
    zone_domain: Seq<char>,
    after: Seq<ExistingModel>,
)
    requires
        is_outcome_of(
            after,
            existing,
            delta_of(desired, existing, exclusion_enabled, zone_domain),
        ),
    ensures
        delta_of(desired, after, exclusion_enabled, zone_domain) == (DeltaModel {
            deleted: Seq::empty(),
            added: Seq::empty(),
        }),
{
    let delta = delta_of(desired, existing, exclusion_enabled, zone_domain);
    let again = delta_of(desired, after, exclusion_enabled, zone_domain);
    lemma_delta_members(desired, existing, exclusion_enabled, zone_domain);
    lemma_delta_members(desired, after, exclusion_enabled, zone_domain);
    if again.added.len() > 0 {
        let want = again.added[0];
        assert(again.added.contains(want));
        assert(desired.contains(want) && !is_present(want, after));
        if is_present(want, existing) {
            let i = choose|i: int| 0 <= i < existing.len() && records_match(want, existing[i]);
            let k = choose|k: int| 0 <= k < desired.len() && desired[k] == want;
            assert(records_match(desired[k], existing[i]));
            assert(is_declared(desired, existing[i]));
            assert(existing.contains(existing[i]));
            assert(!delta.deleted.contains(existing[i]));
            assert(after.contains(existing[i]));
            let j = choose|j: int| 0 <= j < after.len() && after[j] == existing[i];
            assert(records_match(want, after[j]));
            assert(false);
        } else {
            assert(delta.added.contains(want));
            let k = choose|k: int| 0 <= k < delta.added.len() && delta.added[k] == want;
            assert(is_present(delta.added[k], after));
            assert(false);
        }
    }
    if again.deleted.len() > 0 {
        let have = again.deleted[0];
        assert(again.deleted.contains(have));
        let j = choose|j: int| 0 <= j < after.len() && after[j] == have;
        if is_declared(delta.added, after[j]) {
            let k = choose|k: int|
                0 <= k < delta.added.len() && records_match(delta.added[k], after[j]);
            assert(delta.added.contains(delta.added[k]));
            let d = choose|d: int| 0 <= d < desired.len() && desired[d] == delta.added[k];
            assert(records_match(desired[d], have));
            assert(false);
        } else {
            assert(existing.contains(have) && !delta.deleted.contains(have));
            assert(false);
        }
    }
    assert(again.added =~= Seq::empty());
    assert(again.deleted =~= Seq::empty());
}

} // verus!
