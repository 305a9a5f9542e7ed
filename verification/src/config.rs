//! The declared state: a zone and the records it is meant to hold.

use vstd::prelude::*;
use crate::address::{Ipv4Address, Ipv6Address};
use crate::record::{ContentModel, DesiredModel, DesiredRecord, RecordContent};

verus! {

/// Root of the configuration.
#[derive(Clone, Debug)]
pub struct Configuration {
    pub zone: ZoneConfiguration,
}

/// Configuration for a zone.
#[derive(Clone, Debug)]
pub struct ZoneConfiguration {
    pub domain: String,
    pub identifier: String,
    pub email: ZoneEmailConfiguration,
    pub records: Vec<ZoneRecordConfiguration>,
}

/// Which mail records of the zone the provider manages by itself.
#[derive(Clone, Copy, Debug, PartialEq, Eq)]
pub struct ZoneEmailConfiguration {
    /// The provider routes the zone's mail and keeps its own MX, SPF and
    /// DKIM records in the zone.
    pub cloudflare: bool,
}

#[derive(Clone, Copy, Debug, PartialEq, Eq)]
pub enum ZoneRecordKind {
    A,
    AAAA,
    CNAME,
    TXT,
    MX,
    NS,
    SRV,
}

#[derive(Clone, Debug)]
pub struct ZoneRecordConfiguration {
    pub name: String,
    pub kind: ZoneRecordKind,
    pub value: String,
    pub proxied: Option<bool>,
    pub ttl: Option<u32>,
    pub priority: Option<u16>,
}

/// A `ZoneRecordConfiguration` as a mathematical value.
pub struct ZoneRecordModel {
    pub name: Seq<char>,
    pub kind: ZoneRecordKind,
    pub value: Seq<char>,
    pub proxied: Option<bool>,
    pub ttl: Option<u32>,
    pub priority: Option<u16>,
}

impl View for ZoneRecordConfiguration {
    type V = ZoneRecordModel;

    open spec fn view(&self) -> ZoneRecordModel {
        ZoneRecordModel {
            name: self.name@,
            kind: self.kind,
            value: self.value@,
            proxied: self.proxied,
            ttl: self.ttl,
            priority: self.priority,
        }
    }
}

impl DeepView for ZoneRecordConfiguration {
    type V = ZoneRecordModel;

    open spec fn deep_view(&self) -> ZoneRecordModel {
        self@
    }
}

/// A `ZoneConfiguration` as a mathematical value.
pub struct ZoneModel {
    pub domain: Seq<char>,
    pub identifier: Seq<char>,
    pub email: ZoneEmailConfiguration,
    pub records: Seq<ZoneRecordModel>,
}

impl View for ZoneConfiguration {
    type V = ZoneModel;

    open spec fn view(&self) -> ZoneModel {
        ZoneModel {
            domain: self.domain@,
            identifier: self.identifier@,
            email: self.email,
            records: self.records.deep_view(),
        }
    }
}

/// A `Configuration` as a mathematical value.
pub struct ConfigurationModel {
    pub zone: ZoneModel,
}

impl View for Configuration {
    type V = ConfigurationModel;

    open spec fn view(&self) -> ConfigurationModel {
        ConfigurationModel { zone: self.zone@ }
    }
}

/// Why a declared record stands for no DNS record.
#[derive(Clone, Copy, Debug, PartialEq, Eq)]
pub enum RecordError {
    /// The value of an A or AAAA record is not an address of that kind.
    InvalidAddress,
    /// An MX record has no priority.
    MissingPriority,
}

/// A declared record that stands for no DNS record, and why.
#[derive(Clone, Copy, Debug, PartialEq, Eq)]
pub struct InvalidRecord {
    /// Where the record stands among the declared records.
    pub index: usize,
    pub error: RecordError,
}

/// The content that the declared record `record` stands for. The value of an
/// A or AAAA record is read as an address, an MX record takes its priority
/// with it, and every other record holds its value as it is.
pub open spec fn declared_content(record: ZoneRecordModel) -> Result<ContentModel, RecordError> {
    match record.kind {
        ZoneRecordKind::A => match Ipv4Address::parsed(record.value) {
            Some(content) => Ok(ContentModel::A { content }),
            None => Err(RecordError::InvalidAddress),
        },
        ZoneRecordKind::AAAA => match Ipv6Address::parsed(record.value) {
            Some(content) => Ok(ContentModel::AAAA { content }),
            None => Err(RecordError::InvalidAddress),
        },
        ZoneRecordKind::CNAME => Ok(ContentModel::CNAME { content: record.value }),
        ZoneRecordKind::TXT => Ok(ContentModel::TXT { content: record.value }),
        ZoneRecordKind::MX => match record.priority {
            Some(priority) => Ok(ContentModel::MX { content: record.value, priority }),
            None => Err(RecordError::MissingPriority),
        },
        ZoneRecordKind::NS => Ok(ContentModel::NS { content: record.value }),
        ZoneRecordKind::SRV => Ok(ContentModel::SRV { content: record.value }),
    }
}

/// The record to reconcile that the declared record `record` stands for. It
/// carries a priority if and only if it is an MX record: the priority that
/// its content holds. A priority declared for a record of another kind is
/// left behind.
pub open spec fn declared_record(record: ZoneRecordModel) -> Result<DesiredModel, RecordError> {
    match declared_content(record) {
        Ok(content) => Ok(
            DesiredModel {
                ttl: record.ttl,
                priority: content.priority(),
                proxied: record.proxied,
                name: record.name,
                content,
            },
        ),
        Err(error) => Err(error),
    }
}

/// Every record of `records` stands for a DNS record.
pub open spec fn all_declared(records: Seq<ZoneRecordModel>) -> bool {
    forall|i: int| 0 <= i < records.len() ==> declared_record(#[trigger] records[i]) is Ok
}

/// The records to reconcile that `records` stand for, in their order.
pub open spec fn declared_records(records: Seq<ZoneRecordModel>) -> Seq<DesiredModel> {
    Seq::new(records.len(), |i: int| declared_record(records[i]).unwrap())
}

impl ZoneRecordConfiguration {
    /// The content that the record stands for, or why it stands for none.
    pub fn checked_dns_content(&self) -> (content: Result<RecordContent, RecordError>)
        ensures
            match content {
                Ok(content) => declared_content(self@) == Ok::<ContentModel, RecordError>(
                    content@,
                ),
                Err(error) => declared_content(self@) == Err::<ContentModel, RecordError>(error),
            },
    {
        match self.kind {
            ZoneRecordKind::A => match Ipv4Address::parse(self.value.as_str()) {
                Some(content) => Ok(RecordContent::A { content }),
                None => Err(RecordError::InvalidAddress),
            },
            ZoneRecordKind::AAAA => match Ipv6Address::parse(self.value.as_str()) {
                Some(content) => Ok(RecordContent::AAAA { content }),
                None => Err(RecordError::InvalidAddress),
            },
            ZoneRecordKind::CNAME => Ok(RecordContent::CNAME { content: self.value.clone() }),
            ZoneRecordKind::TXT => Ok(RecordContent::TXT { content: self.value.clone() }),
            ZoneRecordKind::MX => match self.priority {
                Some(priority) => Ok(RecordContent::MX { content: self.value.clone(), priority }),
                None => Err(RecordError::MissingPriority),
            },
            ZoneRecordKind::NS => Ok(RecordContent::NS { content: self.value.clone() }),
            ZoneRecordKind::SRV => Ok(RecordContent::SRV { content: self.value.clone() }),
        }
    }

    /// The content that the record stands for.
    pub fn create_dns_content(&self) -> (content: RecordContent)
        requires
            declared_content(self@) is Ok,
        ensures
            declared_content(self@) == Ok::<ContentModel, RecordError>(content@),
    {
        match self.checked_dns_content() {
            Ok(content) => content,
            Err(_) => unreached(),
        }
    }

    /// The record to reconcile that the record stands for, or why it stands
    /// for none.
    pub fn checked_dns_params(&self) -> (record: Result<DesiredRecord, RecordError>)
        ensures
            match record {
                Ok(record) => {
                    &&& declared_record(self@) == Ok::<DesiredModel, RecordError>(record@)
                    &&& record@.priority is Some <==> self@.kind == ZoneRecordKind::MX
                    &&& self@.kind == ZoneRecordKind::MX ==> record@.priority == self@.priority
                    &&& record@.carries_content_priority()
                },
                Err(error) => declared_record(self@) == Err::<DesiredModel, RecordError>(error),
            },
    {
        match self.checked_dns_content() {
            Ok(content) => Ok(
                DesiredRecord {
                    ttl: self.ttl,
                    priority: content.priority(),
                    proxied: self.proxied,
                    name: self.name.clone(),
                    content,
                },
            ),
            Err(error) => Err(error),
        }
    }

    /// The record to reconcile that the record stands for.
    pub fn create_dns_params(&self) -> (record: DesiredRecord)
        requires
            declared_content(self@) is Ok,
        ensures
            declared_record(self@) == Ok::<DesiredModel, RecordError>(record@),
            record@.priority is Some <==> self@.kind == ZoneRecordKind::MX,
            self@.kind == ZoneRecordKind::MX ==> record@.priority == self@.priority,
            record@.carries_content_priority(),
    {
        let content = self.create_dns_content();
        DesiredRecord {
            ttl: self.ttl,
            priority: content.priority(),
            proxied: self.proxied,
            name: self.name.clone(),
            content,
        }
    }
}

impl ZoneConfiguration {
    /// The records to reconcile that the zone declares, in the order in
    /// which it declares them, or the first record that stands for none.
    pub fn wanted_records(&self) -> (wanted: Result<Vec<DesiredRecord>, InvalidRecord>)
        ensures
            match wanted {
                Ok(wanted) => {
                    &&& all_declared(self@.records)
                    &&& wanted.deep_view() == declared_records(self@.records)
                    &&& forall|i: int|
                        0 <= i < wanted.len() ==> ((#[trigger] wanted.deep_view()[i]).priority
                            is Some <==> self@.records[i].kind == ZoneRecordKind::MX)
                },
                Err(invalid) => {
                    &&& invalid.index < self@.records.len()
                    &&& all_declared(self@.records.take(invalid.index as int))
                    &&& declared_record(self@.records[invalid.index as int]) == Err::<
                        DesiredModel,
                        RecordError,
                    >(invalid.error)
                },
            },
    {
        let mut wanted: Vec<DesiredRecord> = Vec::new();
        let mut index: usize = 0;
        while index < self.records.len()
            invariant
                index <= self.records.len(),
                all_declared(self@.records.take(index as int)),
                wanted.deep_view() == declared_records(self@.records.take(index as int)),
            decreases self.records.len() - index,
        {
            match self.records[index].checked_dns_params() {
                Ok(record) => {
                    let ghost before = wanted.deep_view();
                    wanted.push(record);
                    proof {
                        let shorter = self@.records.take(index as int);
                        let longer = self@.records.take(index + 1);
                        assert(longer[index as int] == self.records[index as int]@);
                        assert forall|i: int| 0 <= i < longer.len() implies declared_record(
                            #[trigger] longer[i],
                        ) is Ok by {
                            if i < index {
                                assert(longer[i] == shorter[i]);
                            }
                        }
                        assert(wanted.deep_view() =~= before.push(record@));
                        assert(wanted.deep_view() =~= declared_records(longer));
                    }
                },
                Err(error) => {
                    return Err(InvalidRecord { index, error });
                },
            }
            index += 1;
        }
        assert(self@.records.take(self.records.len() as int) =~= self@.records);
        assert forall|i: int| 0 <= i < wanted.len() implies ((#[trigger] wanted.deep_view()[i]).priority
            is Some <==> self@.records[i].kind == ZoneRecordKind::MX) by {
            assert(declared_record(self@.records[i]) is Ok);
        }
        Ok(wanted)
    }
}

} // verus!
