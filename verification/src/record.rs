//! The record model: what a DNS record holds, as declared and as observed.

use vstd::prelude::*;
use crate::address::{Ipv4Address, Ipv6Address};
use crate::config::ZoneRecordKind;

verus! {

/// The kind of a DNS record together with what a record of that kind holds.
#[derive(Clone, Debug, PartialEq, Eq)]
#[allow(inconsistent_fields)]
pub enum RecordContent {
    A { content: Ipv4Address },
    AAAA { content: Ipv6Address },
    CNAME { content: String },
    NS { content: String },
    MX { content: String, priority: u16 },
    TXT { content: String },
    SRV { content: String },
}

/// A `RecordContent` as a mathematical value.
#[allow(inconsistent_fields)]
pub enum ContentModel {
    A { content: Seq<u8> },
    AAAA { content: Seq<u16> },
    CNAME { content: Seq<char> },
    NS { content: Seq<char> },
    MX { content: Seq<char>, priority: u16 },
    TXT { content: Seq<char> },
    SRV { content: Seq<char> },
}

impl ContentModel {
    /// The kind of record that holds this content.
    pub open spec fn kind(self) -> ZoneRecordKind {
        match self {
            ContentModel::A { .. } => ZoneRecordKind::A,
            ContentModel::AAAA { .. } => ZoneRecordKind::AAAA,
            ContentModel::CNAME { .. } => ZoneRecordKind::CNAME,
            ContentModel::NS { .. } => ZoneRecordKind::NS,
            ContentModel::MX { .. } => ZoneRecordKind::MX,
            ContentModel::TXT { .. } => ZoneRecordKind::TXT,
            ContentModel::SRV { .. } => ZoneRecordKind::SRV,
        }
    }
}

impl ContentModel {
    /// The priority that the content holds: that of an MX record, and none
    /// for any other kind.
    pub open spec fn priority(self) -> Option<u16> {
        match self {
            ContentModel::MX { priority, .. } => Some(priority),
            _ => None,
        }
    }
}

impl RecordContent {
    /// The priority that the content holds, if it is that of an MX record.
    pub fn priority(&self) -> (priority: Option<u16>)
        ensures
            priority == self@.priority(),
    {
        match self {
            RecordContent::MX { content: _, priority } => Some(*priority),
            _ => None,
        }
    }
}

impl View for RecordContent {
    type V = ContentModel;

    open spec fn view(&self) -> ContentModel {
        match *self {
            RecordContent::A { content } => ContentModel::A { content: content@ },
            RecordContent::AAAA { content } => ContentModel::AAAA { content: content@ },
            RecordContent::CNAME { content } => ContentModel::CNAME { content: content@ },
            RecordContent::NS { content } => ContentModel::NS { content: content@ },
            RecordContent::MX { content, priority } => ContentModel::MX {
                content: content@,
                priority,
            },
            RecordContent::TXT { content } => ContentModel::TXT { content: content@ },
            RecordContent::SRV { content } => ContentModel::SRV { content: content@ },
        }
    }
}

/// A record as the configuration declares it.
#[derive(Clone, Debug, PartialEq, Eq)]
pub struct DesiredRecord {
    /// Time to live; `None` leaves it to the provider.
    pub ttl: Option<u32>,
    /// The priority of an MX record, which its content holds too; `None`
    /// for every other kind.
    pub priority: Option<u16>,
    /// Whether the provider proxies the record; `None` stands for `false`.
    pub proxied: Option<bool>,
    pub name: String,
    pub content: RecordContent,
}

/// A `DesiredRecord` as a mathematical value.
pub struct DesiredModel {
    pub ttl: Option<u32>,
    pub priority: Option<u16>,
    pub proxied: Option<bool>,
    pub name: Seq<char>,
    pub content: ContentModel,
}

impl DesiredModel {
    /// The record carries a priority if and only if it is an MX record, and
    /// it is the priority that its content holds.
    pub open spec fn carries_content_priority(self) -> bool {
        self.priority == self.content.priority()
    }
}

impl View for DesiredRecord {
    type V = DesiredModel;

    open spec fn view(&self) -> DesiredModel {
        DesiredModel {
            ttl: self.ttl,
            priority: self.priority,
            proxied: self.proxied,
            name: self.name@,
            content: self.content@,
        }
    }
}

impl DeepView for DesiredRecord {
    type V = DesiredModel;

    open spec fn deep_view(&self) -> DesiredModel {
        self@
    }
}

/// A record as the zone holds it.
#[derive(Clone, Debug, PartialEq, Eq)]
pub struct ExistingRecord {
    /// The provider's identifier of the record.
    pub id: String,
    pub name: String,
    pub ttl: u32,
    pub proxied: bool,
    pub content: RecordContent,
}

/// An `ExistingRecord` as a mathematical value.
pub struct ExistingModel {
    pub id: Seq<char>,
    pub name: Seq<char>,
    pub ttl: u32,
    pub proxied: bool,
    pub content: ContentModel,
}

impl View for ExistingRecord {
    type V = ExistingModel;

    open spec fn view(&self) -> ExistingModel {
        ExistingModel {
            id: self.id@,
            name: self.name@,
            ttl: self.ttl,
            proxied: self.proxied,
            content: self.content@,
        }
    }
}

impl DeepView for ExistingRecord {
    type V = ExistingModel;

    open spec fn deep_view(&self) -> ExistingModel {
        self@
    }
}

} // verus!
