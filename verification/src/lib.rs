//! Reconciliation of a declared set of DNS records with the records that a
//! zone holds: which records are the same entry, which must be created and
//! which must be removed.
//!
//! - `record` holds the record model, `address`, `ipv4` and `ipv6` the
//!   addresses in it and their text; `ipv6_laws` states that an address
//!   written and read back is the same address.
//! - `delta` decides whether two records are the same entry, computes the
//!   delta between the declared records and those of the zone, and describes
//!   a content; `laws` states what holds of every match and every delta.
//! - `config` turns the declared zone into the records to reconcile.
//! - `client` steers the listing of a zone's records page by page, and `plan`
//!   lists what a run prints and changes.
//! - `text` and `numeral` are the vocabulary for character sequences and for
//!   numbers written in them.

pub mod address;
pub mod client;
pub mod config;
pub mod delta;
pub mod ipv4;
pub mod ipv6;
pub mod ipv6_laws;
pub mod laws;
pub mod numeral;
pub mod plan;
pub mod record;
pub mod text;
