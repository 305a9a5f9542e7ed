use zone_delta::client::{PageRequest, RecordListing, DNS_RECORD_PAGE_SIZE};
use zone_delta::record::{ExistingRecord, RecordContent};

fn page(first: usize, count: usize) -> Vec<ExistingRecord> {
    let mut records = Vec::new();
    for i in first..first + count {
        records.push(ExistingRecord {
            id: i.to_string(),
            name: format!("host{}", i),
            ttl: 1,
            proxied: false,
            content: RecordContent::TXT { content: String::new() },
        });
    }
    records
}

#[test]
fn page_size_is_one_hundred() {
    assert_eq!(DNS_RECORD_PAGE_SIZE, 100);
}

#[test]
fn listing_starts_with_the_first_page() {
    let listing = RecordListing::new();
    assert_eq!(listing.next_request(), Some(PageRequest { page: 1, per_page: 100 }));
    assert!(!listing.complete);
    assert!(listing.records.is_empty());
}

#[test]
fn short_first_page_completes_the_listing() {
    let mut listing = RecordListing::new();
    listing.receive(page(0, 99));
    assert!(listing.complete);
    assert_eq!(listing.next_request(), None);
    assert_eq!(listing.into_records(), page(0, 99));
}

#[test]
fn empty_first_page_completes_the_listing() {
    let mut listing = RecordListing::new();
    listing.receive(Vec::new());
    assert_eq!(listing.next_request(), None);
    assert!(listing.into_records().is_empty());
}

#[test]
fn full_page_asks_for_the_next() {
    let mut listing = RecordListing::new();
    listing.receive(page(0, 100));
    assert_eq!(listing.next_request(), Some(PageRequest { page: 2, per_page: 100 }));
    listing.receive(page(100, 100));
    assert_eq!(listing.next_request(), Some(PageRequest { page: 3, per_page: 100 }));
    listing.receive(page(200, 0));
    assert_eq!(listing.next_request(), None);
    assert_eq!(listing.page, 3);
    assert_eq!(listing.into_records(), page(0, 200));
}

#[test]
fn pages_are_kept_in_the_order_received() {
    let mut listing = RecordListing::new();
    listing.receive(page(500, 100));
    listing.receive(page(0, 100));
    listing.receive(page(300, 7));
    assert!(listing.complete);
    let mut expected = page(500, 100);
    expected.extend(page(0, 100));
    expected.extend(page(300, 7));
    assert_eq!(listing.into_records(), expected);
}

#[test]
fn overlong_page_counts_as_full() {
    let mut listing = RecordListing::new();
    listing.receive(page(0, 101));
    assert_eq!(listing.next_request(), Some(PageRequest { page: 2, per_page: 100 }));
}
