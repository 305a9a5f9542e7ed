//! The listing of a zone's records, which the provider hands out page by
//! page: which page to ask for next, and when the listing is complete.

use vstd::prelude::*;
use crate::record::{ExistingModel, ExistingRecord};

verus! {

/// How many records one page of the listing holds at most.
pub const DNS_RECORD_PAGE_SIZE: u32 = 100;

/// What to ask the provider for: one page of the listing.
#[derive(Clone, Copy, Debug, PartialEq, Eq)]
pub struct PageRequest {
    /// The number of the page; the first page is page 1.
    pub page: u32,
    /// How many records the page holds at most.
    pub per_page: u32,
}

/// A listing in progress.
#[derive(Clone, Debug)]
pub struct RecordListing {
    /// The records of the pages received, in the order of the listing.
    pub records: Vec<ExistingRecord>,
    /// The number of the page to ask for next.
    pub page: u32,
    /// Whether the last page has been received.
    pub complete: bool,
}

/// A `RecordListing` as a mathematical value.
pub struct ListingModel {
    pub records: Seq<ExistingModel>,
    pub page: u32,
    pub complete: bool,
}

impl View for RecordListing {
    type V = ListingModel;

    open spec fn view(&self) -> ListingModel {
        ListingModel {
            records: self.records.deep_view(),
            page: self.page,
            complete: self.complete,
        }
    }
}

/// The listing before any page has been asked for.
pub open spec fn listing_start() -> ListingModel {
    ListingModel { records: Seq::empty(), page: 1, complete: false }
}

/// The listing `listing` once the page that it asked for has come with the
/// records `received`. A page that is not full is the last one.
pub open spec fn listing_with_page(
    listing: ListingModel,
    received: Seq<ExistingModel>,
) -> ListingModel {
    if received.len() < DNS_RECORD_PAGE_SIZE {
        ListingModel { records: listing.records + received, page: listing.page, complete: true }
    } else {
        ListingModel {
            records: listing.records + received,
            page: (listing.page + 1) as u32,
            complete: false,
        }
    }
}

impl RecordListing {
    /// A listing of which no page has been asked for yet.
    pub fn new() -> (listing: RecordListing)
        ensures
            listing@ == listing_start(),
    {
        let listing = RecordListing { records: Vec::new(), page: 1, complete: false };
        assert(listing@.records =~= Seq::empty());
        listing
    }

    /// The page to ask for next, if the listing is not complete.
    pub fn next_request(&self) -> (request: Option<PageRequest>)
        ensures
            request == if self.complete {
                None
            } else {
                Some(PageRequest { page: self.page, per_page: DNS_RECORD_PAGE_SIZE })
            },
    {
        if self.complete {
            None
        } else {
            Some(PageRequest { page: self.page, per_page: DNS_RECORD_PAGE_SIZE })
        }
    }

    /// Takes in the page that was asked for. The page with the last number
    /// that can be asked for must be the last page.
    pub fn receive(&mut self, received: Vec<ExistingRecord>)
        requires
            !old(self).complete,
            old(self).page < u32::MAX || received.len() < DNS_RECORD_PAGE_SIZE,
        ensures
            final(self)@ == listing_with_page(old(self)@, received.deep_view()),
    {
        let full = received.len() >= DNS_RECORD_PAGE_SIZE as usize;
        let ghost before = self.records.deep_view();
        let mut received = received;
        let ghost page = received.deep_view();
        self.records.append(&mut received);
        assert(self.records.deep_view() =~= before + page);
        if full {
            self.page = self.page + 1;
        } else {
            self.complete = true;
        }
    }

    /// The records of the listing, once it is complete.
    pub fn into_records(self) -> (records: Vec<ExistingRecord>)
        requires
            self.complete,
        ensures
            records.deep_view() == self@.records,
    {
        self.records
    }
}

/// The page `page` holds as many records as a page can hold.
pub open spec fn is_full_page(page: Seq<ExistingModel>) -> bool {
    page.len() >= DNS_RECORD_PAGE_SIZE
}

/// The listing once the pages `pages` have come one after the other.
pub open spec fn listing_with_pages(pages: Seq<Seq<ExistingModel>>) -> ListingModel
    decreases pages.len(),
{
    if pages.len() == 0 {
        listing_start()
    } else {
        listing_with_page(listing_with_pages(pages.drop_last()), pages.last())
    }
}

/// A listing goes through its pages in order and ends with the first page
/// that is not full. While every page that has come was full, the listing
/// asks for the page after them. Once full pages and a last page that is not
/// full have come, the listing is complete. Either way it holds the records
/// of all the pages, in their order.
pub proof fn lemma_listing_holds_its_pages(pages: Seq<Seq<ExistingModel>>)
    requires
        pages.len() < u32::MAX,
        forall|i: int| 0 <= i < pages.len() - 1 ==> is_full_page(#[trigger] pages[i]),
    ensures
        listing_with_pages(pages).records == pages.flatten(),
        listing_with_pages(pages).complete == (pages.len() > 0 && !is_full_page(pages.last())),
        listing_with_pages(pages).complete ==> listing_with_pages(pages).page == pages.len(),
        !listing_with_pages(pages).complete ==> listing_with_pages(pages).page == pages.len() + 1,
    decreases pages.len(),
{
    pages.lemma_flatten_and_flatten_alt_are_equivalent();
    if pages.len() > 0 {
        let earlier = pages.drop_last();
        earlier.lemma_flatten_and_flatten_alt_are_equivalent();
        assert forall|i: int| 0 <= i < earlier.len() implies is_full_page(
            #[trigger] earlier[i],
        ) by {
            assert(earlier[i] == pages[i]);
        }
        lemma_listing_holds_its_pages(earlier);
        if earlier.len() > 0 {
            assert(earlier.last() == pages[pages.len() - 2]);
        }
    }
}

} // verus!
