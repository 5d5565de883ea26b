//! Scans: all keys of a pattern, asked for page by page.

use vstd::prelude::*;

use crate::keys::DatabaseQueries;
use crate::text::texts_view;

verus! {

/// How many keys a request asks the store to look at.
pub const SCAN_COUNT: u64 = 5000;

/// A scan under way.
pub struct KeyScan {
    pattern: String,
    cursor: u64,
    keys: Vec<String>,
    complete: bool,
}

/// The next request of a scan.
#[derive(Debug, PartialEq)]
pub struct ScanRequest {
    /// Where the page begins.
    pub cursor: u64,
    /// The pattern that keys match.
    pub pattern: String,
    /// How many keys to look at.
    pub count: u64,
}

/// What a scan is: its pattern, where its next page begins, the keys so far, and whether it is
/// complete.
#[verifier::ext_equal]
pub struct ScanView {
    pub pattern: Seq<char>,
    pub cursor: u64,
    pub keys: Seq<Seq<char>>,
    pub complete: bool,
}

/// A page of a scan: where the next page begins, and the keys of this one.
#[verifier::ext_equal]
pub struct PageView {
    pub cursor: u64,
    pub keys: Seq<Seq<char>>,
}

impl View for KeyScan {
    type V = ScanView;

    closed spec fn view(&self) -> ScanView {
        ScanView {
            pattern: self.pattern@,
            cursor: self.cursor,
            keys: texts_view(self.keys@),
            complete: self.complete,
        }
    }
}

/// A scan that has asked for nothing yet.
pub open spec fn scan_start(pattern: Seq<char>) -> ScanView {
    ScanView { pattern, cursor: 0, keys: Seq::empty(), complete: false }
}

/// A scan after one more page.
pub open spec fn scan_step(scan: ScanView, page: PageView) -> ScanView {
    ScanView {
        pattern: scan.pattern,
        cursor: page.cursor,
        keys: scan.keys + page.keys,
        complete: page.cursor == 0,
    }
}

/// A scan after the given pages.
pub open spec fn scan_after(pattern: Seq<char>, pages: Seq<PageView>) -> ScanView
    decreases pages.len(),
{
    if pages.len() == 0 {
        scan_start(pattern)
    } else {
        scan_step(scan_after(pattern, pages.drop_last()), pages.last())
    }
}

/// The keys of the given pages, in the order of their arrival.
pub open spec fn keys_of(pages: Seq<PageView>) -> Seq<Seq<char>>
    decreases pages.len(),
{
    if pages.len() == 0 {
        Seq::empty()
    } else {
        keys_of(pages.drop_last()) + pages.last().keys
    }
}

/// A scan loses no key and adds none: after any pages it holds all their keys in the order of
/// arrival, its next request begins where the last page said, and it is complete exactly where
/// the last page said that nothing is left.
pub proof fn scan_holds_all_pages(pattern: Seq<char>, pages: Seq<PageView>)
    ensures
        scan_after(pattern, pages).pattern == pattern,
        scan_after(pattern, pages).keys == keys_of(pages),
        scan_after(pattern, pages).cursor == (if pages.len() == 0 {
            0
        } else {
            pages.last().cursor
        }),
        scan_after(pattern, pages).complete == (pages.len() > 0 && pages.last().cursor == 0),
    decreases pages.len(),
{
    if pages.len() > 0 {
        scan_holds_all_pages(pattern, pages.drop_last());
    }
}

/// A page leaves the keys of a scan where they were and adds its own after them, all of them and in
/// their order; the next request has the same pattern and begins where the page said, and there is
/// none exactly where the page said zero.
pub proof fn page_adds_its_keys(scan: ScanView, page: PageView)
    ensures
        scan_step(scan, page).keys.len() == scan.keys.len() + page.keys.len(),
        forall|i: int|
            0 <= i < scan.keys.len() ==> #[trigger] scan_step(scan, page).keys[i] == scan.keys[i],
        forall|i: int|
            0 <= i < page.keys.len() ==> scan_step(scan, page).keys[scan.keys.len() + i]
                == #[trigger] page.keys[i],
        scan_step(scan, page).pattern == scan.pattern,
        scan_step(scan, page).cursor == page.cursor,
        scan_step(scan, page).complete <==> page.cursor == 0,
{
}

/// A scan begins at zero with no keys, and is complete only after a page.
pub proof fn scan_begins_empty(pattern: Seq<char>)
    ensures
        scan_start(pattern).pattern == pattern,
        scan_start(pattern).cursor == 0,
        scan_start(pattern).keys.len() == 0,
        !scan_start(pattern).complete,
{
}

/// A scan holds the keys of its pages, one page after the other.
pub proof fn scan_is_its_pages_in_a_row(pattern: Seq<char>, pages: Seq<PageView>)
    ensures
        scan_after(pattern, pages).keys == pages.map_values(|page: PageView| page.keys).flatten(),
    decreases pages.len(),
{
    let lists = pages.map_values(|page: PageView| page.keys);
    lists.lemma_flatten_and_flatten_alt_are_equivalent();
    if pages.len() > 0 {
        let rest = pages.drop_last();
        let earlier = rest.map_values(|page: PageView| page.keys);
        scan_is_its_pages_in_a_row(pattern, rest);
        earlier.lemma_flatten_and_flatten_alt_are_equivalent();
        assert(lists.drop_last() =~= earlier);
        assert(lists.last() == pages.last().keys);
    }
}

impl DatabaseQueries {
    /// Begins a scan of the keys that match `pattern`.
    pub fn scan_keys(pattern: String) -> (scan: KeyScan)
        ensures
            scan@ == scan_start(pattern@),
    {
        let scan = KeyScan { pattern, cursor: 0, keys: Vec::new(), complete: false };
        assert(scan@ =~= scan_start(pattern@));
        scan
    }
}

impl KeyScan {
    /// What to ask for next, where the scan is not complete.
    pub fn request(&self) -> (request: Option<ScanRequest>)
        ensures
            request is Some <==> !self@.complete,
            request matches Some(r) ==> r.cursor == self@.cursor && r.pattern@ == self@.pattern
                && r.count == SCAN_COUNT,
    {
        if self.complete {
            None
        } else {
            Some(
                ScanRequest {
                    cursor: self.cursor,
                    pattern: self.pattern.clone(),
                    count: SCAN_COUNT,
                },
            )
        }
    }

    /// Takes the reply to the last request: where the next page begins, and the keys of this one.
    pub fn receive(&mut self, cursor: u64, keys: Vec<String>)
        requires
            !old(self)@.complete,
        ensures
            final(self)@ == scan_step(
                old(self)@,
                (PageView { cursor, keys: texts_view(keys@) }),
            ),
    {
        let mut page = keys;
        self.keys.append(&mut page);
        self.cursor = cursor;
        self.complete = cursor == 0;
        assert(self@.keys =~= old(self)@.keys + texts_view(keys@));
    }

    /// The keys that the scan has found so far.
    pub fn into_keys(self) -> (keys: Vec<String>)
        ensures
            texts_view(keys@) == self@.keys,
    {
        self.keys
    }
}

} // verus!
