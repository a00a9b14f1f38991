use vstd::prelude::*;
use crate::page::{copy_bytes, zero_image, zeroed_image, Page, PageId};

verus! {

/// An in-memory disk: page images addressed by identifier. Identifiers are
/// handed out in increasing order and never reused.
pub struct DiskManager {
    pages: Vec<Option<Vec<u8>>>,
}

impl View for DiskManager {
    /// The image of every allocated page.
    type V = Map<PageId, Seq<u8>>;

    closed spec fn view(&self) -> Map<PageId, Seq<u8>> {
        Map::new(
            |i: PageId| i < self.pages@.len() && self.pages@[i as int] is Some,
            |i: PageId| self.pages@[i as int]->Some_0@,
        )
    }
}

impl DiskManager {
    pub fn new() -> (r: Self)
        ensures
            r@ == Map::<PageId, Seq<u8>>::empty(),
    {
        let r = DiskManager { pages: Vec::new() };
        assert(r@ =~= Map::<PageId, Seq<u8>>::empty());
        r
    }

    /// Allocates a fresh page whose image is all zero bytes.
    pub fn allocate_new_page(&mut self) -> (r: PageId)
        ensures
            !old(self)@.contains_key(r),
            final(self)@ == old(self)@.insert(r, zero_image()),
    {
        let id = self.pages.len();
        self.pages.push(Some(zeroed_image()));
        assert(final(self)@ =~= old(self)@.insert(id, zero_image()));
        id
    }

    /// Reads the current image of an allocated page, as a clean page.
    pub fn read_page(&self, page_id: &PageId) -> (r: Page)
        requires
            self@.contains_key(*page_id),
        ensures
            r@.page_id == *page_id,
            r@.data == self@[*page_id],
            !r@.is_dirty,
    {
        let data = match &self.pages[*page_id] {
            Some(d) => copy_bytes(d),
            None => Vec::new(),
        };
        Page::new(*page_id, data)
    }

    /// Writes a page's bytes as the image of its identifier.
    pub fn write_page(&mut self, page: &Page)
        requires
            old(self)@.contains_key(page@.page_id),
        ensures
            final(self)@ == old(self)@.insert(page@.page_id, page@.data),
    {
        let id = page.page_id();
        self.pages.set(id, Some(copy_bytes(page.data())));
        assert(final(self)@ =~= old(self)@.insert(page@.page_id, page@.data));
    }

    /// Frees a page on disk; its identifier is not handed out again.
    pub fn deallocate_page(&mut self, page_id: &PageId)
        ensures
            final(self)@ == old(self)@.remove(*page_id),
    {
        if *page_id < self.pages.len() {
            self.pages.set(*page_id, None);
        }
        assert(final(self)@ =~= old(self)@.remove(*page_id));
    }
}

} // verus!
