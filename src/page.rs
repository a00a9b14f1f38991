use vstd::prelude::*;

verus! {

/// Identifier of a page on disk, issued by the disk manager.
pub type PageId = usize;

/// Number of bytes in a page image.
pub const PAGE_SIZE: usize = 4096;

/// Identifier carried by the placeholder page of an empty frame.
pub const INVALID_PAGE_ID: PageId = usize::MAX;

/// Abstract state of a page: its identifier, its bytes and whether they
/// differ from the image on disk.
pub ghost struct PageView {
    pub page_id: PageId,
    pub data: Seq<u8>,
    pub is_dirty: bool,
}

/// An in-memory page image.
#[derive(Debug)]
pub struct Page {
    page_id: PageId,
    data: Vec<u8>,
    is_dirty: bool,
}

impl View for Page {
    type V = PageView;

    closed spec fn view(&self) -> PageView {
        PageView { page_id: self.page_id, data: self.data@, is_dirty: self.is_dirty }
    }
}

/// A copy of `v`, byte for byte.
pub fn copy_bytes(v: &Vec<u8>) -> (r: Vec<u8>)
    ensures
        r@ == v@,
{
    let mut r: Vec<u8> = Vec::with_capacity(v.len());
    let mut i: usize = 0;
    while i < v.len()
        invariant
            i <= v@.len(),
            r@ == v@.subrange(0, i as int),
        decreases v@.len() - i,
    {
        r.push(v[i]);
        i += 1;
        assert(r@ =~= v@.subrange(0, i as int));
    }
    assert(v@.subrange(0, v@.len() as int) =~= v@);
    r
}

/// The image of a freshly allocated page: `PAGE_SIZE` zero bytes.
pub open spec fn zero_image() -> Seq<u8> {
    Seq::new(PAGE_SIZE as nat, |i: int| 0u8)
}

/// `PAGE_SIZE` zero bytes.
pub fn zeroed_image() -> (r: Vec<u8>)
    ensures
        r@ == zero_image(),
{
    let mut r: Vec<u8> = Vec::with_capacity(PAGE_SIZE);
    let mut i: usize = 0;
    while i < PAGE_SIZE
        invariant
            i <= PAGE_SIZE,
            r@.len() == i,
            forall|j: int| 0 <= j < i ==> r@[j] == 0u8,
        decreases PAGE_SIZE - i,
    {
        r.push(0u8);
        i += 1;
    }
    assert(r@ =~= zero_image());
    r
}

impl Page {
    /// A clean page holding `data`.
    pub fn new(page_id: PageId, data: Vec<u8>) -> (r: Page)
        ensures
            r@ == (PageView { page_id, data: data@, is_dirty: false }),
    {
        Page { page_id, data, is_dirty: false }
    }

    /// The placeholder's abstract state.
    pub open spec fn invalid_view() -> PageView {
        PageView { page_id: INVALID_PAGE_ID, data: Seq::empty(), is_dirty: false }
    }

    /// The placeholder held by a frame with no resident page.
    pub fn create_invalid_page() -> (r: Page)
        ensures
            r@ == Page::invalid_view(),
    {
        Page { page_id: INVALID_PAGE_ID, data: Vec::new(), is_dirty: false }
    }

    pub fn page_id(&self) -> (r: PageId)
        ensures
            r == self@.page_id,
    {
        self.page_id
    }

    pub fn is_dirty(&self) -> (r: bool)
        ensures
            r == self@.is_dirty,
    {
        self.is_dirty
    }

    pub fn set_is_dirty(&mut self, is_dirty: bool)
        ensures
            final(self)@ == (PageView { is_dirty, ..old(self)@ }),
    {
        self.is_dirty = is_dirty;
    }

    pub fn data(&self) -> (r: &Vec<u8>)
        ensures
            r@ == self@.data,
    {
        &self.data
    }

    /// Replaces the bytes of the page; the dirty flag is left to the caller.
    pub fn set_data(&mut self, data: Vec<u8>)
        ensures
            final(self)@ == (PageView { data: data@, ..old(self)@ }),
    {
        self.data = data;
    }

    /// A copy of this page with the same identifier, bytes and dirty flag.
    pub fn snapshot(&self) -> (r: Page)
        ensures
            r@ == self@,
    {
        Page { page_id: self.page_id, data: copy_bytes(&self.data), is_dirty: self.is_dirty }
    }
}

} // verus!
