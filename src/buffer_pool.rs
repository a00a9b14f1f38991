use vstd::prelude::*;
use std::collections::HashMap;
use std::collections::VecDeque;
use crate::disk::DiskManager;
use crate::page::{zero_image, Page, PageId, PageView};
use crate::replacer::{AccessType, FrameId, LRUKReplacer, ReplacerView};

verus! {

broadcast use vstd::std_specs::hash::group_hash_axioms;

/// Abstract state of a page-table entry.
pub ghost struct FrameMetadataView {
    pub frame_id: FrameId,
    pub pin_count: usize,
}

/// Where a resident page lives and how many callers hold it pinned.
#[derive(Clone, Copy, Debug)]
pub struct FrameMetadata {
    frame_id: FrameId,
    pin_count: usize,
}

impl View for FrameMetadata {
    type V = FrameMetadataView;

    closed spec fn view(&self) -> FrameMetadataView {
        FrameMetadataView { frame_id: self.frame_id, pin_count: self.pin_count }
    }
}

impl FrameMetadata {
    pub fn new(frame_id: FrameId) -> (r: Self)
        ensures
            r@ == (FrameMetadataView { frame_id, pin_count: 0 }),
    {
        Self { frame_id, pin_count: 0 }
    }

    pub fn pin_count(&self) -> (r: usize)
        ensures
            r == self@.pin_count,
    {
        self.pin_count
    }

    pub fn increment_pin_count(&mut self)
        requires
            old(self)@.pin_count < usize::MAX,
        ensures
            final(self)@ == (FrameMetadataView {
                pin_count: (old(self)@.pin_count + 1) as usize,
                ..old(self)@
            }),
    {
        self.pin_count += 1;
    }

    /// Lowers the pin count; it must not already be zero.
    pub fn decrement_pin_count(&mut self)
        requires
            old(self)@.pin_count > 0,
        ensures
            final(self)@ == (FrameMetadataView {
                pin_count: (old(self)@.pin_count - 1) as usize,
                ..old(self)@
            }),
    {
        self.pin_count -= 1;
    }

    pub fn frame_id(&self) -> (r: &FrameId)
        ensures
            *r == self@.frame_id,
    {
        &self.frame_id
    }
}

/// Abstract state of the buffer pool.
pub ghost struct PoolView {
    pub pool_size: nat,
    /// Resident pages: frame and pin count of each.
    pub page_table: Map<PageId, FrameMetadataView>,
    /// The page image held by each frame.
    pub frames: Seq<PageView>,
    /// Frames that hold no resident page, in the order they are handed out.
    pub free_list: Seq<FrameId>,
    pub replacer: ReplacerView,
    /// The image of every page allocated on disk.
    pub disk: Map<PageId, Seq<u8>>,
}

impl PoolView {
    pub open spec fn resident(self, pid: PageId) -> bool {
        self.page_table.contains_key(pid)
    }

    pub open spec fn frame_of(self, pid: PageId) -> int {
        self.page_table[pid].frame_id as int
    }

    pub open spec fn pin_count(self, pid: PageId) -> int {
        self.page_table[pid].pin_count as int
    }

    /// The in-memory image of a resident page.
    pub open spec fn image(self, pid: PageId) -> PageView {
        self.frames[self.frame_of(pid)]
    }

    /// Frame `f` holds a resident page.
    pub open spec fn holds(self, f: int) -> bool {
        &&& self.page_table.contains_key(self.frames[f].page_id)
        &&& self.page_table[self.frames[f].page_id].frame_id == f
    }

    /// No frame can be handed out: the free list is empty and every resident
    /// page is pinned.
    pub open spec fn all_pinned(self) -> bool {
        &&& self.free_list.len() == 0
        &&& forall|pid: PageId| #[trigger] self.resident(pid) ==> self.pin_count(pid) > 0
    }

    /// What holds of each resident page.
    pub open spec fn entry_ok(self, pid: PageId) -> bool {
        let f = self.frame_of(pid);
        &&& 0 <= f < self.pool_size
        &&& self.frames[f].page_id == pid
        &&& !self.free_list.contains(f as FrameId)
        &&& self.replacer.tracks(f)
        &&& self.replacer.is_evictable(f) == (self.pin_count(pid) == 0)
        &&& self.disk.contains_key(pid)
        &&& !self.frames[f].is_dirty ==> self.frames[f].data == self.disk[pid]
    }

    /// The pool's invariant, with frame `hole` (when `hole >= 0`) taken out of
    /// circulation: neither free nor holding a resident page.
    pub open spec fn inv_hole(self, hole: int) -> bool {
        &&& self.frames.len() == self.pool_size
        &&& self.replacer.nodes.len() == self.pool_size
        &&& self.page_table.dom().finite()
        &&& self.free_list.no_duplicates()
        &&& forall|i: int|
            0 <= i < self.free_list.len() ==> #[trigger] self.free_list[i] < self.pool_size
                && self.free_list[i] != hole
        &&& forall|pid: PageId| #[trigger] self.resident(pid) ==> self.entry_ok(pid)
        &&& forall|f: int|
            0 <= f < self.pool_size && f != hole ==> self.free_list.contains(f as FrameId)
                || #[trigger] self.holds(f)
        &&& forall|f: int|
            0 <= f < self.pool_size && #[trigger] self.replacer.tracks(f) ==> self.holds(f)
        &&& self.page_table.len() + self.free_list.len() + (if hole >= 0 {
            1int
        } else {
            0int
        }) == self.pool_size
        &&& hole >= 0 ==> hole < self.pool_size && !self.holds(hole) && !self.replacer.tracks(
            hole,
        )
    }

    /// The invariant kept between public operations: every frame is either
    /// free or holds exactly one resident page; the replacer tracks exactly
    /// the frames holding resident pages, and marks them evictable exactly
    /// when unpinned; a clean resident page matches its disk image.
    pub open spec fn inv(self) -> bool {
        self.inv_hole(-1)
    }

    /// Choosing frame `f` for a new resident page takes `self` to `mid`: the
    /// front of the free list if there is one; otherwise the replacer's
    /// victim, whose page is written back when dirty and leaves the table.
    pub open spec fn victim_step(self, mid: PoolView, f: FrameId) -> bool {
        if self.free_list.len() > 0 {
            &&& f == self.free_list[0]
            &&& mid == PoolView { free_list: self.free_list.drop_first(), ..self }
        } else {
            let q = self.frames[f as int].page_id;
            &&& self.replacer.is_victim(f as int)
            &&& mid == PoolView {
                page_table: self.page_table.remove(q),
                replacer: self.replacer.removed(f as int),
                disk: if self.frames[f as int].is_dirty {
                    self.disk.insert(q, self.frames[f as int].data)
                } else {
                    self.disk
                },
                ..self
            }
        }
    }

    /// `page` placed in frame `f` with one pin and one recorded access.
    pub open spec fn installed(self, f: FrameId, page: PageView) -> PoolView {
        PoolView {
            page_table: self.page_table.insert(
                page.page_id,
                FrameMetadataView { frame_id: f, pin_count: 1 },
            ),
            frames: self.frames.update(f as int, page),
            replacer: self.replacer.recorded(f as int),
            ..self
        }
    }
}

impl PoolView {
    /// What `new_page` does: `None` exactly when every frame is pinned, and
    /// then nothing changes; otherwise a frame is chosen and a freshly
    /// allocated zero page is placed in it with one pin.
    pub open spec fn new_page_post(self, post: PoolView, r: Option<PageId>) -> bool {
        &&& (r is None <==> self.all_pinned())
        &&& match r {
            None => post == self,
            Some(pid) => exists|f: FrameId, mid: PoolView|
                #[trigger] self.victim_step(mid, f) && !mid.disk.contains_key(pid) && post
                    == (PoolView { disk: mid.disk.insert(pid, zero_image()), ..mid }).installed(
                    f,
                    PageView { page_id: pid, data: zero_image(), is_dirty: false },
                ),
        }
    }

    /// What `fetch_page(pid)` does: a resident page gains a pin and an access
    /// and is returned as it is in memory; otherwise, unless every frame is
    /// pinned, a frame is chosen and the disk image is read into it.
    pub open spec fn fetch_page_post(
        self,
        pid: PageId,
        post: PoolView,
        r: Option<PageView>,
    ) -> bool {
        &&& (r is None <==> !self.resident(pid) && self.all_pinned())
        &&& if self.resident(pid) {
            let f = self.frame_of(pid) as FrameId;
            &&& r == Some(self.frames[f as int])
            &&& post == PoolView {
                page_table: self.page_table.insert(
                    pid,
                    FrameMetadataView { frame_id: f, pin_count: (self.pin_count(pid) + 1) as usize },
                ),
                replacer: self.replacer.with_evictable(f as int, false).recorded(f as int),
                ..self
            }
        } else {
            match r {
                None => post == self,
                Some(p) => exists|f: FrameId, mid: PoolView|
                    #[trigger] self.victim_step(mid, f) && p == (PageView {
                        page_id: pid,
                        data: mid.disk[pid],
                        is_dirty: false,
                    }) && post == mid.installed(f, p),
            }
        }
    }

    /// What `unpin_page(pid, is_dirty)` does: a resident, pinned page loses
    /// one pin, becomes dirty if `is_dirty` (a dirty page stays dirty), and
    /// becomes evictable when its last pin goes; otherwise nothing changes.
    pub open spec fn unpin_page_post(
        self,
        pid: PageId,
        is_dirty: bool,
        post: PoolView,
        r: bool,
    ) -> bool {
        &&& r == (self.resident(pid) && self.pin_count(pid) > 0)
        &&& if r {
            let f = self.frame_of(pid) as FrameId;
            let n = (self.pin_count(pid) - 1) as usize;
            post == PoolView {
                page_table: self.page_table.insert(
                    pid,
                    FrameMetadataView { frame_id: f, pin_count: n },
                ),
                frames: if is_dirty {
                    self.frames.update(f as int, PageView { is_dirty: true, ..self.frames[f as int] })
                } else {
                    self.frames
                },
                replacer: if n == 0 {
                    self.replacer.with_evictable(f as int, true)
                } else {
                    self.replacer
                },
                ..self
            }
        } else {
            post == self
        }
    }

    /// What `flush_page(pid)` does: a resident page's image is written to disk
    /// and marked clean; nothing else changes.
    pub open spec fn flush_page_post(self, pid: PageId, post: PoolView) -> bool {
        if self.resident(pid) {
            let f = self.frame_of(pid);
            post == PoolView {
                frames: self.frames.update(f, PageView { is_dirty: false, ..self.frames[f] }),
                disk: self.disk.insert(pid, self.frames[f].data),
                ..self
            }
        } else {
            post == self
        }
    }
}

/// The buffer pool: a fixed number of frames caching disk pages, with LRU-K
/// replacement of unpinned pages.
pub struct BufferPoolManager {
    pool_size: usize,
    pages: Vec<Page>,
    page_table: HashMap<PageId, FrameMetadata>,
    disk_manager: DiskManager,
    replacer: LRUKReplacer,
    free_list: VecDeque<FrameId>,
}

impl View for BufferPoolManager {
    type V = PoolView;

    closed spec fn view(&self) -> PoolView {
        PoolView {
            pool_size: self.pool_size as nat,
            page_table: self.page_table@.map_values(|m: FrameMetadata| m@),
            frames: self.pages@.map_values(|p: Page| p@),
            free_list: self.free_list@,
            replacer: self.replacer@,
            disk: self.disk_manager@,
        }
    }
}

impl BufferPoolManager {
    pub closed spec fn wf_hole(&self, hole: int) -> bool {
        &&& self.replacer.wf()
        &&& self.pages@.len() == self.pool_size
        &&& self@.inv_hole(hole)
    }

    /// Internal consistency; see [`PoolView::inv`].
    pub closed spec fn wf(&self) -> bool {
        self.wf_hole(-1)
    }

    pub proof fn lemma_wf_inv(&self)
        requires
            self.wf(),
        ensures
            self@.inv(),
    {
    }

    /// A pool of `pool_size` empty frames over `disk_manager`, replacing
    /// pages by LRU-`replacer_k`.
    pub fn new(pool_size: usize, replacer_k: usize, disk_manager: DiskManager) -> (r: Self)
        requires
            replacer_k >= 1,
        ensures
            r.wf(),
            r@.pool_size == pool_size,
            r@.page_table.is_empty(),
            r@.free_list == Seq::new(pool_size as nat, |i: int| i as FrameId),
            r@.disk == disk_manager@,
            r@.replacer.now == 0,
            r@.replacer.k == replacer_k,
    {
        let mut pages: Vec<Page> = Vec::with_capacity(pool_size);
        let mut free_list: VecDeque<FrameId> = VecDeque::with_capacity(pool_size);
        let mut i: usize = 0;
        while i < pool_size
            invariant
                i <= pool_size,
                pages@.len() == i,
                free_list@ == Seq::new(i as nat, |j: int| j as FrameId),
            decreases pool_size - i,
        {
            pages.push(Page::create_invalid_page());
            free_list.push_back(i);
            i += 1;
            assert(free_list@ =~= Seq::new(i as nat, |j: int| j as FrameId));
        }
        let r = BufferPoolManager {
            pool_size,
            pages,
            page_table: HashMap::new(),
            disk_manager,
            replacer: LRUKReplacer::new(pool_size, replacer_k),
            free_list,
        };
        assert(r@.page_table =~= Map::<PageId, FrameMetadataView>::empty());
        assert forall|f: int| 0 <= f < pool_size implies #[trigger] r@.free_list.contains(f as FrameId) by {
            assert(r@.free_list[f] == f as FrameId);
        }
        r
    }

    pub fn builder() -> (r: BufferPoolManagerBuilder)
        ensures
            r.pool_size is None,
            r.replacer_k is None,
            r.disk_manager is None,
    {
        BufferPoolManagerBuilder { pool_size: None, replacer_k: None, disk_manager: None }
    }
}

impl BufferPoolManager {
    /// Frees a frame for a new resident page: the front of the free list, or
    /// else the replacer's victim, written back to disk when dirty and taken
    /// out of the page table.
    fn find_victim_frame(&mut self) -> (r: Option<FrameId>)
        requires
            old(self).wf(),
        ensures
            r is None <==> old(self)@.all_pinned(),
            match r {
                None => final(self)@ == old(self)@ && final(self).wf(),
                Some(f) => {
                    &&& old(self)@.victim_step(final(self)@, f)
                    &&& final(self).wf_hole(f as int)
                },
            },
    {
        let ghost pre = self@;
        if let Some(f) = self.free_list.pop_front() {
            let ghost mid = self@;
            assert(mid =~= PoolView { free_list: pre.free_list.drop_first(), ..pre });
            assert forall|g: int|
                0 <= g < pre.pool_size && g != f implies mid.free_list.contains(g as FrameId)
                || #[trigger] mid.holds(g) by {
                if pre.free_list.contains(g as FrameId) {
                    let i = choose|i: int|
                        0 <= i < pre.free_list.len() && pre.free_list[i] == g as FrameId;
                    assert(i != 0);
                    assert(mid.free_list[i - 1] == g as FrameId);
                } else {
                    assert(pre.holds(g));
                }
            }
            assert forall|i: int| 0 <= i < mid.free_list.len() implies #[trigger] mid.free_list[i]
                < mid.pool_size && mid.free_list[i] != f by {
                assert(mid.free_list[i] == pre.free_list[i + 1]);
            }
            assert forall|pid: PageId| #[trigger] mid.resident(pid) implies mid.entry_ok(pid) by {
                assert(pre.resident(pid));
                assert(pre.entry_ok(pid));
                if mid.free_list.contains(mid.frame_of(pid) as FrameId) {
                    let i = choose|i: int|
                        0 <= i < mid.free_list.len() && mid.free_list[i] == mid.frame_of(
                            pid,
                        ) as FrameId;
                    assert(pre.free_list[i + 1] == mid.free_list[i]);
                }
            }
            assert(pre.free_list[0] == f);
            assert(!pre.all_pinned());
            assert(mid.page_table.len() + mid.free_list.len() + 1 == mid.pool_size);
            assert(!mid.holds(f as int)) by {
                if mid.holds(f as int) {
                    let pid = mid.frames[f as int].page_id;
                    assert(pre.resident(pid));
                    assert(pre.entry_ok(pid));
                    assert(pre.free_list.contains(f));
                }
            }
            assert(!mid.replacer.tracks(f as int));
            assert(self.wf_hole(f as int));
            return Some(f);
        }
        match self.replacer.evict() {
            None => {
                assert forall|pid: PageId| #[trigger] pre.resident(pid) implies pre.pin_count(pid)
                    > 0 by {
                    assert(pre.entry_ok(pid));
                }
                None
            },
            Some(f) => {
                let q = self.pages[f].page_id();
                assert(pre.replacer.tracks(f as int));
                assert(pre.holds(f as int));
                assert(pre.resident(q));
                assert(pre.entry_ok(q));
                if self.pages[f].is_dirty() {
                    self.disk_manager.write_page(&self.pages[f]);
                }
                self.page_table.remove(&q);
                let ghost mid = self@;
                assert(mid.page_table =~= pre.page_table.remove(q));
                assert(mid =~= PoolView {
                    page_table: pre.page_table.remove(q),
                    replacer: pre.replacer.removed(f as int),
                    disk: if pre.frames[f as int].is_dirty {
                        pre.disk.insert(q, pre.frames[f as int].data)
                    } else {
                        pre.disk
                    },
                    ..pre
                });
                assert forall|pid: PageId| #[trigger] mid.resident(pid) implies mid.entry_ok(
                    pid,
                ) by {
                    assert(pre.resident(pid));
                    assert(pre.entry_ok(pid));
                    assert(pid != q);
                }
                assert forall|g: int|
                    0 <= g < pre.pool_size && g != f implies mid.free_list.contains(g as FrameId)
                    || #[trigger] mid.holds(g) by {
                    if !pre.free_list.contains(g as FrameId) {
                        assert(pre.holds(g));
                    }
                }
                assert forall|g: int|
                    0 <= g < pre.pool_size && #[trigger] mid.replacer.tracks(g) implies mid.holds(
                    g,
                ) by {
                    assert(pre.replacer.tracks(g));
                    assert(pre.holds(g));
                }
                assert(!pre.all_pinned()) by {
                    assert(pre.resident(q));
                }
                Some(f)
            },
        }
    }

    /// Places `page` in the taken-out frame `f`, with one pin and one
    /// recorded access.
    fn install_page(&mut self, f: FrameId, page: Page)
        requires
            old(self).wf_hole(f as int),
            !old(self)@.resident(page@.page_id),
            old(self)@.disk.contains_key(page@.page_id),
            !page@.is_dirty,
            page@.data == old(self)@.disk[page@.page_id],
            old(self)@.replacer.now < usize::MAX,
        ensures
            final(self).wf(),
            final(self)@ == old(self)@.installed(f, page@),
    {
        let ghost pre = self@;
        let ghost pv = page@;
        let pid = page.page_id();
        self.pages.set(f, page);
        let mut meta = FrameMetadata::new(f);
        meta.increment_pin_count();
        self.page_table.insert(pid, meta);
        self.replacer.record_access(&f, AccessType::Lookup);
        let ghost post = self@;
        assert(post.page_table =~= pre.installed(f, pv).page_table);
        assert(post.frames =~= pre.installed(f, pv).frames);
        assert(post =~= pre.installed(f, pv));
        assert forall|q: PageId| #[trigger] post.resident(q) implies post.entry_ok(q) by {
            if q != pid {
                assert(pre.resident(q));
                assert(pre.entry_ok(q));
                assert(pre.frame_of(q) != f);
            }
        }
        assert forall|g: int|
            0 <= g < pre.pool_size implies post.free_list.contains(g as FrameId)
            || #[trigger] post.holds(g) by {
            if g != f && !pre.free_list.contains(g as FrameId) {
                assert(pre.holds(g));
                assert(pre.frames[g].page_id != pid);
            }
        }
        assert forall|g: int|
            0 <= g < pre.pool_size && #[trigger] post.replacer.tracks(g) implies post.holds(g) by {
            if g != f {
                assert(pre.replacer.tracks(g));
                assert(pre.holds(g));
                assert(pre.frames[g].page_id != pid);
            }
        }
        assert forall|i: int| 0 <= i < post.free_list.len() implies #[trigger] post.free_list[i]
            < post.pool_size && post.free_list[i] != -1int by {
            assert(pre.free_list[i] != f);
        }
    }
}

proof fn lemma_disk_grow(v: PoolView, hole: int, pid: PageId, img: Seq<u8>)
    requires
        v.inv_hole(hole),
        !v.disk.contains_key(pid),
    ensures
        (PoolView { disk: v.disk.insert(pid, img), ..v }).inv_hole(hole),
{
    let w = PoolView { disk: v.disk.insert(pid, img), ..v };
    assert forall|q: PageId| #[trigger] w.resident(q) implies w.entry_ok(q) by {
        assert(v.resident(q));
        assert(v.entry_ok(q));
    }
    assert forall|g: int|
        0 <= g < w.pool_size && g != hole implies w.free_list.contains(g as FrameId)
        || #[trigger] w.holds(g) by {
        assert(v.free_list.contains(g as FrameId) || v.holds(g));
    }
    assert forall|g: int|
        0 <= g < w.pool_size && #[trigger] w.replacer.tracks(g) implies w.holds(g) by {
        assert(v.replacer.tracks(g));
    }
}

impl BufferPoolManager {
    /// Allocates a new page on disk and makes it resident with one pin;
    /// `None` when every frame is pinned.
    pub fn new_page(&mut self) -> (r: Option<PageId>)
        requires
            old(self).wf(),
            old(self)@.replacer.now < usize::MAX,
        ensures
            final(self).wf(),
            old(self)@.new_page_post(final(self)@, r),
    {
        let ghost pre = self@;
        let frame_id = match self.find_victim_frame() {
            Some(f) => f,
            None => return None,
        };
        let ghost mid = self@;
        let page_id = self.disk_manager.allocate_new_page();
        proof {
            lemma_disk_grow(mid, frame_id as int, page_id, zero_image());
            assert(self@ =~= PoolView { disk: mid.disk.insert(page_id, zero_image()), ..mid });
        }
        let page = self.disk_manager.read_page(&page_id);
        assert(!mid.resident(page_id)) by {
            if mid.resident(page_id) {
                assert(mid.entry_ok(page_id));
            }
        }
        self.install_page(frame_id, page);
        assert(pre.victim_step(mid, frame_id));
        Some(page_id)
    }

    /// Pins the page `page_id` and returns a copy of its image: from memory
    /// when resident, otherwise read from disk into a frame; `None` when it is
    /// not resident and every frame is pinned. The page must be resident or
    /// allocated on disk. Changes to the page go through `write_page_data`
    /// while it is pinned.
    pub fn fetch_page(&mut self, page_id: &PageId) -> (r: Option<Page>)
        requires
            old(self).wf(),
            old(self)@.replacer.now < usize::MAX,
            old(self)@.resident(*page_id) || old(self)@.disk.contains_key(*page_id),
            old(self)@.resident(*page_id) ==> old(self)@.pin_count(*page_id) < usize::MAX,
        ensures
            final(self).wf(),
            old(self)@.fetch_page_post(
                *page_id,
                final(self)@,
                match r {
                    Some(p) => Some(p@),
                    None => None,
                },
            ),
    {
        let ghost pre = self@;
        let pid = *page_id;
        if let Some(meta) = self.page_table.get(page_id) {
            let mut m = *meta;
            let f = *m.frame_id();
            assert(pre.resident(pid));
            assert(pre.entry_ok(pid));
            m.increment_pin_count();
            self.page_table.insert(pid, m);
            self.replacer.set_evictable(&f, false);
            self.replacer.record_access(&f, AccessType::Lookup);
            let ghost post = self@;
            assert(post.page_table =~= pre.page_table.insert(
                pid,
                FrameMetadataView { frame_id: f, pin_count: (pre.pin_count(pid) + 1) as usize },
            ));
            assert forall|q: PageId| #[trigger] post.resident(q) implies post.entry_ok(q) by {
                if q != pid {
                    assert(pre.resident(q));
                    assert(pre.entry_ok(q));
                }
            }
            assert forall|g: int|
                0 <= g < pre.pool_size implies post.free_list.contains(g as FrameId)
                || #[trigger] post.holds(g) by {
                if !pre.free_list.contains(g as FrameId) {
                    assert(pre.holds(g));
                }
            }
            assert forall|g: int|
                0 <= g < pre.pool_size && #[trigger] post.replacer.tracks(g) implies post.holds(
                g,
            ) by {
                assert(pre.replacer.tracks(g));
                assert(pre.holds(g));
            }
            return Some(self.pages[f].snapshot());
        }
        let frame_id = match self.find_victim_frame() {
            Some(f) => f,
            None => return None,
        };
        let ghost mid = self@;
        assert(pre.disk.contains_key(pid));
        let page = self.disk_manager.read_page(page_id);
        let r = page.snapshot();
        self.install_page(frame_id, page);
        assert(pre.victim_step(mid, frame_id));
        Some(r)
    }

    /// Sets the dirty flag of a resident page; it may be cleared only when
    /// the page matches its disk image.
    pub(crate) fn set_is_dirty(&mut self, page_id: &PageId, is_dirty: bool)
        requires
            old(self).wf(),
            old(self)@.resident(*page_id),
            !is_dirty ==> old(self)@.image(*page_id).data == old(self)@.disk[*page_id],
        ensures
            final(self).wf(),
            final(self)@ == (PoolView {
                frames: old(self)@.frames.update(
                    old(self)@.frame_of(*page_id),
                    PageView { is_dirty, ..old(self)@.image(*page_id) },
                ),
                ..old(self)@
            }),
    {
        let ghost pre = self@;
        let f = match self.page_table.get(page_id) {
            Some(m) => *m.frame_id(),
            None => 0,
        };
        assert(pre.entry_ok(*page_id));
        let mut slot = Page::create_invalid_page();
        self.pages.set_and_swap(f, &mut slot);
        slot.set_is_dirty(is_dirty);
        self.pages.set(f, slot);
        let ghost post = self@;
        assert(post.frames =~= pre.frames.update(
            f as int,
            PageView { is_dirty, ..pre.frames[f as int] },
        ));
        assert forall|q: PageId| #[trigger] post.resident(q) implies post.entry_ok(q) by {
            assert(pre.resident(q));
            assert(pre.entry_ok(q));
        }
        assert forall|g: int|
            0 <= g < pre.pool_size implies post.free_list.contains(g as FrameId)
            || #[trigger] post.holds(g) by {
            if !pre.free_list.contains(g as FrameId) {
                assert(pre.holds(g));
            }
        }
        assert forall|g: int|
            0 <= g < pre.pool_size && #[trigger] post.replacer.tracks(g) implies post.holds(g) by {
            assert(pre.replacer.tracks(g));
            assert(pre.holds(g));
        }
    }

    /// Drops one pin of a resident, pinned page and returns `true`; `false`
    /// (and no change) otherwise. A `true` `is_dirty` marks the page dirty; a
    /// `false` one leaves the flag as it is, so that changes made under an
    /// earlier pin are not lost. The last pin makes the frame evictable.
    pub fn unpin_page(&mut self, page_id: &PageId, is_dirty: bool) -> (r: bool)
        requires
            old(self).wf(),
        ensures
            final(self).wf(),
            old(self)@.unpin_page_post(*page_id, is_dirty, final(self)@, r),
    {
        let ghost pre = self@;
        let pid = *page_id;
        let meta = match self.page_table.get(page_id) {
            Some(m) => *m,
            None => return false,
        };
        if meta.pin_count() == 0 {
            return false;
        }
        assert(pre.resident(pid));
        assert(pre.entry_ok(pid));
        if is_dirty {
            self.set_is_dirty(page_id, true);
        }
        let ghost mid = self@;
        let mut m = meta;
        m.decrement_pin_count();
        let f = *m.frame_id();
        let should_evict = m.pin_count() == 0;
        self.page_table.insert(pid, m);
        if should_evict {
            self.replacer.set_evictable(&f, true);
        }
        let ghost post = self@;
        assert(post.page_table =~= pre.page_table.insert(
            pid,
            FrameMetadataView { frame_id: f, pin_count: (pre.pin_count(pid) - 1) as usize },
        ));
        assert forall|q: PageId| #[trigger] post.resident(q) implies post.entry_ok(q) by {
            if q != pid {
                assert(mid.resident(q));
                assert(mid.entry_ok(q));
            }
        }
        assert forall|g: int|
            0 <= g < pre.pool_size implies post.free_list.contains(g as FrameId)
            || #[trigger] post.holds(g) by {
            if !mid.free_list.contains(g as FrameId) {
                assert(mid.holds(g));
            }
        }
        assert forall|g: int|
            0 <= g < pre.pool_size && #[trigger] post.replacer.tracks(g) implies post.holds(g) by {
            assert(mid.replacer.tracks(g));
            assert(mid.holds(g));
        }
        true
    }
}

impl BufferPoolManager {
    /// Writes a resident page to disk, dirty or not, and marks it clean; pin
    /// count and residency are unchanged. A page that is not resident is left
    /// alone.
    pub fn flush_page(&mut self, page_id: &PageId)
        requires
            old(self).wf(),
        ensures
            final(self).wf(),
            old(self)@.flush_page_post(*page_id, final(self)@),
            old(self)@.resident(*page_id) ==> !final(self)@.image(*page_id).is_dirty
                && final(self)@.disk[*page_id] == old(self)@.image(*page_id).data,
            final(self)@.page_table == old(self)@.page_table,
            final(self)@.free_list == old(self)@.free_list,
            final(self)@.replacer == old(self)@.replacer,
    {
        let ghost pre = self@;
        let f = match self.page_table.get(page_id) {
            Some(m) => *m.frame_id(),
            None => return,
        };
        assert(pre.resident(*page_id));
        assert(pre.entry_ok(*page_id));
        self.disk_manager.write_page(&self.pages[f]);
        let mut slot = Page::create_invalid_page();
        self.pages.set_and_swap(f, &mut slot);
        slot.set_is_dirty(false);
        self.pages.set(f, slot);
        let ghost post = self@;
        assert(post.frames =~= pre.frames.update(
            f as int,
            PageView { is_dirty: false, ..pre.frames[f as int] },
        ));
        assert forall|q: PageId| #[trigger] post.resident(q) implies post.entry_ok(q) by {
            assert(pre.resident(q));
            assert(pre.entry_ok(q));
        }
        assert forall|g: int|
            0 <= g < pre.pool_size implies post.free_list.contains(g as FrameId)
            || #[trigger] post.holds(g) by {
            if !pre.free_list.contains(g as FrameId) {
                assert(pre.holds(g));
            }
        }
        assert forall|g: int|
            0 <= g < pre.pool_size && #[trigger] post.replacer.tracks(g) implies post.holds(g) by {
            assert(pre.replacer.tracks(g));
            assert(pre.holds(g));
        }
    }

    /// Flushes every resident page: afterwards each is clean and its disk
    /// image is its in-memory image; the page table, free list and replacer
    /// are unchanged, as are the disk images of the other pages.
    pub fn flush_all_pages(&mut self)
        requires
            old(self).wf(),
        ensures
            final(self).wf(),
            final(self)@.page_table == old(self)@.page_table,
            final(self)@.free_list == old(self)@.free_list,
            final(self)@.replacer == old(self)@.replacer,
            final(self)@.disk.dom() == old(self)@.disk.dom(),
            forall|pid: PageId| #[trigger]
                old(self)@.resident(pid) ==> final(self)@.image(pid) == (PageView {
                    is_dirty: false,
                    ..old(self)@.image(pid)
                }) && final(self)@.disk[pid] == old(self)@.image(pid).data,
            forall|pid: PageId|
                !old(self)@.resident(pid) && #[trigger] old(self)@.disk.contains_key(pid)
                    ==> final(self)@.disk[pid] == old(self)@.disk[pid],
    {
        let ghost pre = self@;
        let n = self.pool_size;
        let mut i: usize = 0;
        while i < n
            invariant
                self.wf(),
                n == pre.pool_size,
                n == self@.pool_size,
                i <= n,
                self@.page_table == pre.page_table,
                self@.free_list == pre.free_list,
                self@.replacer == pre.replacer,
                self@.frames.len() == pre.frames.len(),
                self@.disk.dom() == pre.disk.dom(),
                forall|g: int|
                    0 <= g < n ==> (#[trigger] self@.frames[g]).page_id == pre.frames[g].page_id
                        && self@.frames[g].data == pre.frames[g].data,
                forall|pid: PageId| #[trigger]
                    pre.resident(pid) ==> if pre.frame_of(pid) < i {
                        &&& !self@.image(pid).is_dirty
                        &&& self@.disk[pid] == pre.image(pid).data
                    } else {
                        self@.image(pid) == pre.image(pid)
                    },
                forall|pid: PageId|
                    !pre.resident(pid) && #[trigger] pre.disk.contains_key(pid) ==> self@.disk[pid]
                        == pre.disk[pid],
            decreases n - i,
        {
            let pid = self.pages[i].page_id();
            let resident_here = match self.page_table.get(&pid) {
                Some(m) => *m.frame_id() == i,
                None => false,
            };
            if resident_here {
                let ghost before = self@;
                assert(before.resident(pid));
                assert(before.entry_ok(pid));
                self.flush_page(&pid);
                let ghost after = self@;
                assert forall|q: PageId| #[trigger] pre.resident(q) implies if pre.frame_of(q) < i
                    + 1 {
                    &&& !after.image(q).is_dirty
                    &&& after.disk[q] == pre.image(q).data
                } else {
                    after.image(q) == pre.image(q)
                } by {
                    assert(before.resident(q));
                    assert(before.entry_ok(q));
                    if q != pid {
                        assert(before.frame_of(q) != i);
                    }
                }
            } else {
                assert forall|q: PageId| #[trigger] pre.resident(q) implies pre.frame_of(q) != i by {
                    assert(self@.resident(q));
                    assert(self@.entry_ok(q));
                }
            }
            i += 1;
        }
    }

    /// Removes an unpinned resident page from the pool and frees it on disk,
    /// returning `true`; its frame goes to the back of the free list. A
    /// pinned page, or one that is not resident, is left alone and `false`
    /// is returned.
    pub fn delete_page(&mut self, page_id: PageId) -> (r: bool)
        requires
            old(self).wf(),
        ensures
            final(self).wf(),
            r == (old(self)@.resident(page_id) && old(self)@.pin_count(page_id) == 0),
            r ==> final(self)@ == (PoolView {
                page_table: old(self)@.page_table.remove(page_id),
                frames: old(self)@.frames.update(
                    old(self)@.frame_of(page_id),
                    Page::invalid_view(),
                ),
                free_list: old(self)@.free_list.push(old(self)@.frame_of(page_id) as FrameId),
                replacer: old(self)@.replacer.removed(old(self)@.frame_of(page_id)),
                disk: old(self)@.disk.remove(page_id),
                ..old(self)@
            }),
            !r ==> final(self)@ == old(self)@,
    {
        let ghost pre = self@;
        let meta = match self.page_table.get(&page_id) {
            Some(m) => *m,
            None => return false,
        };
        if meta.pin_count() > 0 {
            return false;
        }
        assert(pre.resident(page_id));
        assert(pre.entry_ok(page_id));
        let f = *meta.frame_id();
        self.page_table.remove(&page_id);
        self.pages.set(f, Page::create_invalid_page());
        self.free_list.push_back(f);
        self.replacer.remove(&f);
        self.disk_manager.deallocate_page(&page_id);
        let ghost post = self@;
        assert(post.page_table =~= pre.page_table.remove(page_id));
        assert(post.frames =~= pre.frames.update(f as int, Page::invalid_view()));
        assert forall|q: PageId| #[trigger] post.resident(q) implies post.entry_ok(q) by {
            assert(pre.resident(q));
            assert(pre.entry_ok(q));
            assert(q != page_id);
            assert(pre.frame_of(q) != f);
        }
        assert forall|g: int|
            0 <= g < pre.pool_size implies post.free_list.contains(g as FrameId)
            || #[trigger] post.holds(g) by {
            if g == f {
                assert(post.free_list[post.free_list.len() - 1] == f);
            } else if pre.free_list.contains(g as FrameId) {
                let i = choose|i: int|
                    0 <= i < pre.free_list.len() && pre.free_list[i] == g as FrameId;
                assert(post.free_list[i] == g as FrameId);
            } else {
                assert(pre.holds(g));
            }
        }
        assert forall|g: int|
            0 <= g < pre.pool_size && #[trigger] post.replacer.tracks(g) implies post.holds(g) by {
            assert(pre.replacer.tracks(g));
            assert(pre.holds(g));
        }
        assert forall|i: int| 0 <= i < post.free_list.len() implies #[trigger] post.free_list[i]
            < post.pool_size && post.free_list[i] != -1int by {
            if i < pre.free_list.len() {
                assert(post.free_list[i] == pre.free_list[i]);
            }
        }
        assert(post.free_list.no_duplicates()) by {
            assert forall|a: int, b: int|
                0 <= a < b < post.free_list.len() implies post.free_list[a] != post.free_list[b] by {
                if b == pre.free_list.len() {
                    assert(pre.free_list[a] == post.free_list[a]);
                    assert(!pre.free_list.contains(f));
                }
            }
        }
        true
    }

    /// Replaces the bytes of a resident, pinned page and marks it dirty,
    /// returning `true`; `false` (and no change) when the page is not
    /// resident, not pinned, or `data` is not `PAGE_SIZE` bytes long.
    pub fn write_page_data(&mut self, page_id: &PageId, data: Vec<u8>) -> (r: bool)
        requires
            old(self).wf(),
        ensures
            final(self).wf(),
            r == (old(self)@.resident(*page_id) && old(self)@.pin_count(*page_id) > 0
                && data@.len() == crate::page::PAGE_SIZE),
            r ==> final(self)@ == (PoolView {
                frames: old(self)@.frames.update(
                    old(self)@.frame_of(*page_id),
                    PageView { data: data@, is_dirty: true, ..old(self)@.image(*page_id) },
                ),
                ..old(self)@
            }),
            !r ==> final(self)@ == old(self)@,
    {
        let ghost pre = self@;
        let meta = match self.page_table.get(page_id) {
            Some(m) => *m,
            None => return false,
        };
        if meta.pin_count() == 0 || data.len() != crate::page::PAGE_SIZE {
            return false;
        }
        assert(pre.resident(*page_id));
        assert(pre.entry_ok(*page_id));
        let f = *meta.frame_id();
        let ghost dv = data@;
        let mut slot = Page::create_invalid_page();
        self.pages.set_and_swap(f, &mut slot);
        slot.set_data(data);
        slot.set_is_dirty(true);
        self.pages.set(f, slot);
        let ghost post = self@;
        assert(post.frames =~= pre.frames.update(
            f as int,
            PageView { data: dv, is_dirty: true, ..pre.frames[f as int] },
        ));
        assert forall|q: PageId| #[trigger] post.resident(q) implies post.entry_ok(q) by {
            assert(pre.resident(q));
            assert(pre.entry_ok(q));
        }
        assert forall|g: int|
            0 <= g < pre.pool_size implies post.free_list.contains(g as FrameId)
            || #[trigger] post.holds(g) by {
            if !pre.free_list.contains(g as FrameId) {
                assert(pre.holds(g));
            }
        }
        assert forall|g: int|
            0 <= g < pre.pool_size && #[trigger] post.replacer.tracks(g) implies post.holds(g) by {
            assert(pre.replacer.tracks(g));
            assert(pre.holds(g));
        }
        true
    }

    /// Number of frames in the pool.
    pub fn size(&self) -> (r: usize)
        requires
            self.wf(),
        ensures
            r == self@.pool_size,
    {
        self.pool_size
    }

    /// Dirty flag of a resident page.
    pub fn get_is_dirty(&self, page_id: &PageId) -> (r: bool)
        requires
            self.wf(),
            self@.resident(*page_id),
        ensures
            r == self@.image(*page_id).is_dirty,
    {
        let f = match self.page_table.get(page_id) {
            Some(m) => *m.frame_id(),
            None => 0,
        };
        assert(self@.entry_ok(*page_id));
        self.pages[f].is_dirty()
    }

    /// Pin count of a page, `None` when it is not resident.
    pub fn get_pin_count(&self, page_id: &PageId) -> (r: Option<usize>)
        requires
            self.wf(),
        ensures
            r == if self@.resident(*page_id) {
                Some(self@.pin_count(*page_id) as usize)
            } else {
                None::<usize>
            },
    {
        match self.page_table.get(page_id) {
            Some(m) => Some(m.pin_count()),
            None => None,
        }
    }
}

/// Builder for [`BufferPoolManager`].
pub struct BufferPoolManagerBuilder {
    pub pool_size: Option<usize>,
    pub replacer_k: Option<usize>,
    pub disk_manager: Option<DiskManager>,
}

impl BufferPoolManagerBuilder {
    pub fn pool_size(self, pool_size: usize) -> (r: Self)
        ensures
            r == (BufferPoolManagerBuilder { pool_size: Some(pool_size), ..self }),
    {
        BufferPoolManagerBuilder { pool_size: Some(pool_size), ..self }
    }

    pub fn replacer_k(self, replacer_k: usize) -> (r: Self)
        ensures
            r == (BufferPoolManagerBuilder { replacer_k: Some(replacer_k), ..self }),
    {
        BufferPoolManagerBuilder { replacer_k: Some(replacer_k), ..self }
    }

    pub fn disk_manager(self, disk_manager: DiskManager) -> (r: Self)
        ensures
            r == (BufferPoolManagerBuilder { disk_manager: Some(disk_manager), ..self }),
    {
        BufferPoolManagerBuilder { disk_manager: Some(disk_manager), ..self }
    }

    /// Builds the pool; every setting must have been given.
    pub fn build(self) -> (r: BufferPoolManager)
        requires
            self.pool_size is Some,
            self.replacer_k is Some,
            self.replacer_k->Some_0 >= 1,
            self.disk_manager is Some,
        ensures
            r.wf(),
            r@.pool_size == self.pool_size->Some_0,
            r@.page_table.is_empty(),
            r@.free_list == Seq::new(r@.pool_size, |i: int| i as FrameId),
            r@.disk == self.disk_manager->Some_0@,
            r@.replacer.now == 0,
            r@.replacer.k == self.replacer_k->Some_0,
    {
        match (self.pool_size, self.replacer_k, self.disk_manager) {
            (Some(n), Some(k), Some(d)) => BufferPoolManager::new(n, k, d),
            (_, _, _) => BufferPoolManager::new(0, 1, DiskManager::new()),
        }
    }
}

} // verus!
