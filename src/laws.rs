use vstd::prelude::*;
use crate::buffer_pool::{FrameMetadataView, PoolView};
use crate::page::{PageId, PageView};
use crate::replacer::{evictable_count, FrameId};

verus! {

/// Number of frames below `n` that hold a resident page with no pins.
pub open spec fn unpinned_frames(v: PoolView, n: int) -> nat
    decreases n,
{
    if n <= 0 {
        0
    } else {
        unpinned_frames(v, n - 1) + if v.holds(n - 1) && v.page_table[v.frames[n
            - 1].page_id].pin_count == 0 {
            1nat
        } else {
            0nat
        }
    }
}

/// Every frame is accounted for once: the resident pages and the free frames
/// together number exactly the pool's frames.
pub proof fn lemma_pool_accounting(v: PoolView)
    requires
        v.inv(),
    ensures
        v.page_table.len() + v.free_list.len() == v.pool_size,
{
}

/// No resident page sits in a frame that is also on the free list.
pub proof fn lemma_free_frames_unused(v: PoolView, pid: PageId)
    requires
        v.inv(),
        v.resident(pid),
    ensures
        !v.free_list.contains(v.frame_of(pid) as FrameId),
{
    assert(v.entry_ok(pid));
}

/// A resident page's frame is evictable in the replacer exactly when the page
/// has no pins.
pub proof fn lemma_pins_match_evictability(v: PoolView, pid: PageId)
    requires
        v.inv(),
        v.resident(pid),
    ensures
        v.pin_count(pid) >= 0,
        v.pin_count(pid) > 0 ==> !v.replacer.is_evictable(v.frame_of(pid)),
        v.pin_count(pid) == 0 ==> v.replacer.is_evictable(v.frame_of(pid)),
{
    assert(v.entry_ok(pid));
}

proof fn lemma_count_prefix(v: PoolView, n: int)
    requires
        v.inv(),
        0 <= n <= v.pool_size,
    ensures
        evictable_count(v.replacer.nodes.subrange(0, n)) == unpinned_frames(v, n),
    decreases n,
{
    if n > 0 {
        lemma_count_prefix(v, n - 1);
        let s = v.replacer.nodes.subrange(0, n);
        assert(s.drop_last() =~= v.replacer.nodes.subrange(0, n - 1));
        let f = n - 1;
        if v.holds(f) {
            assert(v.resident(v.frames[f].page_id));
            assert(v.entry_ok(v.frames[f].page_id));
        } else if v.replacer.tracks(f) {
            assert(v.holds(f));
        }
    }
}

/// Resident pages with no pins whose frame lies below `n`.
pub open spec fn unpinned_pages_below(v: PoolView, n: int) -> Set<PageId> {
    v.page_table.dom().filter(|pid: PageId| v.pin_count(pid) == 0 && v.frame_of(pid) < n)
}

/// Resident pages with no pins.
pub open spec fn unpinned_pages(v: PoolView) -> Set<PageId> {
    v.page_table.dom().filter(|pid: PageId| v.pin_count(pid) == 0)
}

proof fn lemma_unpinned_pages_below(v: PoolView, n: int)
    requires
        v.inv(),
        0 <= n <= v.pool_size,
    ensures
        unpinned_pages_below(v, n).finite(),
        unpinned_pages_below(v, n).len() == unpinned_frames(v, n),
    decreases n,
{
    let b = unpinned_pages_below(v, n);
    if n == 0 {
        assert(b =~= Set::<PageId>::empty());
    } else {
        lemma_unpinned_pages_below(v, n - 1);
        let a = unpinned_pages_below(v, n - 1);
        let p = v.frames[n - 1].page_id;
        if v.holds(n - 1) && v.page_table[p].pin_count == 0 {
            assert(b =~= a.insert(p)) by {
                assert forall|q: PageId| b.contains(q) implies a.insert(p).contains(q) by {
                    assert(v.resident(q));
                    assert(v.entry_ok(q));
                }
            }
            assert(!a.contains(p));
        } else {
            assert(b =~= a) by {
                assert forall|q: PageId| b.contains(q) implies a.contains(q) by {
                    assert(v.resident(q));
                    assert(v.entry_ok(q));
                }
            }
        }
    }
}

/// The replacer's size is the number of resident pages with no pins.
pub proof fn lemma_replacer_size_counts_unpinned(v: PoolView)
    requires
        v.inv(),
    ensures
        v.replacer.size() == unpinned_pages(v).len(),
{
    lemma_count_prefix(v, v.pool_size as int);
    assert(v.replacer.nodes.subrange(0, v.pool_size as int) =~= v.replacer.nodes);
    lemma_unpinned_pages_below(v, v.pool_size as int);
    assert(unpinned_pages_below(v, v.pool_size as int) =~= unpinned_pages(v)) by {
        assert forall|q: PageId| #[trigger] unpinned_pages(v).contains(q) implies unpinned_pages_below(
            v,
            v.pool_size as int,
        ).contains(q) by {
            assert(v.resident(q));
            assert(v.entry_ok(q));
        }
    }
}

/// The replacer's clock never goes back: `new_page` and `fetch_page` that
/// succeed advance it by one, every other outcome of the pool's operations
/// leaves it as it was.
pub proof fn lemma_clock_monotonic(
    pre: PoolView,
    post: PoolView,
    pid: PageId,
    is_dirty: bool,
    created: Option<PageId>,
    fetched: Option<PageView>,
    unpinned: bool,
)
    requires
        pre.new_page_post(post, created) || pre.fetch_page_post(pid, post, fetched)
            || pre.unpin_page_post(pid, is_dirty, post, unpinned) || pre.flush_page_post(
            pid,
            post,
        ),
    ensures
        pre.replacer.now <= post.replacer.now,
        pre.new_page_post(post, created) && created is Some ==> post.replacer.now
            == pre.replacer.now + 1,
        pre.fetch_page_post(pid, post, fetched) && fetched is Some ==> post.replacer.now
            == pre.replacer.now + 1,
{
    if pre.new_page_post(post, created) && created is Some {
        let (f, mid) = choose|f: FrameId, mid: PoolView|
            #[trigger] pre.victim_step(mid, f) && !mid.disk.contains_key(created->Some_0) && post
                == (PoolView { disk: mid.disk.insert(created->Some_0, crate::page::zero_image()), ..mid }).installed(
                f,
                PageView { page_id: created->Some_0, data: crate::page::zero_image(), is_dirty: false },
            );
        assert(mid.replacer.now == pre.replacer.now);
    }
    if pre.fetch_page_post(pid, post, fetched) && fetched is Some && !pre.resident(pid) {
        let (f, mid) = choose|f: FrameId, mid: PoolView|
            #[trigger] pre.victim_step(mid, f) && fetched->Some_0 == (PageView {
                page_id: pid,
                data: mid.disk[pid],
                is_dirty: false,
            }) && post == mid.installed(f, fetched->Some_0);
        assert(mid.replacer.now == pre.replacer.now);
    }
}

/// Fetching a page and then unpinning it clean leaves its pin count as it
/// was: unchanged for a page that was resident, zero for one brought in.
/// (A pinned page's count must have room for one more pin, as `fetch_page`
/// asks.) When the fetch finds every frame pinned, the unpin fails and nothing
/// changes.
pub proof fn lemma_fetch_then_unpin_keeps_pin(
    pre: PoolView,
    between: PoolView,
    post: PoolView,
    pid: PageId,
    fetched: Option<PageView>,
    unpinned: bool,
)
    requires
        pre.resident(pid) ==> pre.pin_count(pid) < usize::MAX,
        pre.fetch_page_post(pid, between, fetched),
        between.unpin_page_post(pid, false, post, unpinned),
    ensures
        fetched is Some ==> unpinned && post.resident(pid) && post.pin_count(pid) == if pre.resident(
            pid,
        ) {
            pre.pin_count(pid)
        } else {
            0
        },
        fetched is None ==> !unpinned && post == pre,
{
    if fetched is Some && !pre.resident(pid) {
        let (f, mid) = choose|f: FrameId, mid: PoolView|
            #[trigger] pre.victim_step(mid, f) && fetched->Some_0 == (PageView {
                page_id: pid,
                data: mid.disk[pid],
                is_dirty: false,
            }) && between == mid.installed(f, fetched->Some_0);
        assert(between.page_table[pid] == FrameMetadataView { frame_id: f, pin_count: 1 });
    }
}

/// A page pushed out of the pool by `new_page` and then fetched again comes
/// back with the bytes it held in memory when it was evicted: a dirty page
/// was written back first, and a clean one already matched its disk image.
pub proof fn lemma_evicted_page_refetch(
    pre: PoolView,
    between: PoolView,
    post: PoolView,
    q: PageId,
    created: Option<PageId>,
    fetched: Option<PageView>,
)
    requires
        pre.inv(),
        pre.resident(q),
        pre.new_page_post(between, created),
        between.inv(),
        !between.resident(q),
        between.fetch_page_post(q, post, fetched),
        fetched is Some,
    ensures
        fetched->Some_0.data == pre.image(q).data,
{
    assert(created is Some);
    let np = created->Some_0;
    let (f, mid) = choose|f: FrameId, mid: PoolView|
        #[trigger] pre.victim_step(mid, f) && !mid.disk.contains_key(np) && between == (PoolView {
            disk: mid.disk.insert(np, crate::page::zero_image()),
            ..mid
        }).installed(f, PageView { page_id: np, data: crate::page::zero_image(), is_dirty: false });
    assert(pre.entry_ok(q));
    if pre.free_list.len() > 0 {
        assert(between.page_table.contains_key(q));
    } else {
        let q0 = pre.frames[f as int].page_id;
        assert(pre.replacer.tracks(f as int));
        assert(pre.holds(f as int));
        if q0 != q {
            assert(mid.page_table.contains_key(q));
            assert(between.page_table.contains_key(q));
        }
        assert(mid.disk[q] == pre.image(q).data);
        assert(between.disk[q] == pre.image(q).data);
    }
    let (f2, mid2) = choose|f2: FrameId, mid2: PoolView|
        #[trigger] between.victim_step(mid2, f2) && fetched->Some_0 == (PageView {
            page_id: q,
            data: mid2.disk[q],
            is_dirty: false,
        }) && post == mid2.installed(f2, fetched->Some_0);
    if between.free_list.len() == 0 {
        let q2 = between.frames[f2 as int].page_id;
        assert(between.replacer.tracks(f2 as int));
        assert(between.holds(f2 as int));
        assert(q2 != q);
    }
}

} // verus!
