use vstd::prelude::*;

verus! {

/// Index of a slot in the buffer pool's page array.
pub type FrameId = usize;

/// Kind of access recorded against a frame; kept for future policies, all
/// kinds are treated alike today.
#[derive(Clone, Copy, Debug, PartialEq, Eq, Hash, Structural)]
pub enum AccessType {
    Unknown,
    Lookup,
    Scan,
    Index,
}

/// Abstract state of one tracked frame: its recent access timestamps, oldest
/// first, and whether it may be chosen as a victim.
pub ghost struct NodeView {
    pub history: Seq<usize>,
    pub evictable: bool,
}

/// Abstract state of the replacer: one optional node per frame, the logical
/// clock and the `k` of LRU-K.
pub ghost struct ReplacerView {
    pub nodes: Seq<Option<NodeView>>,
    pub now: int,
    pub k: int,
}

/// Number of evictable nodes in `nodes`.
pub open spec fn evictable_count(nodes: Seq<Option<NodeView>>) -> nat
    decreases nodes.len(),
{
    if nodes.len() == 0 {
        0
    } else {
        evictable_count(nodes.drop_last()) + match nodes.last() {
            Some(n) => if n.evictable { 1nat } else { 0nat },
            None => 0nat,
        }
    }
}

/// The history after recording an access at time `t`, keeping at most `k`
/// timestamps.
pub open spec fn push_bounded(h: Seq<usize>, t: usize, k: int) -> Seq<usize> {
    if h.len() >= k {
        h.subrange(1, h.len() as int).push(t)
    } else {
        h.push(t)
    }
}

/// Distance from `now` back to the k-th most recent timestamp of `history`
/// (saturating at 0); `history` must hold at least `k` timestamps.
pub open spec fn backward_k_distance(history: Seq<usize>, k: int, now: int) -> int {
    let kth = history[history.len() - k] as int;
    if now >= kth {
        now - kth
    } else {
        0
    }
}

impl ReplacerView {
    pub open spec fn max_size(self) -> int {
        self.nodes.len() as int
    }

    pub open spec fn tracks(self, f: int) -> bool {
        0 <= f < self.nodes.len() && self.nodes[f] is Some
    }

    pub open spec fn is_evictable(self, f: int) -> bool {
        self.tracks(f) && self.nodes[f]->Some_0.evictable
    }

    /// Number of evictable frames.
    pub open spec fn size(self) -> nat {
        evictable_count(self.nodes)
    }

    /// Fewer than `k` accesses: the backward k-distance is infinite.
    pub open spec fn infinite(self, n: NodeView) -> bool {
        n.history.len() < self.k
    }

    /// The oldest recorded access, or the largest timestamp for an empty
    /// history.
    pub open spec fn oldest_access(n: NodeView) -> int {
        if n.history.len() > 0 {
            n.history[0] as int
        } else {
            usize::MAX as int
        }
    }

    /// Distance from now back to the k-th most recent access.
    pub open spec fn k_distance(self, n: NodeView) -> int {
        backward_k_distance(n.history, self.k, self.now)
    }

    /// `a` is at least as good a victim as `b`: infinite distance beats finite
    /// distance; among infinite ones the older first access wins; among finite
    /// ones the larger backward k-distance wins.
    pub open spec fn prefers(self, a: NodeView, b: NodeView) -> bool {
        if self.infinite(a) {
            !self.infinite(b) || Self::oldest_access(a) <= Self::oldest_access(b)
        } else {
            !self.infinite(b) && self.k_distance(a) >= self.k_distance(b)
        }
    }

    /// Frame `f` is evictable and at least as good a victim as every other
    /// evictable frame.
    pub open spec fn is_victim(self, f: int) -> bool {
        &&& self.is_evictable(f)
        &&& forall|g: int|
            #![trigger self.nodes[g]]
            self.is_evictable(g) ==> self.prefers(self.nodes[f]->Some_0, self.nodes[g]->Some_0)
    }

    pub open spec fn has_evictable(self) -> bool {
        exists|g: int| self.is_evictable(g)
    }
}

/// Per-frame access history for LRU-K.
pub struct LRUKNode {
    /// Last seen (at most k) timestamps of this frame, oldest first.
    pub(crate) history: Vec<usize>,
    pub(crate) k: usize,
    pub(crate) is_evictable: bool,
}

impl View for LRUKNode {
    type V = NodeView;

    closed spec fn view(&self) -> NodeView {
        NodeView { history: self.history@, evictable: self.is_evictable }
    }
}

impl LRUKNode {
    fn new(k: usize) -> (r: Self)
        ensures
            r@.history.len() == 0,
            !r@.evictable,
            r.k == k,
    {
        Self { history: Vec::with_capacity(k), k, is_evictable: false }
    }

    /// The distance from `current_timestamp` back to the k-th most recent
    /// access, or `usize::MAX` when fewer than k accesses were recorded.
    pub(crate) fn get_backwards_k_distance(&self, current_timestamp: usize) -> (r: usize)
        requires
            self.k >= 1,
        ensures
            self.history@.len() < self.k ==> r == usize::MAX,
            self.history@.len() >= self.k ==> r == backward_k_distance(
                self.history@,
                self.k as int,
                current_timestamp as int,
            ),
    {
        if self.history.len() < self.k {
            return usize::MAX;
        }
        let kth = self.history[self.history.len() - self.k];
        if current_timestamp >= kth {
            current_timestamp - kth
        } else {
            0
        }
    }

    pub(crate) fn has_infinite_backwards_k_distance(&self) -> (r: bool)
        ensures
            r == (self.history@.len() < self.k),
    {
        self.history.len() < self.k
    }
}


impl ReplacerView {
    /// The state after an access to frame `f` at the current time.
    pub open spec fn recorded(self, f: int) -> ReplacerView {
        let (h, e) = match self.nodes[f] {
            Some(n) => (n.history, n.evictable),
            None => (Seq::<usize>::empty(), false),
        };
        ReplacerView {
            nodes: self.nodes.update(f, Some(NodeView { history: push_bounded(h, self.now as usize, self.k), evictable: e })),
            now: self.now + 1,
            k: self.k,
        }
    }

    /// The state after setting the evictable flag of frame `f`; untracked
    /// frames are left alone.
    pub open spec fn with_evictable(self, f: int, evictable: bool) -> ReplacerView {
        if self.tracks(f) {
            ReplacerView {
                nodes: self.nodes.update(f, Some(NodeView { evictable, ..self.nodes[f]->Some_0 })),
                ..self
            }
        } else {
            self
        }
    }

    /// The state after dropping frame `f` and its history.
    pub open spec fn removed(self, f: int) -> ReplacerView {
        ReplacerView { nodes: self.nodes.update(f, None), ..self }
    }
}

proof fn lemma_count_bound(nodes: Seq<Option<NodeView>>)
    ensures
        evictable_count(nodes) <= nodes.len(),
    decreases nodes.len(),
{
    if nodes.len() > 0 {
        lemma_count_bound(nodes.drop_last());
    }
}

proof fn lemma_count_none(nodes: Seq<Option<NodeView>>)
    requires
        forall|i: int| 0 <= i < nodes.len() ==> nodes[i] is None,
    ensures
        evictable_count(nodes) == 0,
    decreases nodes.len(),
{
    if nodes.len() > 0 {
        lemma_count_none(nodes.drop_last());
    }
}

pub open spec fn evictable_flag(o: Option<NodeView>) -> int {
    match o {
        Some(n) => if n.evictable { 1int } else { 0int },
        None => 0int,
    }
}

proof fn lemma_count_update(nodes: Seq<Option<NodeView>>, i: int, x: Option<NodeView>)
    requires
        0 <= i < nodes.len(),
    ensures
        evictable_count(nodes.update(i, x)) == evictable_count(nodes) - evictable_flag(nodes[i])
            + evictable_flag(x),
    decreases nodes.len(),
{
    let u = nodes.update(i, x);
    if i == nodes.len() - 1 {
        assert(u.drop_last() =~= nodes.drop_last());
    } else {
        lemma_count_update(nodes.drop_last(), i, x);
        assert(u.drop_last() =~= nodes.drop_last().update(i, x));
    }
}

/// LRU-K replacement policy over the frames `0..max_size`.
pub struct LRUKReplacer {
    pub(crate) node_store: Vec<Option<LRUKNode>>,
    pub(crate) current_timestamp: usize,
    /// Number of evictable frames; not the number of tracked frames.
    pub(crate) curr_size: usize,
    pub(crate) max_size: usize,
    pub(crate) k: usize,
}

pub open spec fn node_view(o: Option<LRUKNode>) -> Option<NodeView> {
    match o {
        Some(n) => Some(n@),
        None => None,
    }
}

impl View for LRUKReplacer {
    type V = ReplacerView;

    closed spec fn view(&self) -> ReplacerView {
        ReplacerView {
            nodes: self.node_store@.map_values(|o: Option<LRUKNode>| node_view(o)),
            now: self.current_timestamp as int,
            k: self.k as int,
        }
    }
}

impl LRUKReplacer {
    /// Internal consistency: one slot per frame, every node's history holds
    /// between one and `k` timestamps, and `curr_size` counts the evictable
    /// nodes.
    pub closed spec fn wf(&self) -> bool {
        &&& self.node_store@.len() == self.max_size
        &&& self.k >= 1
        &&& self.curr_size == self@.size()
        &&& forall|f: int|
            #![trigger self.node_store@[f]]
            0 <= f < self.node_store@.len() && self.node_store@[f] is Some ==> {
                let n = self.node_store@[f]->Some_0;
                &&& n.k == self.k
                &&& 1 <= n.history@.len() <= self.k
            }
    }

    pub fn new(num_frames: usize, k: usize) -> (r: Self)
        requires
            k >= 1,
        ensures
            r.wf(),
            r@.nodes.len() == num_frames,
            forall|f: int| 0 <= f < num_frames ==> r@.nodes[f] is None,
            r@.now == 0,
            r@.k == k,
    {
        let mut node_store: Vec<Option<LRUKNode>> = Vec::with_capacity(num_frames);
        let mut i: usize = 0;
        while i < num_frames
            invariant
                i <= num_frames,
                node_store@.len() == i,
                forall|f: int| 0 <= f < i ==> node_store@[f] is None,
            decreases num_frames - i,
        {
            node_store.push(None);
            i += 1;
        }
        let r = Self { node_store, current_timestamp: 0, curr_size: 0, max_size: num_frames, k };
        proof {
            lemma_count_none(r@.nodes);
        }
        r
    }

    pub fn builder() -> (r: LRUKReplacerBuilder)
        ensures
            r@ == (None::<usize>, None::<usize>),
    {
        LRUKReplacerBuilder { max_size: None, k: None }
    }

    /// `a` is a strictly better victim than `b`.
    fn better_victim(&self, a: &LRUKNode, b: &LRUKNode) -> (r: bool)
        requires
            self.wf(),
            a.k == self.k,
            b.k == self.k,
        ensures
            r == !self@.prefers(b@, a@),
    {
        let now = self.current_timestamp;
        if a.has_infinite_backwards_k_distance() {
            if b.has_infinite_backwards_k_distance() {
                let fa = if a.history.len() > 0 { a.history[0] } else { usize::MAX };
                let fb = if b.history.len() > 0 { b.history[0] } else { usize::MAX };
                fa < fb
            } else {
                true
            }
        } else if b.has_infinite_backwards_k_distance() {
            false
        } else {
            a.get_backwards_k_distance(now) > b.get_backwards_k_distance(now)
        }
    }

    /// Evicts the frame with the largest backward k-distance: frames with
    /// fewer than k accesses (infinite distance) go first, the one with the
    /// oldest first access among them; otherwise the one whose k-th most
    /// recent access is oldest.
    pub fn evict(&mut self) -> (r: Option<FrameId>)
        requires
            old(self).wf(),
        ensures
            final(self).wf(),
            match r {
                None => !old(self)@.has_evictable() && final(self)@ == old(self)@,
                Some(f) => {
                    &&& old(self)@.is_victim(f as int)
                    &&& final(self)@ == old(self)@.removed(f as int)
                },
            },
    {
        let n = self.node_store.len();
        let mut victim: Option<usize> = None;
        let mut i: usize = 0;
        while i < n
            invariant
                self.wf(),
                n == self.node_store@.len(),
                i <= n,
                match victim {
                    None => forall|g: int| 0 <= g < i ==> !self@.is_evictable(g),
                    Some(v) => {
                        &&& v < i
                        &&& self@.is_evictable(v as int)
                        &&& forall|g: int|
                            #![trigger self@.nodes[g]]
                            0 <= g < i && self@.is_evictable(g) ==> self@.prefers(
                                self@.nodes[v as int]->Some_0,
                                self@.nodes[g]->Some_0,
                            )
                    },
                },
            decreases n - i,
        {
            if let Some(node) = &self.node_store[i] {
                if node.is_evictable {
                    let take = match victim {
                        None => true,
                        Some(v) => {
                            match &self.node_store[v] {
                                Some(cur) => self.better_victim(node, cur),
                                None => false,
                            }
                        },
                    };
                    assert(self@.nodes[i as int] == node_view(self.node_store@[i as int]));
                    if take {
                        victim = Some(i);
                    }
                }
            }
            i += 1;
        }
        match victim {
            None => {
                assert(!self@.has_evictable());
                None
            },
            Some(v) => {
                let ghost pre = self@;
                proof {
                    lemma_count_update(self@.nodes, v as int, None);
                }
                self.node_store.set(v, None);
                self.curr_size = self.curr_size - 1;
                assert(self@.nodes =~= pre.nodes.update(v as int, None));
                Some(v)
            },
        }
    }
}

impl LRUKReplacer {
    /// Records an access to `frame_id` at the current timestamp, keeping the
    /// last `k` timestamps, and advances the clock.
    pub fn record_access(&mut self, frame_id: &FrameId, access_type: AccessType)
        requires
            old(self).wf(),
            *frame_id < old(self)@.max_size(),
            old(self)@.now < usize::MAX,
        ensures
            final(self).wf(),
            final(self)@ == old(self)@.recorded(*frame_id as int),
    {
        let f = *frame_id;
        let ts = self.current_timestamp;
        let k = self.k;
        let ghost pre = self@;
        let mut slot: Option<LRUKNode> = None;
        self.node_store.set_and_swap(f, &mut slot);
        let mut node = match slot {
            Some(n) => n,
            None => LRUKNode::new(k),
        };
        assert(node@.history == match pre.nodes[f as int] {
            Some(n) => n.history,
            None => Seq::<usize>::empty(),
        });
        if node.history.len() == k {
            node.history.remove(0);
        }
        node.history.push(ts);
        assert(node@.history =~= push_bounded(
            match pre.nodes[f as int] {
                Some(n) => n.history,
                None => Seq::<usize>::empty(),
            },
            ts,
            k as int,
        ));
        proof {
            lemma_count_update(pre.nodes, f as int, Some(node@));
        }
        self.node_store.set(f, Some(node));
        self.current_timestamp = ts + 1;
        assert(self@.nodes =~= pre.recorded(f as int).nodes);
    }

    /// Marks `frame_id` evictable or not; a frame the replacer does not track
    /// is left alone.
    pub fn set_evictable(&mut self, frame_id: &FrameId, set_evictable: bool)
        requires
            old(self).wf(),
            *frame_id < old(self)@.max_size(),
        ensures
            final(self).wf(),
            final(self)@ == old(self)@.with_evictable(*frame_id as int, set_evictable),
    {
        let f = *frame_id;
        let ghost pre = self@;
        let mut slot: Option<LRUKNode> = None;
        self.node_store.set_and_swap(f, &mut slot);
        match slot {
            Some(mut node) => {
                proof {
                    let up = Some(NodeView { evictable: true, ..node@ });
                    lemma_count_update(pre.nodes, f as int, up);
                    lemma_count_bound(pre.nodes.update(f as int, up));
                    lemma_count_update(pre.nodes, f as int, None);
                }
                if node.is_evictable != set_evictable {
                    if set_evictable {
                        self.increment_current_size();
                    } else {
                        self.decrement_current_size();
                    }
                    node.is_evictable = set_evictable;
                }
                proof {
                    lemma_count_update(pre.nodes, f as int, Some(node@));
                }
                self.node_store.set(f, Some(node));
                assert(self@.nodes =~= pre.with_evictable(f as int, set_evictable).nodes);
            },
            None => {
                self.node_store.set(f, None);
                assert(self@.nodes =~= pre.nodes);
            },
        }
    }

    /// Drops an evictable frame and its history; an untracked frame is left
    /// alone. The frame must not be pinned (non-evictable).
    pub fn remove(&mut self, frame_id: &FrameId)
        requires
            old(self).wf(),
            old(self)@.tracks(*frame_id as int) ==> old(self)@.is_evictable(*frame_id as int),
        ensures
            final(self).wf(),
            final(self)@ == if old(self)@.tracks(*frame_id as int) {
                old(self)@.removed(*frame_id as int)
            } else {
                old(self)@
            },
    {
        let f = *frame_id;
        let ghost pre = self@;
        if f < self.node_store.len() && self.node_store[f].is_some() {
            proof {
                lemma_count_update(pre.nodes, f as int, None);
            }
            self.node_store.set(f, None);
            self.decrement_current_size();
            assert(self@.nodes =~= pre.removed(f as int).nodes);
        }
    }

    /// Every frame is evictable.
    pub(crate) fn is_full_capacity(&self) -> (r: bool)
        requires
            self.wf(),
        ensures
            r == (self@.size() == self@.max_size()),
    {
        self.curr_size == self.max_size
    }

    /// Number of evictable frames.
    pub fn size(&self) -> (r: usize)
        requires
            self.wf(),
        ensures
            r == self@.size(),
    {
        self.curr_size
    }

    fn increment_current_size(&mut self)
        requires
            old(self).curr_size < usize::MAX,
        ensures
            final(self).curr_size == old(self).curr_size + 1,
            final(self).node_store == old(self).node_store,
            final(self).current_timestamp == old(self).current_timestamp,
            final(self).max_size == old(self).max_size,
            final(self).k == old(self).k,
    {
        self.curr_size += 1;
    }

    fn decrement_current_size(&mut self)
        requires
            old(self).curr_size > 0,
        ensures
            final(self).curr_size == old(self).curr_size - 1,
            final(self).node_store == old(self).node_store,
            final(self).current_timestamp == old(self).current_timestamp,
            final(self).max_size == old(self).max_size,
            final(self).k == old(self).k,
    {
        self.curr_size -= 1;
    }
}

/// Builder for [`LRUKReplacer`].
pub struct LRUKReplacerBuilder {
    pub(crate) max_size: Option<usize>,
    pub(crate) k: Option<usize>,
}

impl View for LRUKReplacerBuilder {
    /// The configured frame count and `k`, where set.
    type V = (Option<usize>, Option<usize>);

    closed spec fn view(&self) -> (Option<usize>, Option<usize>) {
        (self.max_size, self.k)
    }
}

impl LRUKReplacerBuilder {
    pub fn max_size(self, num_frames: usize) -> (r: Self)
        requires
            num_frames > 0,
        ensures
            r@ == (Some(num_frames), self@.1),
    {
        LRUKReplacerBuilder { max_size: Some(num_frames), ..self }
    }

    pub fn k(self, k: usize) -> (r: Self)
        requires
            k > 0,
        ensures
            r@ == (self@.0, Some(k)),
    {
        LRUKReplacerBuilder { k: Some(k), ..self }
    }

    /// Builds the replacer; both settings must have been given.
    pub fn build(self) -> (r: LRUKReplacer)
        requires
            self@.0 is Some,
            self@.1 is Some,
            self@.1->Some_0 >= 1,
        ensures
            r.wf(),
            r@.nodes.len() == self@.0->Some_0,
            forall|f: int| 0 <= f < r@.nodes.len() ==> r@.nodes[f] is None,
            r@.now == 0,
            r@.k == self@.1->Some_0,
    {
        match (self.max_size, self.k) {
            (Some(m), Some(k)) => LRUKReplacer::new(m, k),
            _ => LRUKReplacer::new(0, 1),
        }
    }
}

} // verus!
