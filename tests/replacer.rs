use bufferpool::replacer::{AccessType, LRUKReplacer};

fn touch(r: &mut LRUKReplacer, f: usize) {
    r.record_access(&f, AccessType::Lookup);
}

#[test]
fn lru_k_sample_sequence() {
    let mut r = LRUKReplacer::new(7, 2);
    for f in 1..=6 {
        touch(&mut r, f);
    }
    for f in 1..=5 {
        r.set_evictable(&f, true);
    }
    r.set_evictable(&6, false);
    assert_eq!(r.size(), 5);

    touch(&mut r, 1);
    assert_eq!(r.evict(), Some(2));
    assert_eq!(r.evict(), Some(3));
    assert_eq!(r.evict(), Some(4));
    assert_eq!(r.size(), 2);

    touch(&mut r, 3);
    touch(&mut r, 4);
    touch(&mut r, 5);
    touch(&mut r, 4);
    r.set_evictable(&3, true);
    r.set_evictable(&4, true);
    assert_eq!(r.size(), 4);

    assert_eq!(r.evict(), Some(3));
    assert_eq!(r.size(), 3);

    r.set_evictable(&6, true);
    assert_eq!(r.size(), 4);
    assert_eq!(r.evict(), Some(6));
    assert_eq!(r.size(), 3);

    r.set_evictable(&1, false);
    assert_eq!(r.size(), 2);
    assert_eq!(r.evict(), Some(5));
    assert_eq!(r.size(), 1);

    touch(&mut r, 1);
    touch(&mut r, 1);
    r.set_evictable(&1, true);
    assert_eq!(r.size(), 2);
    assert_eq!(r.evict(), Some(4));
    assert_eq!(r.size(), 1);
    assert_eq!(r.evict(), Some(1));
    assert_eq!(r.size(), 0);
    assert_eq!(r.evict(), None);
}

#[test]
fn evict_on_empty_replacer_is_none() {
    let mut r = LRUKReplacer::new(3, 2);
    assert_eq!(r.evict(), None);
    assert_eq!(r.size(), 0);
}

#[test]
fn non_evictable_frames_are_never_chosen() {
    let mut r = LRUKReplacer::new(3, 2);
    touch(&mut r, 0);
    touch(&mut r, 1);
    assert_eq!(r.evict(), None);
    r.set_evictable(&1, true);
    assert_eq!(r.evict(), Some(1));
    assert_eq!(r.evict(), None);
}

#[test]
fn infinite_distance_beats_finite_distance() {
    let mut r = LRUKReplacer::new(3, 2);
    touch(&mut r, 0);
    touch(&mut r, 0);
    touch(&mut r, 1);
    r.set_evictable(&0, true);
    r.set_evictable(&1, true);
    // Frame 0 was seen twice (finite distance), frame 1 once (infinite).
    assert_eq!(r.evict(), Some(1));
    assert_eq!(r.evict(), Some(0));
}

#[test]
fn finite_tier_picks_largest_backward_distance() {
    let mut r = LRUKReplacer::new(3, 2);
    touch(&mut r, 0); // t0
    touch(&mut r, 1); // t1
    touch(&mut r, 1); // t2
    touch(&mut r, 0); // t3
    r.set_evictable(&0, true);
    r.set_evictable(&1, true);
    // Second most recent accesses: frame 0 at t0, frame 1 at t1.
    assert_eq!(r.evict(), Some(0));
}

#[test]
fn history_keeps_only_k_most_recent() {
    let mut r = LRUKReplacer::new(2, 2);
    touch(&mut r, 0); // t0
    touch(&mut r, 1); // t1
    touch(&mut r, 1); // t2
    touch(&mut r, 0); // t3
    touch(&mut r, 0); // t4: frame 0 now holds t3, t4
    r.set_evictable(&0, true);
    r.set_evictable(&1, true);
    assert_eq!(r.evict(), Some(1));
}

#[test]
fn set_evictable_is_idempotent_and_ignores_untracked() {
    let mut r = LRUKReplacer::new(4, 2);
    touch(&mut r, 2);
    r.set_evictable(&2, true);
    r.set_evictable(&2, true);
    assert_eq!(r.size(), 1);
    r.set_evictable(&3, true);
    assert_eq!(r.size(), 1);
    r.set_evictable(&2, false);
    r.set_evictable(&2, false);
    assert_eq!(r.size(), 0);
}

#[test]
fn remove_drops_frame_and_history() {
    let mut r = LRUKReplacer::new(4, 2);
    touch(&mut r, 0);
    touch(&mut r, 1);
    r.set_evictable(&0, true);
    r.set_evictable(&1, true);
    r.remove(&0);
    assert_eq!(r.size(), 1);
    r.remove(&3);
    r.remove(&40);
    assert_eq!(r.size(), 1);
    assert_eq!(r.evict(), Some(1));
    // A removed frame starts afresh when seen again.
    touch(&mut r, 0);
    r.set_evictable(&0, true);
    assert_eq!(r.evict(), Some(0));
}

#[test]
fn access_kind_does_not_change_order() {
    let mut r = LRUKReplacer::new(3, 2);
    r.record_access(&0, AccessType::Scan);
    r.record_access(&1, AccessType::Index);
    r.record_access(&2, AccessType::Unknown);
    for f in 0..3 {
        r.set_evictable(&f, true);
    }
    assert_eq!(r.evict(), Some(0));
    assert_eq!(r.evict(), Some(1));
    assert_eq!(r.evict(), Some(2));
}

#[test]
fn builder_builds_configured_replacer() {
    let mut r = LRUKReplacer::builder().max_size(2).k(1).build();
    touch(&mut r, 0);
    touch(&mut r, 1);
    touch(&mut r, 0);
    r.set_evictable(&0, true);
    r.set_evictable(&1, true);
    // With k = 1 the distance is from the latest access: frame 1 is older.
    assert_eq!(r.evict(), Some(1));
}
