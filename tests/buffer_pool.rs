use bufferpool::buffer_pool::{BufferPoolManager, FrameMetadata};
use bufferpool::disk::DiskManager;
use bufferpool::page::{Page, PageId, PAGE_SIZE};

fn pool(size: usize, k: usize) -> BufferPoolManager {
    BufferPoolManager::new(size, k, DiskManager::new())
}

fn image(byte: u8) -> Vec<u8> {
    vec![byte; PAGE_SIZE]
}

fn fetch_data(bpm: &mut BufferPoolManager, pid: PageId) -> Vec<u8> {
    bpm.fetch_page(&pid).expect("a frame is available").data().clone()
}

#[test]
fn basic_pin_exhaustion() {
    let mut bpm = pool(3, 2);
    let p0 = bpm.new_page().unwrap();
    let p1 = bpm.new_page().unwrap();
    let p2 = bpm.new_page().unwrap();
    assert!(p0 != p1 && p1 != p2 && p0 != p2);
    assert_eq!(bpm.new_page(), None);
    for p in [p0, p1, p2] {
        assert_eq!(bpm.get_pin_count(&p), Some(1));
    }
}

#[test]
fn eviction_after_unpin_writes_back_dirty_page() {
    let mut bpm = pool(3, 2);
    let p0 = bpm.new_page().unwrap();
    let p1 = bpm.new_page().unwrap();
    let _p2 = bpm.new_page().unwrap();
    assert!(bpm.write_page_data(&p0, image(7)));
    assert!(bpm.unpin_page(&p0, true));
    let p3 = bpm.new_page().unwrap();
    assert!(p3 != p0);
    assert_eq!(bpm.get_pin_count(&p0), None);
    assert_eq!(bpm.get_pin_count(&p3), Some(1));
    // Make room and read p0 back: the dirty image reached the disk.
    assert!(bpm.unpin_page(&p1, false));
    assert_eq!(fetch_data(&mut bpm, p0), image(7));
    assert!(!bpm.get_is_dirty(&p0));
}

#[test]
fn lru_k_infinite_tier_order() {
    let mut bpm = pool(3, 2);
    let p0 = bpm.new_page().unwrap();
    let p1 = bpm.new_page().unwrap();
    let p2 = bpm.new_page().unwrap();
    for p in [p0, p1, p2] {
        assert!(bpm.unpin_page(&p, false));
    }
    let _p3 = bpm.new_page().unwrap();
    assert_eq!(bpm.get_pin_count(&p0), None);
    assert_eq!(bpm.get_pin_count(&p1), Some(0));
    let _p4 = bpm.new_page().unwrap();
    assert_eq!(bpm.get_pin_count(&p1), None);
    assert_eq!(bpm.get_pin_count(&p2), Some(0));
}

#[test]
fn lru_k_finite_tier_order() {
    let mut bpm = pool(3, 2);
    let p0 = bpm.new_page().unwrap();
    let p1 = bpm.new_page().unwrap();
    let p2 = bpm.new_page().unwrap();
    for p in [p0, p1, p2] {
        assert!(bpm.fetch_page(&p).is_some());
    }
    for p in [p0, p1, p2] {
        assert!(bpm.unpin_page(&p, false));
        assert!(bpm.unpin_page(&p, false));
    }
    let _p3 = bpm.new_page().unwrap();
    assert_eq!(bpm.get_pin_count(&p0), None);
    assert_eq!(bpm.get_pin_count(&p1), Some(0));
    assert_eq!(bpm.get_pin_count(&p2), Some(0));
}

#[test]
fn flush_and_reread() {
    let mut bpm = pool(3, 2);
    let p0 = bpm.new_page().unwrap();
    assert!(bpm.write_page_data(&p0, image(42)));
    assert!(bpm.unpin_page(&p0, true));
    bpm.flush_page(&p0);
    assert!(!bpm.get_is_dirty(&p0));
    let p1 = bpm.new_page().unwrap();
    let _p2 = bpm.new_page().unwrap();
    let _p3 = bpm.new_page().unwrap();
    assert_eq!(bpm.get_pin_count(&p0), None);
    assert!(bpm.unpin_page(&p1, false));
    assert_eq!(fetch_data(&mut bpm, p0), image(42));
}

#[test]
fn delete_of_pinned_page_fails() {
    let mut bpm = pool(3, 2);
    let p0 = bpm.new_page().unwrap();
    assert!(!bpm.delete_page(p0));
    assert_eq!(bpm.get_pin_count(&p0), Some(1));
}

#[test]
fn delete_of_unpinned_page_frees_its_frame() {
    let mut bpm = pool(1, 2);
    let p0 = bpm.new_page().unwrap();
    assert_eq!(bpm.new_page(), None);
    assert!(bpm.unpin_page(&p0, false));
    assert!(bpm.delete_page(p0));
    assert_eq!(bpm.get_pin_count(&p0), None);
    assert!(!bpm.delete_page(p0));
    let p1 = bpm.new_page().unwrap();
    assert_eq!(bpm.get_pin_count(&p1), Some(1));
}

#[test]
fn new_page_is_zeroed_and_clean() {
    let mut bpm = pool(2, 2);
    let p0 = bpm.new_page().unwrap();
    assert!(!bpm.get_is_dirty(&p0));
    assert_eq!(fetch_data(&mut bpm, p0), image(0));
    assert_eq!(bpm.get_pin_count(&p0), Some(2));
}

#[test]
fn fetch_of_resident_page_adds_a_pin() {
    let mut bpm = pool(2, 2);
    let p0 = bpm.new_page().unwrap();
    let page = bpm.fetch_page(&p0).unwrap();
    assert_eq!(page.page_id(), p0);
    assert_eq!(bpm.get_pin_count(&p0), Some(2));
}

#[test]
fn fetch_when_all_pinned_is_none() {
    let mut bpm = pool(1, 2);
    let p0 = bpm.new_page().unwrap();
    assert!(bpm.unpin_page(&p0, false));
    let p1 = bpm.new_page().unwrap();
    assert_eq!(bpm.get_pin_count(&p0), None);
    assert!(bpm.fetch_page(&p0).is_none());
    assert!(bpm.unpin_page(&p1, false));
    assert!(bpm.fetch_page(&p0).is_some());
    assert_eq!(bpm.get_pin_count(&p1), None);
}

#[test]
fn unpin_of_unknown_or_unpinned_page_fails() {
    let mut bpm = pool(2, 2);
    assert!(!bpm.unpin_page(&99, false));
    let p0 = bpm.new_page().unwrap();
    assert!(bpm.unpin_page(&p0, false));
    assert!(!bpm.unpin_page(&p0, false));
    assert_eq!(bpm.get_pin_count(&p0), Some(0));
}

#[test]
fn unpin_clean_keeps_earlier_dirty_flag() {
    let mut bpm = pool(2, 2);
    let p0 = bpm.new_page().unwrap();
    assert!(bpm.fetch_page(&p0).is_some());
    assert!(bpm.unpin_page(&p0, true));
    assert!(bpm.get_is_dirty(&p0));
    assert!(bpm.unpin_page(&p0, false));
    assert!(bpm.get_is_dirty(&p0));
}

#[test]
fn write_page_data_checks_pin_and_size() {
    let mut bpm = pool(2, 2);
    let p0 = bpm.new_page().unwrap();
    assert!(!bpm.write_page_data(&p0, vec![1u8; 3]));
    assert!(!bpm.get_is_dirty(&p0));
    assert!(bpm.write_page_data(&p0, image(1)));
    assert!(bpm.get_is_dirty(&p0));
    assert!(bpm.unpin_page(&p0, false));
    assert!(!bpm.write_page_data(&p0, image(2)));
    assert!(!bpm.write_page_data(&1234, image(2)));
}

#[test]
fn flush_page_keeps_pins_and_residency() {
    let mut bpm = pool(2, 2);
    let p0 = bpm.new_page().unwrap();
    assert!(bpm.write_page_data(&p0, image(5)));
    bpm.flush_page(&p0);
    assert!(!bpm.get_is_dirty(&p0));
    assert_eq!(bpm.get_pin_count(&p0), Some(1));
    bpm.flush_page(&777);
    assert_eq!(bpm.get_pin_count(&777), None);
}

#[test]
fn flush_all_pages_cleans_every_page() {
    let mut bpm = pool(3, 2);
    let p0 = bpm.new_page().unwrap();
    let p1 = bpm.new_page().unwrap();
    assert!(bpm.write_page_data(&p0, image(3)));
    assert!(bpm.write_page_data(&p1, image(4)));
    bpm.flush_all_pages();
    assert!(!bpm.get_is_dirty(&p0));
    assert!(!bpm.get_is_dirty(&p1));
    assert_eq!(bpm.get_pin_count(&p0), Some(1));
    // Evict both and read them back from disk.
    assert!(bpm.unpin_page(&p0, false));
    assert!(bpm.unpin_page(&p1, false));
    let _a = bpm.new_page().unwrap();
    let _b = bpm.new_page().unwrap();
    let c = bpm.new_page().unwrap();
    assert_eq!(bpm.get_pin_count(&p0), None);
    assert_eq!(bpm.get_pin_count(&p1), None);
    assert!(bpm.unpin_page(&c, false));
    assert_eq!(fetch_data(&mut bpm, p0), image(3));
}

#[test]
fn fetch_then_unpin_restores_pin_count() {
    let mut bpm = pool(2, 2);
    let p0 = bpm.new_page().unwrap();
    let before = bpm.get_pin_count(&p0);
    assert!(bpm.fetch_page(&p0).is_some());
    assert!(bpm.unpin_page(&p0, false));
    assert_eq!(bpm.get_pin_count(&p0), before);
}

#[test]
fn frames_are_accounted_once() {
    let mut bpm = pool(4, 2);
    assert_eq!(bpm.size(), 4);
    let p0 = bpm.new_page().unwrap();
    let p1 = bpm.new_page().unwrap();
    assert!(bpm.unpin_page(&p0, false));
    assert!(bpm.delete_page(p0));
    // Three frames are free again and one holds p1: three more pages fit.
    assert!(bpm.new_page().is_some());
    assert!(bpm.new_page().is_some());
    assert!(bpm.new_page().is_some());
    assert_eq!(bpm.new_page(), None);
    assert_eq!(bpm.get_pin_count(&p1), Some(1));
}

#[test]
fn builder_builds_configured_pool() {
    let mut bpm = BufferPoolManager::builder()
        .pool_size(2)
        .replacer_k(2)
        .disk_manager(DiskManager::new())
        .build();
    assert_eq!(bpm.size(), 2);
    assert!(bpm.new_page().is_some());
    assert!(bpm.new_page().is_some());
    assert_eq!(bpm.new_page(), None);
}

#[test]
fn frame_metadata_counts_pins() {
    let mut m = FrameMetadata::new(3);
    assert_eq!(*m.frame_id(), 3);
    assert_eq!(m.pin_count(), 0);
    m.increment_pin_count();
    m.increment_pin_count();
    m.decrement_pin_count();
    assert_eq!(m.pin_count(), 1);
}

#[test]
fn disk_manager_round_trip() {
    let mut disk = DiskManager::new();
    let a = disk.allocate_new_page();
    let b = disk.allocate_new_page();
    assert!(a != b);
    assert_eq!(disk.read_page(&a).data(), &image(0));
    let mut page = Page::new(a, image(9));
    page.set_is_dirty(true);
    disk.write_page(&page);
    let back = disk.read_page(&a);
    assert_eq!(back.data(), &image(9));
    assert!(!back.is_dirty());
    disk.deallocate_page(&b);
    let c = disk.allocate_new_page();
    assert!(c != b);
}
