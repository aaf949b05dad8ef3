use saltwater::error::KernelError;
use saltwater::frame::{BitmapPageFrameAllocator, MemoryRegion};
use saltwater::page::{ManagedPageTable, PageProfile, USER_HALF_PAGES};

fn arena(frames: u64) -> BitmapPageFrameAllocator {
    let regions = vec![MemoryRegion { start: 0, end: frames * 4096, usable: true }];
    BitmapPageFrameAllocator::initialise(&regions).unwrap()
}

#[test]
fn build_then_destroy_restores_the_free_count() {
    // construct an address space, map four user pages, drop it: the
    // allocator's free-frame count matches the pre-construction value
    let mut a = arena(64);
    let before = a.free_frame_count();
    let mut space = ManagedPageTable::new(&mut a).unwrap();
    let pages = [10u64, 20, 512, 262144];
    for page in pages {
        let frame = a.allocate_frame().unwrap();
        space.map(&mut a, page, frame, PageProfile::User).unwrap();
    }
    assert_eq!(space.mapped_page_count(), 4);
    // four leaves, the intermediate tables created on demand, and the top
    let owned = space.owned_frame_count();
    assert_eq!(owned, 4 + space.table_count() + 1);
    assert_eq!(a.free_frame_count() + owned, before);
    space.destroy(&mut a);
    assert_eq!(a.free_frame_count(), before);
}

#[test]
fn intermediate_tables_are_shared_between_neighbours() {
    let mut a = arena(64);
    let mut space = ManagedPageTable::new(&mut a).unwrap();
    let f1 = a.allocate_frame().unwrap();
    space.map(&mut a, 10, f1, PageProfile::User).unwrap();
    assert_eq!(space.table_count(), 3);
    let f2 = a.allocate_frame().unwrap();
    space.map(&mut a, 20, f2, PageProfile::User).unwrap();
    // the second neighbour page needed no new tables
    assert_eq!(space.table_count(), 3);
    let f3 = a.allocate_frame().unwrap();
    space.map(&mut a, 512, f3, PageProfile::User).unwrap();
    assert_eq!(space.table_count(), 4);
}

#[test]
fn mapping_rejects_the_kernel_half_and_double_maps() {
    let mut a = arena(64);
    let mut space = ManagedPageTable::new(&mut a).unwrap();
    let f = a.allocate_frame().unwrap();
    let r = space.map(&mut a, USER_HALF_PAGES, f, PageProfile::Privileged);
    assert!(matches!(r, Err(KernelError::MappingFailure)));
    space.map(&mut a, 7, f, PageProfile::Privileged).unwrap();
    let f2 = a.allocate_frame().unwrap();
    let r2 = space.map(&mut a, 7, f2, PageProfile::User);
    assert!(matches!(r2, Err(KernelError::MappingFailure)));
    // a frame already referenced within the space is rejected too
    let r3 = space.map(&mut a, 8, f, PageProfile::User);
    assert!(matches!(r3, Err(KernelError::MappingFailure)));
}

#[test]
fn lookup_and_unmap_round_trip() {
    let mut a = arena(64);
    let mut space = ManagedPageTable::new(&mut a).unwrap();
    let f = a.allocate_frame().unwrap();
    space.map(&mut a, 42, f, PageProfile::User).unwrap();
    let leaf = space.lookup(42).unwrap();
    assert_eq!(leaf.frame, f);
    assert_eq!(leaf.page, 42);
    let removed = space.unmap(42).unwrap();
    assert_eq!(removed.frame, f);
    assert!(space.lookup(42).is_none());
    assert!(matches!(space.unmap(42), Err(KernelError::MappingFailure)));
}

#[test]
fn exhaustion_during_construction_is_reported() {
    // an arena with no free frame cannot even hold a top-level table
    let regions = vec![MemoryRegion { start: 0, end: 2 * 4096, usable: true }];
    let mut a = BitmapPageFrameAllocator::initialise(&regions).unwrap();
    while a.allocate_frame().is_ok() {}
    let r = ManagedPageTable::new(&mut a);
    assert!(matches!(r, Err(KernelError::ResourceExhaustion)));
}
