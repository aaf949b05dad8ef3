use saltwater::error::KernelError;
use saltwater::frame::{BitmapPageFrameAllocator, MemoryRegion};

fn region(start: u64, end: u64, usable: bool) -> MemoryRegion {
    MemoryRegion { start, end, usable }
}

fn small_arena() -> BitmapPageFrameAllocator {
    // sixteen frames, every one inside the usable region; frame 0 backs the
    // bitmap, so frames 1 through 15 start out free
    let regions = vec![region(0, 16 * 4096, true)];
    BitmapPageFrameAllocator::initialise(&regions).unwrap()
}

#[test]
fn initialise_requires_a_usable_region() {
    let regions = vec![region(0, 16 * 4096, false)];
    let r = BitmapPageFrameAllocator::initialise(&regions);
    assert!(matches!(r, Err(KernelError::ResourceExhaustion)));
}

#[test]
fn initialise_reserves_its_own_backing() {
    let a = small_arena();
    assert!(a.is_allocated(0));
    assert!(!a.is_allocated(1));
    assert!(!a.is_allocated(14));
    assert!(!a.is_allocated(15));
    assert_eq!(a.free_frame_count(), 15);
    assert_eq!(a.total_frame_count(), 16);
}

#[test]
fn allocation_scans_from_the_cursor() {
    let mut a = small_arena();
    assert_eq!(a.allocate_frame().unwrap(), 1);
    assert_eq!(a.allocate_frame().unwrap(), 2);
    assert_eq!(a.allocate_frame().unwrap(), 3);
}

#[test]
fn no_two_live_allocations_share_an_index() {
    let mut a = small_arena();
    let mut seen = Vec::new();
    loop {
        match a.allocate_frame() {
            Ok(f) => {
                assert!(!seen.contains(&f));
                seen.push(f);
            }
            Err(e) => {
                assert_eq!(e, KernelError::ResourceExhaustion);
                break;
            }
        }
    }
    assert_eq!(seen.len(), 15);
}

#[test]
fn freed_middle_index_is_allocated_again() {
    // allocate three frames, free the middle one, allocate again: once the
    // rest of the arena is taken, the next allocation returns exactly the
    // freed middle index via the cursor-relative first-fit scan
    let mut a = small_arena();
    let mut live = Vec::new();
    for _ in 0..15 {
        live.push(a.allocate_frame().unwrap());
    }
    a.deallocate_frame(1);
    a.deallocate_frame(2);
    a.deallocate_frame(3);
    let first = a.allocate_frame().unwrap();
    let second = a.allocate_frame().unwrap();
    let third = a.allocate_frame().unwrap();
    assert_eq!((first, second, third), (1, 2, 3));
    a.deallocate_frame(second);
    assert_eq!(a.allocate_frame().unwrap(), second);
}

#[test]
fn exhaustion_reports_failure_and_changes_nothing() {
    let mut a = small_arena();
    for _ in 0..15 {
        a.allocate_frame().unwrap();
    }
    assert_eq!(a.free_frame_count(), 0);
    assert!(matches!(a.allocate_frame(), Err(KernelError::ResourceExhaustion)));
    assert_eq!(a.free_frame_count(), 0);
    assert_eq!(a.total_frame_count(), 16);
}

#[test]
fn deallocate_raises_the_free_count() {
    let mut a = small_arena();
    let f = a.allocate_frame().unwrap();
    assert_eq!(a.free_frame_count(), 14);
    a.deallocate_frame(f);
    assert_eq!(a.free_frame_count(), 15);
    assert!(!a.is_allocated(f));
}
