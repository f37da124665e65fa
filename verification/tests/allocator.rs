use blog_os::allocator::Dummy;
use blog_os::allocator::Layout;
use blog_os::allocator::Locked;
use blog_os::allocator::align_up;
use blog_os::allocator::bump::BumpAllocator;

#[test]
fn align_up_values() {
    assert_eq!(align_up(0, 1), 0);
    assert_eq!(align_up(0, 4096), 0);
    assert_eq!(align_up(1, 8), 8);
    assert_eq!(align_up(8, 8), 8);
    assert_eq!(align_up(9, 8), 16);
    assert_eq!(align_up(100, 8), 104);
    assert_eq!(align_up(4095, 4096), 4096);
    assert_eq!(align_up(4097, 4096), 8192);
}

#[test]
fn layout_accessors() {
    let l = Layout::new(100, 8);
    assert_eq!(l.size(), 100);
    assert_eq!(l.align(), 8);
}

#[test]
fn dummy_always_fails() {
    let d = Dummy;
    assert_eq!(d.allocate(Layout::new(1, 1)), None);
    assert_eq!(d.allocate(Layout::new(4096, 4096)), None);
}

#[test]
fn bump_scenario_reset_on_full_drain() {
    // Heap [0, 1024).  A(100) at 0, B(50) at 104 (padded to the alignment).
    // Freeing A alone moves nothing; freeing B drains the heap and rewinds
    // the bump pointer, so the next allocation starts at 0 again.
    let mut b = BumpAllocator::new();
    b.init(0, 1024);
    let la = Layout::new(100, 8);
    let lb = Layout::new(50, 8);
    assert_eq!(b.allocate(la), Some(0));
    assert_eq!(b.allocate(lb), Some(104));
    let next_before = b.next();
    b.deallocate(0, la);
    assert_eq!(b.next(), next_before);
    assert_eq!(b.allocations(), 1);
    b.deallocate(104, lb);
    assert_eq!(b.allocations(), 0);
    assert_eq!(b.next(), 0);
    assert_eq!(b.allocate(Layout::new(10, 8)), Some(0));
}

#[test]
fn bump_alignment() {
    let mut b = BumpAllocator::new();
    b.init(4096, 4096);
    for &align in &[1usize, 2, 4, 8, 16, 64, 256] {
        let addr = b.allocate(Layout::new(3, align)).unwrap();
        assert_eq!(addr % align, 0);
    }
}

#[test]
fn bump_exhaustion_recovery() {
    // A request larger than the rest of the heap fails and changes nothing;
    // a fitting request afterwards still succeeds.
    let mut b = BumpAllocator::new();
    b.init(0, 128);
    assert_eq!(b.allocate(Layout::new(100, 1)), Some(0));
    let next_before = b.next();
    assert_eq!(b.allocate(Layout::new(64, 1)), None);
    assert_eq!(b.next(), next_before);
    assert_eq!(b.allocate(Layout::new(28, 1)), Some(100));
}

#[test]
fn bump_overflow_is_failure() {
    // Drive the bump pointer near the top of the address space: the address
    // arithmetic for the next request would overflow, which counts as
    // exhaustion.
    let mut b = BumpAllocator::new();
    b.init(0, usize::MAX);
    let half = isize::MAX as usize;
    assert_eq!(b.allocate(Layout::new(half, 1)), Some(0));
    assert_eq!(b.allocate(Layout::new(half, 1)), Some(half));
    assert_eq!(b.next(), usize::MAX - 1);
    assert_eq!(b.allocate(Layout::new(16, 1)), None);
}

#[test]
fn locked_bump_serves_requests() {
    let mut locked = Locked::new(BumpAllocator::new());
    locked.init(0, 1024);
    let l = Layout::new(100, 8);
    assert_eq!(locked.allocate(l), Some(0));
    locked.deallocate(0, l);
    assert_eq!(locked.allocate(Layout::new(10, 8)), Some(0));
}
