use blog_os::allocator::Layout;
use blog_os::allocator::Locked;
use blog_os::allocator::linked_list::ListAllocator;
use blog_os::allocator::linked_list::ListNode;

#[test]
fn list_node_accessors() {
    let n = ListNode::new(32, 100);
    assert_eq!(n.start_addr(), 32);
    assert_eq!(n.end_addr(), 132);
}

#[test]
fn size_align_pads_to_node() {
    // Every request is padded so a freed block can hold a node header:
    // size at least 16, rounded to the alignment; alignment at least 8.
    assert_eq!(ListAllocator::size_align(Layout::new(1, 1)), (16, 8));
    assert_eq!(ListAllocator::size_align(Layout::new(16, 8)), (16, 8));
    assert_eq!(ListAllocator::size_align(Layout::new(100, 8)), (104, 8));
    assert_eq!(ListAllocator::size_align(Layout::new(50, 8)), (56, 8));
    assert_eq!(ListAllocator::size_align(Layout::new(90, 8)), (96, 8));
    assert_eq!(ListAllocator::size_align(Layout::new(20, 64)), (64, 64));
}

#[test]
fn alloc_from_region_fit_test() {
    let region = ListNode::new(8, 100);
    // Fits exactly at the aligned start.
    assert_eq!(ListAllocator::alloc_from_region(&region, 100, 8), Ok(8));
    // The aligned start eats 8 bytes, so 100 no longer fit.
    assert_eq!(ListAllocator::alloc_from_region(&region, 100, 16), Err(()));
    assert_eq!(ListAllocator::alloc_from_region(&region, 92, 16), Ok(16));
    // Too large for the region at any alignment.
    assert_eq!(ListAllocator::alloc_from_region(&region, 101, 1), Err(()));
}

#[test]
fn first_fit_reuse_scenario() {
    // Heap [0, 4096), minimum node size 16.  A(100,8)=0, B(50,8)=104.
    // Free A: the head of the list is now the region at 0.  C(90,8) matches
    // it first-fit; the padded request takes 96 of its 104 bytes and the
    // remainder is too small for a node, so the whole region is consumed.
    let mut a = ListAllocator::new();
    a.init(0, 4096);
    let la = Layout::new(100, 8);
    assert_eq!(a.allocate(la), Some(0));
    assert_eq!(a.allocate(Layout::new(50, 8)), Some(104));
    a.deallocate(0, la);
    assert_eq!(a.allocate(Layout::new(90, 8)), Some(0));
}

#[test]
fn freed_block_reused_lifo() {
    // The most recently freed fitting region is the list head and is taken
    // first.
    let mut a = ListAllocator::new();
    a.init(0, 4096);
    let l = Layout::new(64, 8);
    let x = a.allocate(l).unwrap();
    let y = a.allocate(l).unwrap();
    assert_ne!(x, y);
    a.deallocate(y, l);
    assert_eq!(a.allocate(l), Some(y));
}

#[test]
fn list_alignment() {
    let mut a = ListAllocator::new();
    a.init(4096, 8192);
    for &align in &[1usize, 2, 8, 32, 128, 1024] {
        let addr = a.allocate(Layout::new(24, align)).unwrap();
        assert_eq!(addr % align, 0);
    }
}

#[test]
fn list_exhaustion_recovery() {
    // An oversized request fails and leaves the list usable.
    let mut a = ListAllocator::new();
    a.init(0, 256);
    assert_eq!(a.allocate(Layout::new(8192, 8)), None);
    assert_eq!(a.allocate(Layout::new(100, 8)), Some(0));
    assert_eq!(a.allocate(Layout::new(8192, 8)), None);
    assert_eq!(a.allocate(Layout::new(100, 8)), Some(104));
}

#[test]
fn excess_becomes_new_head_region() {
    // Free a large block, then take a small piece of it: the remainder is
    // big enough for a node and is reused for the next small request.
    let mut a = ListAllocator::new();
    a.init(0, 4096);
    let big = Layout::new(256, 8);
    let addr = a.allocate(big).unwrap();
    a.deallocate(addr, big);
    let small = Layout::new(16, 8);
    let first = a.allocate(small).unwrap();
    assert_eq!(first, addr);
    // The 240-byte remainder of the freed region sits at the list head.
    let second = a.allocate(small).unwrap();
    assert_eq!(second, addr + 16);
}

#[test]
fn locked_list_serves_requests() {
    let mut locked = Locked::new(ListAllocator::new());
    locked.init(0, 4096);
    let l = Layout::new(100, 8);
    assert_eq!(locked.allocate(l), Some(0));
    locked.deallocate(0, l);
    assert_eq!(locked.allocate(Layout::new(90, 8)), Some(0));
}
