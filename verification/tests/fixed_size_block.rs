use blog_os::allocator::Layout;
use blog_os::allocator::Locked;
use blog_os::allocator::fixed_size_block::FixedSizeBlockAllocator;
use blog_os::allocator::fixed_size_block::block_size;
use blog_os::allocator::fixed_size_block::list_index;

#[test]
fn block_size_table() {
    let expected = [8usize, 16, 32, 64, 128, 256, 512, 1024];
    for (i, &bs) in expected.iter().enumerate() {
        assert_eq!(block_size(i), bs);
    }
}

#[test]
fn list_index_picks_smallest_sufficient_class() {
    assert_eq!(list_index(&Layout::new(1, 1)), Some(0));
    assert_eq!(list_index(&Layout::new(8, 1)), Some(0));
    assert_eq!(list_index(&Layout::new(9, 1)), Some(1));
    assert_eq!(list_index(&Layout::new(16, 1)), Some(1));
    assert_eq!(list_index(&Layout::new(17, 1)), Some(2));
    assert_eq!(list_index(&Layout::new(20, 1)), Some(2));
    assert_eq!(list_index(&Layout::new(32, 1)), Some(2));
    assert_eq!(list_index(&Layout::new(33, 1)), Some(3));
    assert_eq!(list_index(&Layout::new(1024, 1)), Some(7));
    assert_eq!(list_index(&Layout::new(1025, 1)), None);
}

#[test]
fn size_twenty_served_from_class_thirty_two() {
    // A request of size 20 belongs to class 32, never class 16: the block
    // carved for it is 32-aligned, and freeing it feeds the class-32 list,
    // which the next class-32 request drains while a class-16 request does
    // not.
    let mut f = FixedSizeBlockAllocator::new();
    f.init(0, 4096);
    let l20 = Layout::new(20, 1);
    let x = f.allocate(l20).unwrap();
    assert_eq!(x % 32, 0);
    f.deallocate(x, l20);
    // A size-16 request has its own class and gets fresh memory.
    let y = f.allocate(Layout::new(10, 1)).unwrap();
    assert_ne!(y, x);
    // A size-32 request reuses the freed class-32 block.
    assert_eq!(f.allocate(Layout::new(32, 1)), Some(x));
}

#[test]
fn class_reuse_is_lifo() {
    // Allocate two size-32 blocks X and Y; free X then Y; the next two
    // size-32 allocations return Y first, then X.
    let mut f = FixedSizeBlockAllocator::new();
    f.init(0, 4096);
    let l = Layout::new(32, 32);
    let x = f.allocate(l).unwrap();
    let y = f.allocate(l).unwrap();
    assert_ne!(x, y);
    f.deallocate(x, l);
    f.deallocate(y, l);
    assert_eq!(f.allocate(l), Some(y));
    assert_eq!(f.allocate(l), Some(x));
}

#[test]
fn oversized_requests_use_fallback() {
    let mut f = FixedSizeBlockAllocator::new();
    f.init(0, 8192);
    let big = Layout::new(2000, 8);
    let a = f.allocate(big).unwrap();
    assert_eq!(a % 8, 0);
    f.deallocate(a, big);
    // The freed oversized block is a free region again and serves the next
    // oversized request first-fit.
    assert_eq!(f.allocate(big), Some(a));
}

#[test]
fn class_alignment() {
    let mut f = FixedSizeBlockAllocator::new();
    f.init(0, 65536);
    for &(size, align) in &[(3usize, 4usize), (20, 16), (60, 64), (100, 128), (1000, 1024)] {
        let addr = f.allocate(Layout::new(size, align)).unwrap();
        assert_eq!(addr % align, 0);
    }
}

#[test]
fn fsb_exhaustion_recovery() {
    let mut f = FixedSizeBlockAllocator::new();
    f.init(0, 256);
    assert_eq!(f.allocate(Layout::new(5000, 8)), None);
    let l = Layout::new(32, 32);
    let x = f.allocate(l).unwrap();
    assert_eq!(x % 32, 0);
    f.deallocate(x, l);
    assert_eq!(f.allocate(l), Some(x));
}

#[test]
fn fallback_alloc_carves_from_fallback() {
    let mut f = FixedSizeBlockAllocator::new();
    f.init(0, 4096);
    assert_eq!(f.fallback_alloc(Layout::new(100, 8)), Some(0));
    assert_eq!(f.fallback_alloc(Layout::new(100, 8)), Some(104));
}

#[test]
fn locked_fsb_serves_requests() {
    let mut locked = Locked::new(FixedSizeBlockAllocator::new());
    locked.init(0, 4096);
    let l = Layout::new(20, 1);
    let x = locked.allocate(l).unwrap();
    locked.deallocate(x, l);
    assert_eq!(locked.allocate(Layout::new(25, 1)), Some(x));
}
