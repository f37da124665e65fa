use blog_os::allocator::Layout;
use blog_os::allocator::linked_list::ListAllocator;
use blog_os::memory::HeapMemory;

#[test]
fn fresh_heap_is_zeroed() {
    let mem = HeapMemory::new(4096, 64);
    assert_eq!(mem.start(), 4096);
    assert_eq!(mem.size(), 64);
    assert_eq!(mem.read_bytes(4096, 64), vec![0u8; 64]);
}

#[test]
fn write_then_read_round_trip() {
    let mut mem = HeapMemory::new(0, 256);
    let pattern: Vec<u8> = (0..64u8).map(|b| b.wrapping_mul(7).wrapping_add(3)).collect();
    mem.write_bytes(100, &pattern);
    assert_eq!(mem.read_bytes(100, 64), pattern);
    // Everything outside the written range is still zero.
    assert_eq!(mem.read_bytes(0, 100), vec![0u8; 100]);
    assert_eq!(mem.read_bytes(164, 92), vec![0u8; 92]);
}

#[test]
fn round_trip_through_allocated_block() {
    // Write a known pattern into a freshly allocated block and read it back
    // before any overlapping reuse: it always matches.
    let mut mem = HeapMemory::new(0, 4096);
    let mut alloc = ListAllocator::new();
    alloc.init(0, 4096);
    let layout = Layout::new(64, 8);
    let a = alloc.allocate(layout).unwrap();
    let b = alloc.allocate(layout).unwrap();
    let pat_a: Vec<u8> = vec![0xab; 64];
    let pat_b: Vec<u8> = (0..64u8).collect();
    mem.write_bytes(a, &pat_a);
    mem.write_bytes(b, &pat_b);
    assert_eq!(mem.read_bytes(a, 64), pat_a);
    assert_eq!(mem.read_bytes(b, 64), pat_b);
}
