//! The kernel's heap smoke tests, run against the modeled heap: values
//! stored through the allocator keep their contents, and a large store
//! spanning many blocks adds up.

use blog_os::allocator::Layout;
use blog_os::allocator::fixed_size_block::FixedSizeBlockAllocator;
use blog_os::memory::HeapMemory;

#[test]
fn trivial_assertion() {
    assert_eq!(1, 1);
}

#[test]
fn simple_allocation() {
    let mut mem = HeapMemory::new(0, 4096);
    let mut alloc = FixedSizeBlockAllocator::new();
    alloc.init(0, 4096);
    let layout = Layout::new(8, 8);
    let heap_value_1 = alloc.allocate(layout).unwrap();
    let heap_value_2 = alloc.allocate(layout).unwrap();
    mem.write_bytes(heap_value_1, &41u64.to_le_bytes());
    mem.write_bytes(heap_value_2, &13u64.to_le_bytes());
    let v1 = u64::from_le_bytes(mem.read_bytes(heap_value_1, 8).try_into().unwrap());
    let v2 = u64::from_le_bytes(mem.read_bytes(heap_value_2, 8).try_into().unwrap());
    assert_eq!(v1, 41);
    assert_eq!(v2, 13);
}

#[test]
fn large_vec() {
    let n: u64 = 1000;
    let size = (n as usize) * 8;
    let mut mem = HeapMemory::new(0, 16384);
    let mut alloc = FixedSizeBlockAllocator::new();
    alloc.init(0, 16384);
    let layout = Layout::new(size, 8);
    let base = alloc.allocate(layout).unwrap();
    for i in 0..n {
        mem.write_bytes(base + (i as usize) * 8, &i.to_le_bytes());
    }
    let mut sum: u64 = 0;
    for i in 0..n as usize {
        sum += u64::from_le_bytes(mem.read_bytes(base + i * 8, 8).try_into().unwrap());
    }
    assert_eq!(sum, (n - 1) * n / 2);
}
