//! The shared vocabulary of the heap-allocation strategies: the layout
//! descriptor that accompanies every request, the alignment helper used by
//! every strategy, and the wrapper that guards the single active strategy
//! instance.

use vstd::prelude::*;
use vstd::arithmetic::div_mod::lemma_fundamental_div_mod;
use vstd::arithmetic::div_mod::lemma_mod_division_less_than_divisor;
use vstd::arithmetic::div_mod::lemma_mod_multiples_basic;
use vstd::arithmetic::power2::pow2;
use vstd::arithmetic::power2::lemma_pow2_adds;
use vstd::arithmetic::power2::lemma_pow2_pos;
use vstd::arithmetic::power2::lemma_pow2_strictly_increases;
use vstd::arithmetic::power2::lemma2_to64;

pub mod bump;
pub mod fixed_size_block;
pub mod linked_list;

verus! {

/// Start of the virtual-address range that the page-mapping layer reserves
/// for the kernel heap.  The running kernel is a 64-bit target; the constant
/// is kept as a 64-bit value so that the crate also verifies for 32-bit
/// address widths.
pub const HEAP_START: u64 = 0x4444_4444_0000;

/// Size of the kernel heap in bytes.
pub const HEAP_SIZE: usize = 100 * 1024;

/// Two byte ranges, each given by start address and size, have no byte in
/// common.
pub open spec fn ranges_disjoint(a1: nat, s1: nat, a2: nat, s2: nat) -> bool {
    a1 + s1 <= a2 || a2 + s2 <= a1
}

/// The smallest multiple of `align` that is greater than or equal to `addr`.
pub open spec fn spec_align_up(addr: int, align: int) -> int {
    if addr % align == 0 {
        addr
    } else {
        addr + align - addr % align
    }
}

/// `n` is a power of two.
pub open spec fn is_power_of_two(n: int) -> bool {
    exists|k: nat| n == pow2(k)
}

/// Every power of two is at least one.
pub proof fn lemma_power_of_two_pos(n: int)
    requires
        is_power_of_two(n),
    ensures
        n >= 1,
{
    let k = choose|k: nat| n == pow2(k);
    lemma_pow2_pos(k);
}

/// A larger power of two is a multiple of a smaller one.
pub proof fn lemma_pow2_divides(a: int, b: int)
    requires
        is_power_of_two(a),
        is_power_of_two(b),
        a <= b,
    ensures
        b % a == 0,
{
    let i = choose|i: nat| a == pow2(i);
    let j = choose|j: nat| b == pow2(j);
    lemma_pow2_pos(i);
    lemma_pow2_pos(j);
    if i > j {
        lemma_pow2_strictly_increases(j, i);
    }
    let d = (j - i) as nat;
    lemma_pow2_adds(i, d);
    lemma_pow2_pos(d);
    assert(i + d == j);
    assert(pow2(i + d) == pow2(i) * pow2(d));
    assert(b == pow2(i) * pow2(d));
    assert(b == pow2(d) as int * a) by (nonlinear_arith)
        requires
            b == pow2(i) * pow2(d),
            a == pow2(i),
    ;
    lemma_mod_multiples_basic(pow2(d) as int, a);
}

/// Divisibility is transitive: a multiple of `b` is a multiple of every
/// divisor `c` of `b`.
pub proof fn lemma_divides_transitive(a: int, b: int, c: int)
    requires
        1 <= c,
        c <= b,
        b % c == 0,
        a % b == 0,
    ensures
        a % c == 0,
{
    lemma_fundamental_div_mod(a, b);
    lemma_fundamental_div_mod(b, c);
    let qa = a / b;
    let qb = b / c;
    assert(a == c * (qb * qa)) by (nonlinear_arith)
        requires
            a == b * qa,
            b == c * qb,
    ;
    lemma_mod_multiples_basic(qb * qa, c);
}

/// What `spec_align_up` returns: a multiple of `align` in `[addr, addr + align)`,
/// and `addr` itself whenever `addr` is already aligned.
pub proof fn lemma_align_up(addr: int, align: int)
    requires
        0 <= addr,
        1 <= align,
    ensures
        spec_align_up(addr, align) % align == 0,
        addr <= spec_align_up(addr, align) < addr + align,
        addr % align == 0 ==> spec_align_up(addr, align) == addr,
{
    lemma_mod_division_less_than_divisor(addr, align);
    let r = addr % align;
    if r != 0 {
        lemma_fundamental_div_mod(addr, align);
        let q = addr / align;
        assert(spec_align_up(addr, align) == (q + 1) * align) by (nonlinear_arith)
            requires
                addr == align * q + r,
                spec_align_up(addr, align) == addr + align - r,
        ;
        lemma_mod_multiples_basic(q + 1, align);
    }
}

/// Rounds `addr` up to the next multiple of `align`.
///
/// `align` must be a power of two; that is a contract on the caller and is
/// not rechecked here.  The rounded address must fit in the machine word.
pub fn align_up(addr: usize, align: usize) -> (r: usize)
    requires
        is_power_of_two(align as int),
        spec_align_up(addr as int, align as int) <= usize::MAX,
    ensures
        r == spec_align_up(addr as int, align as int),
{
    proof {
        lemma_power_of_two_pos(align as int);
        lemma_align_up(addr as int, align as int);
        lemma_mod_division_less_than_divisor(addr as int, align as int);
    }
    let rem = addr % align;
    if rem == 0 {
        addr
    } else {
        addr + (align - rem)
    }
}

/// A request descriptor: how many bytes are wanted and to what power-of-two
/// boundary the returned address must be aligned.
#[derive(Debug, Clone, Copy, PartialEq, Eq, Structural)]
pub struct Layout {
    pub size: usize,
    pub align: usize,
}

impl Layout {
    /// A layout is valid when the size is nonzero, the alignment is a power
    /// of two, and the size rounded up to the alignment still fits in
    /// `isize` (the same bound the language's layout type guarantees).
    pub open spec fn wf(self) -> bool {
        &&& self.size > 0
        &&& is_power_of_two(self.align as int)
        &&& spec_align_up(self.size as int, self.align as int) <= isize::MAX
    }

    /// Builds a layout from a size and an alignment.  Validity is a caller
    /// contract, exactly as it is for the callers of `allocate`.
    pub fn new(size: usize, align: usize) -> (r: Layout)
        requires
            size > 0,
            is_power_of_two(align as int),
            spec_align_up(size as int, align as int) <= isize::MAX,
        ensures
            r == (Layout { size, align }),
            r.wf(),
    {
        Layout { size, align }
    }

    /// The requested size in bytes.
    pub fn size(&self) -> (s: usize)
        ensures
            s == self.size,
    {
        self.size
    }

    /// The requested alignment in bytes.
    pub fn align(&self) -> (a: usize)
        ensures
            a == self.align,
    {
        self.align
    }
}

/// Proof that the power-of-two alignments used throughout the crate and its
/// tests really are powers of two.
pub proof fn lemma_small_powers_of_two()
    ensures
        is_power_of_two(1),
        is_power_of_two(2),
        is_power_of_two(4),
        is_power_of_two(8),
        is_power_of_two(16),
        is_power_of_two(32),
        is_power_of_two(64),
        is_power_of_two(128),
        is_power_of_two(256),
        is_power_of_two(512),
        is_power_of_two(1024),
        is_power_of_two(2048),
        is_power_of_two(4096),
{
    lemma2_to64();
    assert(1 == pow2(0));
    assert(2 == pow2(1));
    assert(4 == pow2(2));
    assert(8 == pow2(3));
    assert(16 == pow2(4));
    assert(32 == pow2(5));
    assert(64 == pow2(6));
    assert(128 == pow2(7));
    assert(256 == pow2(8));
    assert(512 == pow2(9));
    assert(1024 == pow2(10));
    assert(2048 == pow2(11));
    assert(4096 == pow2(12));
}

/// An allocator that refuses every request.  It stands in for a real
/// strategy before the heap has been handed over: allocation always fails,
/// and since a deallocation must match a previous successful allocation, no
/// deallocation can ever validly reach it, so it has no deallocate method.
pub struct Dummy;

impl Dummy {
    /// Always fails: there is no memory behind this allocator.
    pub fn allocate(&self, layout: Layout) -> (r: Option<usize>)
        ensures
            r is None,
    {
        None
    }
}

/// Guards the single active strategy instance.
///
/// In the running kernel the strategy sits behind a busy-wait lock, because
/// allocation can be entered from interrupt context where blocking is
/// impossible and the lock holder must simply be waited out.  The lock is
/// not reentrant: an interrupt handler that allocates while the interrupted
/// context holds the lock deadlocks the machine.  That is a contract on the
/// callers.  In this verified model, exclusive access is expressed through
/// `&mut`: holding `&mut Locked<A>` is holding the lock.
pub struct Locked<A> {
    inner: A,
}

impl<A> Locked<A> {
    /// The wrapped strategy instance.
    pub closed spec fn inner_spec(self) -> A {
        self.inner
    }

    /// Wraps a strategy instance.
    pub fn new(inner: A) -> (r: Locked<A>)
        ensures
            r.inner_spec() == inner,
    {
        Locked { inner }
    }
}

impl Locked<bump::BumpAllocator> {
    /// Acquires the lock and initializes the wrapped bump strategy.
    pub fn init(&mut self, heap_start: usize, heap_size: usize)
        requires
            old(self).inner_spec()@ == bump::BumpModel::empty(),
            heap_start + heap_size <= usize::MAX,
            heap_start % 4096 == 0,
        ensures
            final(self).inner_spec()@ == (bump::BumpModel {
                heap_start: heap_start as nat,
                heap_end: (heap_start + heap_size) as nat,
                next: heap_start as nat,
                allocations: 0,
                live: Map::empty(),
            }),
            final(self).inner_spec()@.wf(),
    {
        self.inner.init(heap_start, heap_size);
    }

    /// Acquires the lock and serves the request through the wrapped bump
    /// strategy.
    pub fn allocate(&mut self, layout: Layout) -> (r: Option<usize>)
        requires
            old(self).inner_spec()@.wf(),
            layout.wf(),
        ensures
            final(self).inner_spec()@.wf(),
            bump::bump_alloc_post(old(self).inner_spec()@, final(self).inner_spec()@, layout, r),
    {
        self.inner.allocate(layout)
    }

    /// Acquires the lock and frees through the wrapped bump strategy.
    pub fn deallocate(&mut self, addr: usize, layout: Layout)
        requires
            old(self).inner_spec()@.wf(),
            old(self).inner_spec()@.live.contains_pair(addr as nat, layout.size as nat),
        ensures
            final(self).inner_spec()@.wf(),
            bump::bump_dealloc_post(
                old(self).inner_spec()@,
                final(self).inner_spec()@,
                addr,
                layout,
            ),
    {
        self.inner.deallocate(addr, layout);
    }
}

impl Locked<linked_list::ListAllocator> {
    /// Acquires the lock and initializes the wrapped free-list strategy.
    pub fn init(&mut self, heap_start: usize, heap_size: usize)
        requires
            old(self).inner_spec()@ == linked_list::ListModel::empty(),
            heap_start % 4096 == 0,
            heap_size >= linked_list::NODE_SIZE,
            heap_start + heap_size <= usize::MAX,
        ensures
            final(self).inner_spec()@.wf(),
            final(self).inner_spec()@ == (linked_list::ListModel {
                heap_start: heap_start as nat,
                heap_end: (heap_start + heap_size) as nat,
                free: seq![linked_list::ListNode { size: heap_size, addr: heap_start }],
                live: Map::empty(),
            }),
    {
        self.inner.init(heap_start, heap_size);
    }

    /// Acquires the lock and serves the request through the wrapped
    /// free-list strategy.
    pub fn allocate(&mut self, layout: Layout) -> (r: Option<usize>)
        requires
            old(self).inner_spec()@.wf(),
            layout.wf(),
        ensures
            final(self).inner_spec()@.wf(),
            linked_list::list_alloc_post(
                old(self).inner_spec()@,
                final(self).inner_spec()@,
                layout,
                r,
            ),
    {
        self.inner.allocate(layout)
    }

    /// Acquires the lock and frees through the wrapped free-list strategy.
    pub fn deallocate(&mut self, addr: usize, layout: Layout)
        requires
            old(self).inner_spec()@.wf(),
            layout.wf(),
            old(self).inner_spec()@.live.contains_pair(
                addr as nat,
                linked_list::adjusted_size(layout) as nat,
            ),
        ensures
            final(self).inner_spec()@.wf(),
            linked_list::list_dealloc_post(
                old(self).inner_spec()@,
                final(self).inner_spec()@,
                addr,
                layout,
            ),
    {
        self.inner.deallocate(addr, layout);
    }
}

impl Locked<fixed_size_block::FixedSizeBlockAllocator> {
    /// Acquires the lock and initializes the wrapped segregated strategy.
    pub fn init(&mut self, heap_start: usize, heap_size: usize)
        requires
            old(self).inner_spec()@ == fixed_size_block::FsbModel::empty(),
            heap_start % 4096 == 0,
            heap_size >= linked_list::NODE_SIZE,
            heap_start + heap_size <= usize::MAX,
        ensures
            final(self).inner_spec()@.wf(),
            final(self).inner_spec()@.lists == old(self).inner_spec()@.lists,
            final(self).inner_spec()@.live == old(self).inner_spec()@.live,
            final(self).inner_spec()@.fallback == (linked_list::ListModel {
                heap_start: heap_start as nat,
                heap_end: (heap_start + heap_size) as nat,
                free: seq![linked_list::ListNode { size: heap_size, addr: heap_start }],
                live: Map::empty(),
            }),
    {
        self.inner.init(heap_start, heap_size);
    }

    /// Acquires the lock and serves the request through the wrapped
    /// segregated strategy.
    pub fn allocate(&mut self, layout: Layout) -> (r: Option<usize>)
        requires
            old(self).inner_spec()@.wf(),
            layout.wf(),
        ensures
            final(self).inner_spec()@.wf(),
            fixed_size_block::fsb_alloc_post(
                old(self).inner_spec()@,
                final(self).inner_spec()@,
                layout,
                r,
            ),
    {
        self.inner.allocate(layout)
    }

    /// Acquires the lock and frees through the wrapped segregated strategy.
    pub fn deallocate(&mut self, addr: usize, layout: Layout)
        requires
            old(self).inner_spec()@.wf(),
            layout.wf(),
            old(self).inner_spec()@.live.contains_pair(
                addr as nat,
                fixed_size_block::fsb_owned_size(layout) as nat,
            ),
        ensures
            final(self).inner_spec()@.wf(),
            fixed_size_block::fsb_dealloc_post(
                old(self).inner_spec()@,
                final(self).inner_spec()@,
                addr,
                layout,
            ),
    {
        self.inner.deallocate(addr, layout);
    }
}

} // verus!
