//! The bump strategy: a monotonically advancing pointer with bulk reclaim.
//!
//! Allocation rounds the bump pointer up to the requested alignment and
//! advances it past the new block; freeing only counts allocations down and
//! rewinds the pointer to the start of the heap once the last outstanding
//! allocation is gone.  The set of outstanding allocations is carried as
//! ghost state so that the strategy provably never hands out overlapping
//! blocks.

use vstd::prelude::*;
use vstd::set::axiom_set_insert_len;
use vstd::set::axiom_set_remove_len;
use vstd::set_lib::lemma_set_insert_finite_iff;
use vstd::set_lib::lemma_set_remove_finite_iff;

use crate::allocator::Layout;
use crate::allocator::lemma_align_up;
use crate::allocator::lemma_power_of_two_pos;
use crate::allocator::ranges_disjoint;
use crate::allocator::spec_align_up;

verus! {

/// The mathematical state of a bump allocator: the heap bounds, the bump
/// pointer, the count of outstanding allocations, and the outstanding
/// allocations themselves as a map from start address to size.
pub ghost struct BumpModel {
    pub heap_start: nat,
    pub heap_end: nat,
    pub next: nat,
    pub allocations: nat,
    pub live: Map<nat, nat>,
}

impl BumpModel {
    /// The state a freshly constructed, not yet initialized allocator is in.
    pub open spec fn empty() -> BumpModel {
        BumpModel { heap_start: 0, heap_end: 0, next: 0, allocations: 0, live: Map::empty() }
    }

    /// The strategy's invariant: the bump pointer stays between the heap
    /// bounds, the counter counts the outstanding allocations, every
    /// outstanding allocation lies below the bump pointer, no two overlap,
    /// and a drained heap has its pointer rewound to the start.
    pub open spec fn wf(self) -> bool {
        &&& self.heap_start <= self.next <= self.heap_end <= usize::MAX
        &&& self.live.dom().finite()
        &&& self.allocations == self.live.dom().len()
        &&& self.allocations <= self.next - self.heap_start
        &&& forall|a: nat| #[trigger] self.live.dom().contains(a) ==> {
            &&& self.heap_start <= a
            &&& a + self.live[a] <= self.next
            &&& self.live[a] >= 1
        }
        &&& forall|a1: nat, a2: nat|
            self.live.dom().contains(a1) && self.live.dom().contains(a2) && a1 != a2
                ==> #[trigger] ranges_disjoint(a1, self.live[a1], a2, self.live[a2])
        &&& self.allocations == 0 ==> self.next == self.heap_start
    }
}

/// How a bump allocator's state after a successful or failed allocation
/// relates to its state before it: on success the returned address is the
/// bump pointer rounded up to the alignment, the block lies inside the heap,
/// was not outstanding before, and becomes outstanding; on failure (exactly
/// when the aligned candidate would overrun the end of the heap) nothing
/// changes.
pub open spec fn bump_alloc_post(
    pre: BumpModel,
    post: BumpModel,
    layout: Layout,
    r: Option<usize>,
) -> bool {
    &&& post.heap_start == pre.heap_start
    &&& post.heap_end == pre.heap_end
    &&& match r {
        Some(addr) => {
            let cand = spec_align_up(pre.next as int, layout.align as int);
            &&& addr == cand
            &&& addr as int % layout.align as int == 0
            &&& cand + layout.size <= pre.heap_end
            &&& !pre.live.dom().contains(addr as nat)
            &&& post.next == cand + layout.size
            &&& post.allocations == pre.allocations + 1
            &&& post.live == pre.live.insert(addr as nat, layout.size as nat)
        },
        None => {
            &&& post == pre
            &&& spec_align_up(pre.next as int, layout.align as int) + layout.size > pre.heap_end
        },
    }
}

/// How a bump allocator's state after a deallocation relates to its state
/// before it: the allocation stops being outstanding, and the bump pointer
/// moves only when the freed allocation was the last one outstanding, in
/// which case it rewinds to the start of the heap.
pub open spec fn bump_dealloc_post(
    pre: BumpModel,
    post: BumpModel,
    addr: usize,
    layout: Layout,
) -> bool {
    &&& post.heap_start == pre.heap_start
    &&& post.heap_end == pre.heap_end
    &&& post.live == pre.live.remove(addr as nat)
    &&& post.allocations == pre.allocations - 1
    &&& pre.allocations > 1 ==> post.next == pre.next
    &&& pre.allocations == 1 ==> post.next == pre.heap_start
}

/// The bump strategy.
pub struct BumpAllocator {
    heap_start: usize,
    heap_end: usize,
    next: usize,
    allocations: usize,
    live: Ghost<Map<nat, nat>>,
}

impl View for BumpAllocator {
    type V = BumpModel;

    closed spec fn view(&self) -> BumpModel {
        BumpModel {
            heap_start: self.heap_start as nat,
            heap_end: self.heap_end as nat,
            next: self.next as nat,
            allocations: self.allocations as nat,
            live: self.live@,
        }
    }
}

impl BumpAllocator {
    /// Creates a new empty bump allocator.
    pub fn new() -> (r: BumpAllocator)
        ensures
            r@ == BumpModel::empty(),
            r@.wf(),
    {
        let r = BumpAllocator {
            heap_start: 0,
            heap_end: 0,
            next: 0,
            allocations: 0,
            live: Ghost(Map::empty()),
        };
        proof {
            assert(r@.live.dom() =~= Set::<nat>::empty());
        }
        r
    }

    /// Initializes the allocator with the heap bounds.
    ///
    /// Must be called exactly once, before any allocation: the allocator
    /// must still be in its freshly constructed state, and the given region
    /// must be mapped, writable and otherwise unused.  The start of the
    /// region comes from the page-mapping layer and is page-aligned.
    pub fn init(&mut self, heap_start: usize, heap_size: usize)
        requires
            old(self)@ == BumpModel::empty(),
            heap_start + heap_size <= usize::MAX,
            heap_start % 4096 == 0,
        ensures
            final(self)@ == (BumpModel {
                heap_start: heap_start as nat,
                heap_end: (heap_start + heap_size) as nat,
                next: heap_start as nat,
                allocations: 0,
                live: Map::empty(),
            }),
            final(self)@.wf(),
    {
        self.heap_start = heap_start;
        self.heap_end = heap_start + heap_size;
        self.next = heap_start;
        proof {
            assert(self@.live.dom() =~= Set::<nat>::empty());
        }
    }

    /// Serves a request by rounding the bump pointer up to the requested
    /// alignment.  Fails exactly when the aligned candidate block would not
    /// fit below the end of the heap (including the case where the address
    /// arithmetic would overflow the machine word); on failure the allocator
    /// is unchanged.
    pub fn allocate(&mut self, layout: Layout) -> (r: Option<usize>)
        requires
            old(self)@.wf(),
            layout.wf(),
        ensures
            final(self)@.wf(),
            bump_alloc_post(old(self)@, final(self)@, layout, r),
    {
        proof {
            lemma_power_of_two_pos(layout.align as int);
            lemma_align_up(self.next as int, layout.align as int);
            vstd::arithmetic::div_mod::lemma_mod_division_less_than_divisor(
                self.next as int,
                layout.align as int,
            );
        }
        let rem = self.next % layout.align;
        let alloc_start = if rem == 0 {
            self.next
        } else {
            match self.next.checked_add(layout.align - rem) {
                Some(v) => v,
                None => {
                    return None;
                },
            }
        };
        let alloc_end = match alloc_start.checked_add(layout.size) {
            Some(v) => v,
            None => {
                return None;
            },
        };
        if alloc_end > self.heap_end {
            None
        } else {
            proof {
                broadcast use axiom_set_insert_len;
                broadcast use lemma_set_insert_finite_iff;

                let m0 = self@;
                assert forall|a: nat| #[trigger] m0.live.dom().contains(a)
                    implies ranges_disjoint(
                    a,
                    m0.live[a],
                    alloc_start as nat,
                    layout.size as nat,
                ) by {
                    assert(a + m0.live[a] <= m0.next);
                }
            }
            self.next = alloc_end;
            self.allocations = self.allocations + 1;
            self.live = Ghost(self.live@.insert(alloc_start as nat, layout.size as nat));
            proof {
                let m0 = old(self)@;
                let m1 = self@;
                assert forall|a1: nat, a2: nat|
                    m1.live.dom().contains(a1) && m1.live.dom().contains(a2) && a1 != a2
                        implies #[trigger] ranges_disjoint(
                    a1,
                    m1.live[a1],
                    a2,
                    m1.live[a2],
                ) by {
                    if a1 != alloc_start as nat && a2 != alloc_start as nat {
                        assert(ranges_disjoint(a1, m0.live[a1], a2, m0.live[a2]));
                    }
                }
            }
            Some(alloc_start)
        }
    }

    /// Frees one outstanding allocation.
    ///
    /// The address and layout must match a previous successful `allocate`
    /// that has not been freed since.  The strategy cannot reclaim the
    /// individual block: it only counts the outstanding allocations down,
    /// and rewinds the bump pointer to the start of the heap when the last
    /// one is gone.
    pub fn deallocate(&mut self, addr: usize, layout: Layout)
        requires
            old(self)@.wf(),
            old(self)@.live.contains_pair(addr as nat, layout.size as nat),
        ensures
            final(self)@.wf(),
            bump_dealloc_post(old(self)@, final(self)@, addr, layout),
    {
        proof {
            broadcast use axiom_set_remove_len;
            broadcast use lemma_set_remove_finite_iff;

            self.live@.lemma_remove_key_len(addr as nat);
        }
        self.live = Ghost(self.live@.remove(addr as nat));
        self.allocations = self.allocations - 1;
        if self.allocations == 0 {
            proof {
                self.live@.dom().lemma_len0_is_empty();
            }
            self.next = self.heap_start;
        }
    }

    /// The address the next allocation attempt starts from.
    pub fn next(&self) -> (r: usize)
        ensures
            r == self@.next,
    {
        self.next
    }

    /// How many allocations are outstanding.
    pub fn allocations(&self) -> (r: usize)
        ensures
            r == self@.allocations,
    {
        self.allocations
    }
}

/// Any two distinct outstanding allocations of a bump allocator occupy
/// disjoint byte ranges.
pub proof fn lemma_bump_live_disjoint(m: BumpModel, a1: nat, a2: nat)
    requires
        m.wf(),
        m.live.dom().contains(a1),
        m.live.dom().contains(a2),
        a1 != a2,
    ensures
        ranges_disjoint(a1, m.live[a1], a2, m.live[a2]),
{
}

} // verus!
