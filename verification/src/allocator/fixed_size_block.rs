//! The segregated fixed-size-block strategy: size-classed free lists with a
//! first-fit fallback.
//!
//! Requests are rounded up to a fixed set of block sizes; each size class
//! keeps its own list of free blocks, reused in last-in-first-out order in
//! constant time.  When a class list is empty, a fresh block of the class
//! size (aligned to the class size, so that any natural alignment request up
//! to that size is satisfied) is carved out of the fallback allocator, a
//! first-fit free list over the rest of the heap.  Oversized requests go to
//! the fallback directly.  Freed class blocks go back onto their class list
//! and stay with their class forever.

use vstd::prelude::*;

use crate::allocator::Layout;
use crate::allocator::is_power_of_two;
use crate::allocator::lemma_pow2_divides;
use crate::allocator::lemma_divides_transitive;
use crate::allocator::lemma_power_of_two_pos;
use crate::allocator::lemma_small_powers_of_two;
use crate::allocator::ranges_disjoint;
use crate::allocator::spec_align_up;

use crate::allocator::linked_list::ListAllocator;
use crate::allocator::linked_list::ListModel;
use crate::allocator::linked_list::NODE_SIZE;
use crate::allocator::linked_list::adjusted_size;
use crate::allocator::linked_list::list_alloc_post;
use crate::allocator::linked_list::list_dealloc_post;

verus! {

/// How many size classes there are.
pub const BLOCK_CLASS_COUNT: usize = 8;

/// The block sizes of the size classes, ascending.
pub open spec fn spec_block_sizes() -> Seq<int> {
    seq![8int, 16, 32, 64, 128, 256, 512, 1024]
}

/// The class that serves a request of `size` bytes: the smallest class whose
/// block size is at least `size`, or nothing when even the largest class is
/// too small.
pub open spec fn spec_list_index(size: nat) -> Option<int> {
    if size <= 8 {
        Some(0int)
    } else if size <= 16 {
        Some(1int)
    } else if size <= 32 {
        Some(2int)
    } else if size <= 64 {
        Some(3int)
    } else if size <= 128 {
        Some(4int)
    } else if size <= 256 {
        Some(5int)
    } else if size <= 512 {
        Some(6int)
    } else if size <= 1024 {
        Some(7int)
    } else {
        None
    }
}

/// The class whose block size is exactly `s`, if `s` is a class size.
pub open spec fn spec_size_class(s: int) -> Option<int> {
    if s == 8 {
        Some(0int)
    } else if s == 16 {
        Some(1int)
    } else if s == 32 {
        Some(2int)
    } else if s == 64 {
        Some(3int)
    } else if s == 128 {
        Some(4int)
    } else if s == 256 {
        Some(5int)
    } else if s == 512 {
        Some(6int)
    } else if s == 1024 {
        Some(7int)
    } else {
        None
    }
}

/// The layout with which a fresh block of class `i` is carved out of the
/// fallback allocator: the class size, aligned to the class size.
pub open spec fn block_layout(i: int) -> Layout {
    Layout {
        size: spec_block_sizes()[i] as usize,
        align: spec_block_sizes()[i] as usize,
    }
}

/// How many bytes the fallback allocator actually carves out for a block of
/// class `i`: the class size, or the fallback's minimum region size for the
/// classes smaller than that.
pub open spec fn carved_size(i: int) -> int {
    if spec_block_sizes()[i] < NODE_SIZE {
        NODE_SIZE as int
    } else {
        spec_block_sizes()[i]
    }
}

/// The block size a successful allocation of `layout` is recorded with: the
/// class size when a class serves it, the fallback's padded size otherwise.
/// A matching deallocation finds the block under this size.
pub open spec fn fsb_owned_size(layout: Layout) -> int {
    match spec_list_index(layout.size as nat) {
        Some(i) => spec_block_sizes()[i],
        None => adjusted_size(layout),
    }
}

/// The class layouts are valid layouts, and their fallback padding is
/// exactly `carved_size` with the class size as alignment.
pub proof fn lemma_block_layout(i: int)
    requires
        0 <= i < BLOCK_CLASS_COUNT,
    ensures
        block_layout(i).wf(),
        adjusted_size(block_layout(i)) == carved_size(i),
        crate::allocator::linked_list::adjusted_align(block_layout(i)) == spec_block_sizes()[i],
        spec_size_class(spec_block_sizes()[i]) == Some(i),
        NODE_SIZE <= carved_size(i) <= 1024,
        spec_block_sizes()[i] <= carved_size(i),
{
    lemma_small_powers_of_two();
    let bs = spec_block_sizes()[i];
    vstd::arithmetic::div_mod::lemma_mod_self_0(bs);
    assert(spec_align_up(bs, bs) == bs);
}

/// The mathematical state of a segregated fixed-size-block allocator: the
/// per-class free lists (each a stack whose last element is the head), the
/// fallback allocator's state, and the outstanding allocations as a map from
/// start address to recorded block size.
pub ghost struct FsbModel {
    pub lists: Seq<Seq<usize>>,
    pub fallback: ListModel,
    pub live: Map<nat, nat>,
}

impl FsbModel {
    /// The state a freshly constructed, not yet initialized allocator is in.
    pub open spec fn empty() -> FsbModel {
        FsbModel {
            lists: Seq::new(BLOCK_CLASS_COUNT as nat, |i: int| Seq::empty()),
            fallback: ListModel::empty(),
            live: Map::empty(),
        }
    }

    /// One outstanding allocation is accounted for: a class block is backed
    /// by a carved fallback block of its class and aligned to its class
    /// size; an oversized block is backed by a fallback block of exactly its
    /// recorded size.
    pub open spec fn live_entry_wf(self, a: nat) -> bool {
        match spec_size_class(self.live[a] as int) {
            Some(i) => {
                &&& self.fallback.live.contains_pair(a, carved_size(i) as nat)
                &&& a as int % spec_block_sizes()[i] == 0
            },
            None => {
                &&& self.fallback.live.contains_pair(a, self.live[a])
                &&& self.live[a] > 1024
            },
        }
    }

    /// The strategy's invariant: the fallback is well-formed; every block on
    /// a class list is backed by a carved fallback block of its class and
    /// aligned to the class size; no address appears twice across the class
    /// lists and the outstanding allocations; and every outstanding
    /// allocation is accounted for.
    pub open spec fn wf(self) -> bool {
        &&& self.lists.len() == BLOCK_CLASS_COUNT
        &&& self.fallback.wf()
        &&& forall|i: int, j: int|
            #![trigger self.lists[i][j]]
            0 <= i < BLOCK_CLASS_COUNT && 0 <= j < self.lists[i].len() ==> {
                &&& self.fallback.live.contains_pair(
                    self.lists[i][j] as nat,
                    carved_size(i) as nat,
                )
                &&& self.lists[i][j] as int % spec_block_sizes()[i] == 0
                &&& !self.live.dom().contains(self.lists[i][j] as nat)
            }
        &&& forall|i1: int, j1: int, i2: int, j2: int|
            #![trigger self.lists[i1][j1], self.lists[i2][j2]]
            0 <= i1 < BLOCK_CLASS_COUNT && 0 <= j1 < self.lists[i1].len() && 0 <= i2
                < BLOCK_CLASS_COUNT && 0 <= j2 < self.lists[i2].len() && (i1 != i2 || j1 != j2)
                ==> self.lists[i1][j1] != self.lists[i2][j2]
        &&& forall|a: nat| #[trigger] self.live.dom().contains(a) ==> self.live_entry_wf(a)
    }
}

/// How a segregated allocator's state after a successful or failed
/// allocation relates to its state before it.  A request with a class is
/// served from the head of the class list when the list is nonempty;
/// otherwise a fresh block of the class size is carved from the fallback.  A
/// request too large for every class goes to the fallback with its own
/// layout.  A failure (only possible on the fallback paths) changes nothing.
pub open spec fn fsb_alloc_post(
    pre: FsbModel,
    post: FsbModel,
    layout: Layout,
    r: Option<usize>,
) -> bool {
    match spec_list_index(layout.size as nat) {
        Some(i) => {
            if pre.lists[i].len() > 0 {
                &&& r == Some(pre.lists[i].last())
                &&& post.lists == pre.lists.update(i, pre.lists[i].drop_last())
                &&& post.fallback == pre.fallback
                &&& post.live == pre.live.insert(
                    pre.lists[i].last() as nat,
                    spec_block_sizes()[i] as nat,
                )
            } else {
                &&& post.lists == pre.lists
                &&& list_alloc_post(pre.fallback, post.fallback, block_layout(i), r)
                &&& match r {
                    Some(addr) => post.live == pre.live.insert(
                        addr as nat,
                        spec_block_sizes()[i] as nat,
                    ),
                    None => post.live == pre.live,
                }
            }
        },
        None => {
            &&& post.lists == pre.lists
            &&& list_alloc_post(pre.fallback, post.fallback, layout, r)
            &&& match r {
                Some(addr) => post.live == pre.live.insert(
                    addr as nat,
                    adjusted_size(layout) as nat,
                ),
                None => post.live == pre.live,
            }
        },
    }
}

/// How a segregated allocator's state after a deallocation relates to its
/// state before it: a class block is pushed onto the head of its class list
/// in constant time; an oversized block goes back to the fallback.
pub open spec fn fsb_dealloc_post(
    pre: FsbModel,
    post: FsbModel,
    addr: usize,
    layout: Layout,
) -> bool {
    match spec_list_index(layout.size as nat) {
        Some(i) => {
            &&& post.lists == pre.lists.update(i, pre.lists[i].push(addr))
            &&& post.fallback == pre.fallback
            &&& post.live == pre.live.remove(addr as nat)
        },
        None => {
            &&& post.lists == pre.lists
            &&& list_dealloc_post(pre.fallback, post.fallback, addr, layout)
            &&& post.live == pre.live.remove(addr as nat)
        },
    }
}

/// The block size of class `i`.
pub fn block_size(i: usize) -> (r: usize)
    requires
        i < BLOCK_CLASS_COUNT,
    ensures
        r as int == spec_block_sizes()[i as int],
{
    match i {
        0 => 8,
        1 => 16,
        2 => 32,
        3 => 64,
        4 => 128,
        5 => 256,
        6 => 512,
        _ => 1024,
    }
}

/// The index of the smallest class whose block size is at least the
/// requested size; nothing when the request is larger than every class.
/// The requested alignment plays no part in the choice.
pub fn list_index(layout: &Layout) -> (r: Option<usize>)
    ensures
        match r {
            Some(i) => spec_list_index(layout.size as nat) == Some(i as int),
            None => spec_list_index(layout.size as nat) is None,
        },
{
    if layout.size <= 8 {
        Some(0)
    } else if layout.size <= 16 {
        Some(1)
    } else if layout.size <= 32 {
        Some(2)
    } else if layout.size <= 64 {
        Some(3)
    } else if layout.size <= 128 {
        Some(4)
    } else if layout.size <= 256 {
        Some(5)
    } else if layout.size <= 512 {
        Some(6)
    } else if layout.size <= 1024 {
        Some(7)
    } else {
        None
    }
}

/// The class found by `spec_list_index` really is the smallest sufficient
/// one: its block size covers the request and every smaller class is too
/// small; and only requests beyond the largest class have no class.
pub proof fn lemma_list_index_props(size: nat)
    ensures
        match spec_list_index(size) {
            Some(i) => {
                &&& 0 <= i < BLOCK_CLASS_COUNT
                &&& spec_block_sizes()[i] >= size
                &&& forall|j: int| 0 <= j < i ==> #[trigger] spec_block_sizes()[j] < size
            },
            None => size > 1024,
        },
{
}

/// The segregated fixed-size-block strategy.
pub struct FixedSizeBlockAllocator {
    list_heads: Vec<Vec<usize>>,
    fall_back_allocator: ListAllocator,
    live: Ghost<Map<nat, nat>>,
}

impl View for FixedSizeBlockAllocator {
    type V = FsbModel;

    closed spec fn view(&self) -> FsbModel {
        FsbModel {
            lists: self.list_heads@.map_values(|v: Vec<usize>| v@),
            fallback: self.fall_back_allocator@,
            live: self.live@,
        }
    }
}

impl FixedSizeBlockAllocator {
    /// Creates an empty allocator: every class list is empty and the
    /// fallback has no heap yet.
    pub fn new() -> (r: FixedSizeBlockAllocator)
        ensures
            r@ == FsbModel::empty(),
            r@.wf(),
    {
        let mut list_heads: Vec<Vec<usize>> = Vec::new();
        while list_heads.len() < BLOCK_CLASS_COUNT
            invariant
                forall|k: int|
                    0 <= k < list_heads@.len() ==> (#[trigger] list_heads@[k])@ == Seq::<
                        usize,
                    >::empty(),
                list_heads@.len() <= BLOCK_CLASS_COUNT,
            decreases BLOCK_CLASS_COUNT - list_heads@.len(),
        {
            list_heads.push(Vec::new());
        }
        let r = FixedSizeBlockAllocator {
            list_heads,
            fall_back_allocator: ListAllocator::new(),
            live: Ghost(Map::empty()),
        };
        proof {
            assert(r@.lists =~~= FsbModel::empty().lists);
            assert(r@ == FsbModel::empty());
        }
        r
    }

    /// Initializes the allocator by handing the whole heap to the fallback;
    /// the class lists start empty and fill as blocks are freed.
    ///
    /// Must be called exactly once, before any allocation, with a mapped,
    /// writable, otherwise unused region whose start the page-mapping layer
    /// aligned to a page boundary.
    pub fn init(&mut self, heap_start: usize, heap_size: usize)
        requires
            old(self)@ == FsbModel::empty(),
            heap_start % 4096 == 0,
            heap_size >= NODE_SIZE,
            heap_start + heap_size <= usize::MAX,
        ensures
            final(self)@.wf(),
            final(self)@.lists == old(self)@.lists,
            final(self)@.live == old(self)@.live,
            final(self)@.fallback == (ListModel {
                heap_start: heap_start as nat,
                heap_end: (heap_start + heap_size) as nat,
                free: seq![
                    crate::allocator::linked_list::ListNode { size: heap_size, addr: heap_start },
                ],
                live: Map::empty(),
            }),
    {
        self.fall_back_allocator.init(heap_start, heap_size);
    }

    /// Serves a request from the fallback allocator with the given layout.
    pub fn fallback_alloc(&mut self, layout: Layout) -> (r: Option<usize>)
        requires
            old(self)@.wf(),
            layout.wf(),
        ensures
            final(self)@.wf(),
            final(self)@.lists == old(self)@.lists,
            final(self)@.live == old(self)@.live,
            list_alloc_post(old(self)@.fallback, final(self)@.fallback, layout, r),
    {
        let r = self.fall_back_allocator.allocate(layout);
        proof {
            let m0 = old(self)@;
            let m1 = self@;
            if r is Some {
                let addr = r.unwrap() as nat;
                assert forall|i: int, j: int|
                    #![trigger m1.lists[i][j]]
                    0 <= i < BLOCK_CLASS_COUNT && 0 <= j < m1.lists[i].len() implies {
                    &&& m1.fallback.live.contains_pair(m1.lists[i][j] as nat, carved_size(i) as nat)
                    &&& m1.lists[i][j] as int % spec_block_sizes()[i] == 0
                    &&& !m1.live.dom().contains(m1.lists[i][j] as nat)
                } by {
                    assert(m0.fallback.live.contains_pair(
                        m0.lists[i][j] as nat,
                        carved_size(i) as nat,
                    ));
                }
                assert forall|a: nat| #[trigger] m1.live.dom().contains(a) implies
                    m1.live_entry_wf(a) by {
                    assert(m0.live.dom().contains(a));
                    assert(m0.live_entry_wf(a));
                }
            }
        }
        r
    }

    /// Serves a request: a request with a class is served from the class's
    /// free list in constant time when a block is there, and from a freshly
    /// carved class-sized, class-aligned block otherwise; an oversized
    /// request goes to the fallback with its own layout.  Fails exactly when
    /// the path through the fallback finds no fitting region; on failure the
    /// allocator is unchanged.
    pub fn allocate(&mut self, layout: Layout) -> (r: Option<usize>)
        requires
            old(self)@.wf(),
            layout.wf(),
        ensures
            final(self)@.wf(),
            fsb_alloc_post(old(self)@, final(self)@, layout, r),
            match r {
                Some(addr) => match spec_list_index(layout.size as nat) {
                    Some(i) => {
                        &&& addr as int % spec_block_sizes()[i] == 0
                        &&& layout.align <= spec_block_sizes()[i] ==> addr as int
                            % layout.align as int == 0
                    },
                    None => addr as int % layout.align as int == 0,
                },
                None => true,
            },
    {
        let ghost m0 = self@;
        match list_index(&layout) {
            Some(index) => {
                let ghost i = index as int;
                proof {
                    lemma_block_layout(i);
                    lemma_list_index_props(layout.size as nat);
                }
                if self.list_heads[index].len() > 0 {
                    let block = self.list_heads[index].pop().unwrap();
                    proof {
                        assert(m0.lists[i] == self.list_heads@[i]@.push(block));
                        assert(self@.lists =~~= m0.lists.update(i, m0.lists[i].drop_last()));
                        assert(block == m0.lists[i].last());
                        assert(m0.fallback.live.contains_pair(block as nat, carved_size(i) as nat));
                    }
                    self.live = Ghost(self.live@.insert(block as nat, spec_block_sizes()[i] as nat));
                    proof {
                        self.lemma_wf_after_class_take(m0, i, block);
                        lemma_divides_block_align(block as int, layout.align as int, i);
                    }
                    Some(block)
                } else {
                    let size = block_size(index);
                    let block_lay = Layout::new(size, size);
                    let r = self.fallback_alloc(block_lay);
                    match r {
                        Some(addr) => {
                            proof {
                                assert(list_alloc_post(
                                    m0.fallback,
                                    self@.fallback,
                                    block_layout(i),
                                    Some(addr),
                                ));
                            }
                            self.live = Ghost(
                                self.live@.insert(addr as nat, spec_block_sizes()[i] as nat),
                            );
                            proof {
                                self.lemma_wf_after_carve(m0, i, addr);
                                lemma_divides_block_align(addr as int, layout.align as int, i);
                            }
                            Some(addr)
                        },
                        None => None,
                    }
                }
            },
            None => {
                let r = self.fallback_alloc(layout);
                match r {
                    Some(addr) => {
                        proof {
                            lemma_list_index_props(layout.size as nat);
                        }
                        self.live = Ghost(
                            self.live@.insert(addr as nat, adjusted_size(layout) as nat),
                        );
                        proof {
                            self.lemma_wf_after_oversize(m0, addr, layout);
                        }
                        Some(addr)
                    },
                    None => None,
                }
            },
        }
    }

    /// After taking the head block of class `i` and recording it as
    /// outstanding, the invariant still holds.
    proof fn lemma_wf_after_class_take(self, m0: FsbModel, i: int, block: usize)
        requires
            m0.wf(),
            0 <= i < BLOCK_CLASS_COUNT,
            m0.lists[i].len() > 0,
            block == m0.lists[i].last(),
            self@.lists == m0.lists.update(i, m0.lists[i].drop_last()),
            self@.fallback == m0.fallback,
            self@.live == m0.live.insert(block as nat, spec_block_sizes()[i] as nat),
        ensures
            self@.wf(),
    {
        let m1 = self@;
        lemma_block_layout(i);
        assert(m0.lists[i][m0.lists[i].len() - 1] == block);
        assert forall|i2: int, j2: int|
            #![trigger m1.lists[i2][j2]]
            0 <= i2 < BLOCK_CLASS_COUNT && 0 <= j2 < m1.lists[i2].len() implies {
            &&& m1.fallback.live.contains_pair(m1.lists[i2][j2] as nat, carved_size(i2) as nat)
            &&& m1.lists[i2][j2] as int % spec_block_sizes()[i2] == 0
            &&& !m1.live.dom().contains(m1.lists[i2][j2] as nat)
        } by {
            assert(m1.lists[i2][j2] == m0.lists[i2][j2]);
            assert(m0.fallback.live.contains_pair(m0.lists[i2][j2] as nat, carved_size(i2) as nat));
            assert(m0.lists[i2][j2] != m0.lists[i][m0.lists[i].len() - 1]);
        }
        assert forall|i1: int, j1: int, i2: int, j2: int|
            #![trigger m1.lists[i1][j1], m1.lists[i2][j2]]
            0 <= i1 < BLOCK_CLASS_COUNT && 0 <= j1 < m1.lists[i1].len() && 0 <= i2
                < BLOCK_CLASS_COUNT && 0 <= j2 < m1.lists[i2].len() && (i1 != i2 || j1 != j2)
            implies m1.lists[i1][j1] != m1.lists[i2][j2] by {
            assert(m1.lists[i1][j1] == m0.lists[i1][j1]);
            assert(m1.lists[i2][j2] == m0.lists[i2][j2]);
        }
        assert forall|a: nat| #[trigger] m1.live.dom().contains(a) implies m1.live_entry_wf(a) by {
            if a == block as nat {
                assert(spec_size_class(spec_block_sizes()[i]) == Some(i));
            } else {
                assert(m0.live.dom().contains(a));
                assert(m0.live_entry_wf(a));
            }
        }
    }

    /// After carving a fresh class block out of the fallback and recording
    /// it as outstanding, the invariant still holds.
    proof fn lemma_wf_after_carve(self, m0: FsbModel, i: int, addr: usize)
        requires
            m0.wf(),
            0 <= i < BLOCK_CLASS_COUNT,
            self@.lists == m0.lists,
            self@.fallback.wf(),
            list_alloc_post(m0.fallback, self@.fallback, block_layout(i), Some(addr)),
            self@.live == m0.live.insert(addr as nat, spec_block_sizes()[i] as nat),
        ensures
            self@.wf(),
            addr as int % spec_block_sizes()[i] == 0,
    {
        let m1 = self@;
        lemma_block_layout(i);
        assert(m1.fallback.live == m0.fallback.live.insert(addr as nat, carved_size(i) as nat));
        assert(!m0.fallback.live.dom().contains(addr as nat));
        assert forall|i2: int, j2: int|
            #![trigger m1.lists[i2][j2]]
            0 <= i2 < BLOCK_CLASS_COUNT && 0 <= j2 < m1.lists[i2].len() implies {
            &&& m1.fallback.live.contains_pair(m1.lists[i2][j2] as nat, carved_size(i2) as nat)
            &&& m1.lists[i2][j2] as int % spec_block_sizes()[i2] == 0
            &&& !m1.live.dom().contains(m1.lists[i2][j2] as nat)
        } by {
            assert(m0.fallback.live.contains_pair(m0.lists[i2][j2] as nat, carved_size(i2) as nat));
            assert(m0.lists[i2][j2] as nat != addr as nat);
        }
        assert forall|a: nat| #[trigger] m1.live.dom().contains(a) implies m1.live_entry_wf(a) by {
            if a == addr as nat {
                assert(spec_size_class(spec_block_sizes()[i]) == Some(i));
            } else {
                assert(m0.live.dom().contains(a));
                assert(m0.live_entry_wf(a));
                assert(a != addr as nat);
            }
        }
    }

    /// After serving an oversized request from the fallback and recording it
    /// as outstanding, the invariant still holds.
    proof fn lemma_wf_after_oversize(self, m0: FsbModel, addr: usize, layout: Layout)
        requires
            m0.wf(),
            layout.wf(),
            spec_list_index(layout.size as nat) is None,
            self@.lists == m0.lists,
            self@.fallback.wf(),
            list_alloc_post(m0.fallback, self@.fallback, layout, Some(addr)),
            self@.live == m0.live.insert(addr as nat, adjusted_size(layout) as nat),
        ensures
            self@.wf(),
    {
        let m1 = self@;
        lemma_list_index_props(layout.size as nat);
        crate::allocator::linked_list::lemma_adjusted_size_bounds(layout);
        assert(m1.fallback.live == m0.fallback.live.insert(
            addr as nat,
            adjusted_size(layout) as nat,
        ));
        assert(!m0.fallback.live.dom().contains(addr as nat));
        assert forall|i2: int, j2: int|
            #![trigger m1.lists[i2][j2]]
            0 <= i2 < BLOCK_CLASS_COUNT && 0 <= j2 < m1.lists[i2].len() implies {
            &&& m1.fallback.live.contains_pair(m1.lists[i2][j2] as nat, carved_size(i2) as nat)
            &&& m1.lists[i2][j2] as int % spec_block_sizes()[i2] == 0
            &&& !m1.live.dom().contains(m1.lists[i2][j2] as nat)
        } by {
            assert(m0.fallback.live.contains_pair(m0.lists[i2][j2] as nat, carved_size(i2) as nat));
            assert(m0.lists[i2][j2] as nat != addr as nat);
        }
        assert forall|a: nat| #[trigger] m1.live.dom().contains(a) implies m1.live_entry_wf(a) by {
            if a == addr as nat {
                assert(adjusted_size(layout) > 1024);
                assert(spec_size_class(adjusted_size(layout)) is None);
            } else {
                assert(m0.live.dom().contains(a));
                assert(m0.live_entry_wf(a));
            }
        }
    }

    /// Frees one outstanding allocation.
    ///
    /// The address and layout must match a previous successful `allocate`
    /// that has not been freed since.  A block with a class goes back onto
    /// the head of its class list in constant time and stays with its class;
    /// an oversized block goes back to the fallback.
    pub fn deallocate(&mut self, addr: usize, layout: Layout)
        requires
            old(self)@.wf(),
            layout.wf(),
            old(self)@.live.contains_pair(addr as nat, fsb_owned_size(layout) as nat),
        ensures
            final(self)@.wf(),
            fsb_dealloc_post(old(self)@, final(self)@, addr, layout),
    {
        let ghost m0 = self@;
        match list_index(&layout) {
            Some(index) => {
                let ghost i = index as int;
                proof {
                    lemma_block_layout(i);
                    assert(m0.live_entry_wf(addr as nat));
                    assert(m0.live[addr as nat] == spec_block_sizes()[i] as nat);
                    assert(spec_size_class(m0.live[addr as nat] as int) == Some(i));
                }
                self.list_heads[index].push(addr);
                self.live = Ghost(self.live@.remove(addr as nat));
                proof {
                    let m1 = self@;
                    assert(m1.lists =~~= m0.lists.update(i, m0.lists[i].push(addr)));
                    assert forall|i2: int, j2: int|
                        #![trigger m1.lists[i2][j2]]
                        0 <= i2 < BLOCK_CLASS_COUNT && 0 <= j2 < m1.lists[i2].len() implies {
                        &&& m1.fallback.live.contains_pair(
                            m1.lists[i2][j2] as nat,
                            carved_size(i2) as nat,
                        )
                        &&& m1.lists[i2][j2] as int % spec_block_sizes()[i2] == 0
                        &&& !m1.live.dom().contains(m1.lists[i2][j2] as nat)
                    } by {
                        if i2 == i && j2 == m0.lists[i].len() {
                            assert(m1.lists[i2][j2] == addr);
                        } else {
                            assert(m1.lists[i2][j2] == m0.lists[i2][j2]);
                            assert(m0.fallback.live.contains_pair(
                                m0.lists[i2][j2] as nat,
                                carved_size(i2) as nat,
                            ));
                            assert(!m0.live.dom().contains(m0.lists[i2][j2] as nat));
                        }
                    }
                    assert forall|i1: int, j1: int, i2: int, j2: int|
                        #![trigger m1.lists[i1][j1], m1.lists[i2][j2]]
                        0 <= i1 < BLOCK_CLASS_COUNT && 0 <= j1 < m1.lists[i1].len() && 0 <= i2
                            < BLOCK_CLASS_COUNT && 0 <= j2 < m1.lists[i2].len() && (i1 != i2 || j1
                            != j2) implies m1.lists[i1][j1] != m1.lists[i2][j2] by {
                        if i1 == i && j1 == m0.lists[i].len() {
                            assert(m1.lists[i2][j2] == m0.lists[i2][j2]);
                            assert(!m0.live.dom().contains(m0.lists[i2][j2] as nat));
                        } else if i2 == i && j2 == m0.lists[i].len() {
                            assert(m1.lists[i1][j1] == m0.lists[i1][j1]);
                            assert(!m0.live.dom().contains(m0.lists[i1][j1] as nat));
                        } else {
                            assert(m1.lists[i1][j1] == m0.lists[i1][j1]);
                            assert(m1.lists[i2][j2] == m0.lists[i2][j2]);
                        }
                    }
                    assert forall|a: nat| #[trigger] m1.live.dom().contains(a) implies
                        m1.live_entry_wf(a) by {
                        assert(m0.live.dom().contains(a));
                        assert(m0.live_entry_wf(a));
                    }
                }
            },
            None => {
                proof {
                    assert(m0.live_entry_wf(addr as nat));
                    lemma_list_index_props(layout.size as nat);
                    crate::allocator::linked_list::lemma_adjusted_size_bounds(layout);
                    assert(spec_size_class(m0.live[addr as nat] as int) is None);
                    assert(m0.fallback.live.contains_pair(
                        addr as nat,
                        adjusted_size(layout) as nat,
                    ));
                }
                self.live = Ghost(self.live@.remove(addr as nat));
                self.fall_back_allocator.deallocate(addr, layout);
                proof {
                    let m1 = self@;
                    assert(m1.fallback.live == m0.fallback.live.remove(addr as nat));
                    assert forall|i2: int, j2: int|
                        #![trigger m1.lists[i2][j2]]
                        0 <= i2 < BLOCK_CLASS_COUNT && 0 <= j2 < m1.lists[i2].len() implies {
                        &&& m1.fallback.live.contains_pair(
                            m1.lists[i2][j2] as nat,
                            carved_size(i2) as nat,
                        )
                        &&& m1.lists[i2][j2] as int % spec_block_sizes()[i2] == 0
                        &&& !m1.live.dom().contains(m1.lists[i2][j2] as nat)
                    } by {
                        assert(m0.fallback.live.contains_pair(
                            m0.lists[i2][j2] as nat,
                            carved_size(i2) as nat,
                        ));
                        assert(!m0.live.dom().contains(m0.lists[i2][j2] as nat));
                        assert(m0.lists[i2][j2] as nat != addr as nat);
                    }
                    assert forall|a: nat| #[trigger] m1.live.dom().contains(a) implies
                        m1.live_entry_wf(a) by {
                        assert(m0.live.dom().contains(a));
                        assert(m0.live_entry_wf(a));
                        assert(a != addr as nat);
                    }
                }
            },
        }
    }
}

/// A block aligned to its class size satisfies any requested power-of-two
/// alignment up to that class size.
proof fn lemma_divides_block_align(addr: int, align: int, i: int)
    requires
        0 <= i < BLOCK_CLASS_COUNT,
        is_power_of_two(align),
        addr % spec_block_sizes()[i] == 0,
        addr >= 0,
    ensures
        align <= spec_block_sizes()[i] ==> addr % align == 0,
{
    lemma_small_powers_of_two();
    lemma_power_of_two_pos(align);
    if align <= spec_block_sizes()[i] {
        lemma_pow2_divides(align, spec_block_sizes()[i]);
        lemma_divides_transitive(addr, spec_block_sizes()[i], align);
    }
}

/// Any two distinct outstanding allocations of a segregated allocator
/// occupy disjoint byte ranges: each is backed by its own block of the
/// fallback allocator, and those are disjoint.
pub proof fn lemma_fsb_live_disjoint(m: FsbModel, a1: nat, a2: nat)
    requires
        m.wf(),
        m.live.dom().contains(a1),
        m.live.dom().contains(a2),
        a1 != a2,
    ensures
        ranges_disjoint(a1, m.live[a1], a2, m.live[a2]),
{
    assert(m.live_entry_wf(a1));
    assert(m.live_entry_wf(a2));
    let s1 = backing_size(m, a1);
    let s2 = backing_size(m, a2);
    assert(m.fallback.live.contains_pair(a1, s1));
    assert(m.fallback.live.contains_pair(a2, s2));
    assert(ranges_disjoint(a1, m.fallback.live[a1], a2, m.fallback.live[a2]));
    if spec_size_class(m.live[a1] as int) is Some {
        lemma_block_layout(spec_size_class(m.live[a1] as int).unwrap());
    }
    if spec_size_class(m.live[a2] as int) is Some {
        lemma_block_layout(spec_size_class(m.live[a2] as int).unwrap());
    }
}

/// The size of the fallback block that backs the outstanding allocation at
/// `a`: the carved size of its class, or its own recorded size when it is
/// oversized.
pub open spec fn backing_size(m: FsbModel, a: nat) -> nat {
    match spec_size_class(m.live[a] as int) {
        Some(i) => carved_size(i) as nat,
        None => m.live[a],
    }
}

/// Freeing two blocks of one class and then allocating from that class
/// twice returns the two addresses in reverse order of freeing: the class
/// lists are reused last-in-first-out.
pub proof fn lemma_segregated_lifo(
    m0: FsbModel,
    m1: FsbModel,
    m2: FsbModel,
    m3: FsbModel,
    m4: FsbModel,
    layout: Layout,
    x: usize,
    y: usize,
    r1: Option<usize>,
    r2: Option<usize>,
)
    requires
        spec_list_index(layout.size as nat) is Some,
        fsb_dealloc_post(m0, m1, x, layout),
        fsb_dealloc_post(m1, m2, y, layout),
        fsb_alloc_post(m2, m3, layout, r1),
        fsb_alloc_post(m3, m4, layout, r2),
        m0.lists.len() == BLOCK_CLASS_COUNT,
    ensures
        r1 == Some(y),
        r2 == Some(x),
{
    let i = spec_list_index(layout.size as nat).unwrap();
    lemma_list_index_props(layout.size as nat);
    assert(m2.lists[i] == m0.lists[i].push(x).push(y));
    assert(m2.lists[i].last() == y);
    assert(m3.lists[i] =~= m0.lists[i].push(x));
    assert(m3.lists[i].last() == x);
}

} // verus!
