//! The free-list strategy: first-fit allocation over a singly linked list of
//! free regions.
//!
//! In the running kernel the list is intrusive: each free region starts with
//! a node header (two machine words: the region's size and the link to the
//! next node) written into the freed memory itself.  Here the heap is
//! modeled explicitly, so a node carries its own start address, and the list
//! is a sequence whose first element is the list head.  Every layout is
//! first adjusted so that its size and alignment are compatible with the
//! node header, which guarantees that any freed region can later hold a
//! header again.  The set of outstanding allocations is ghost state; that no
//! free region and no outstanding allocation ever overlap is the strategy's
//! proved invariant.

use vstd::prelude::*;

use vstd::arithmetic::div_mod::lemma_mod_division_less_than_divisor;

use crate::allocator::Layout;
use crate::allocator::align_up;
use crate::allocator::is_power_of_two;
use crate::allocator::lemma_align_up;
use crate::allocator::lemma_divides_transitive;
use crate::allocator::lemma_pow2_divides;
use crate::allocator::lemma_power_of_two_pos;
use crate::allocator::lemma_small_powers_of_two;
use crate::allocator::ranges_disjoint;
use crate::allocator::spec_align_up;

verus! {

/// Size in bytes of the node header that a free region must be able to
/// hold: two machine words on the 64-bit target.
pub const NODE_SIZE: usize = 16;

/// Alignment in bytes of the node header.
pub const NODE_ALIGN: usize = 8;

/// One free region: `size` bytes starting at address `addr`.  In the
/// running kernel the header lives at `addr` itself; the address is made
/// explicit here.
#[derive(Debug, Clone, Copy, PartialEq, Eq, Structural)]
pub struct ListNode {
    pub size: usize,
    pub addr: usize,
}

impl ListNode {
    /// A node describing the `size` bytes starting at `addr`.
    pub fn new(addr: usize, size: usize) -> (r: ListNode)
        ensures
            r == (ListNode { size, addr }),
    {
        ListNode { size, addr }
    }

    /// The first address of the region.
    pub fn start_addr(&self) -> (r: usize)
        ensures
            r == self.addr,
    {
        self.addr
    }

    /// The first address past the region.
    pub fn end_addr(&self) -> (r: usize)
        requires
            self.addr + self.size <= usize::MAX,
        ensures
            r == self.addr + self.size,
    {
        self.addr + self.size
    }
}

/// The mathematical state of a free-list allocator: the heap bounds, the
/// free regions in list order (head first), and the outstanding allocations
/// as a map from start address to size.
pub ghost struct ListModel {
    pub heap_start: nat,
    pub heap_end: nat,
    pub free: Seq<ListNode>,
    pub live: Map<nat, nat>,
}

/// A region lies inside the heap, starts on a node-header boundary, and is
/// large enough to hold a node header.
pub open spec fn region_wf(heap_start: nat, heap_end: nat, addr: nat, size: nat) -> bool {
    &&& heap_start <= addr
    &&& addr + size <= heap_end
    &&& addr % (NODE_ALIGN as nat) == 0
    &&& size >= NODE_SIZE
}

impl ListModel {
    /// The state a freshly constructed, not yet initialized allocator is in.
    pub open spec fn empty() -> ListModel {
        ListModel { heap_start: 0, heap_end: 0, free: Seq::empty(), live: Map::empty() }
    }

    /// The strategy's invariant: every free region and every outstanding
    /// allocation is a well-formed region inside the heap, and no two of
    /// them (free or outstanding, in any combination) overlap.
    pub open spec fn wf(self) -> bool {
        &&& self.heap_start <= self.heap_end <= usize::MAX
        &&& forall|i: int|
            0 <= i < self.free.len() ==> region_wf(
                self.heap_start,
                self.heap_end,
                (#[trigger] self.free[i]).addr as nat,
                self.free[i].size as nat,
            )
        &&& forall|i: int, j: int|
            #![trigger self.free[i], self.free[j]]
            0 <= i < self.free.len() && 0 <= j < self.free.len() && i != j ==> ranges_disjoint(
                self.free[i].addr as nat,
                self.free[i].size as nat,
                self.free[j].addr as nat,
                self.free[j].size as nat,
            )
        &&& forall|a: nat| #[trigger]
            self.live.dom().contains(a) ==> region_wf(
                self.heap_start,
                self.heap_end,
                a,
                self.live[a],
            )
        &&& forall|a1: nat, a2: nat|
            self.live.dom().contains(a1) && self.live.dom().contains(a2) && a1 != a2
                ==> #[trigger] ranges_disjoint(a1, self.live[a1], a2, self.live[a2])
        &&& forall|i: int, a: nat|
            #![trigger self.free[i], self.live.dom().contains(a)]
            0 <= i < self.free.len() && self.live.dom().contains(a) ==> ranges_disjoint(
                self.free[i].addr as nat,
                self.free[i].size as nat,
                a,
                self.live[a],
            )
    }
}

/// Removing an outstanding allocation preserves the invariant.
proof fn lemma_wf_live_remove(m0: ListModel, m1: ListModel, key: nat)
    requires
        m0.wf(),
        m1.heap_start == m0.heap_start,
        m1.heap_end == m0.heap_end,
        m1.free == m0.free,
        m1.live == m0.live.remove(key),
    ensures
        m1.wf(),
{
    assert forall|a: nat| #[trigger] m1.live.dom().contains(a) implies region_wf(
        m1.heap_start,
        m1.heap_end,
        a,
        m1.live[a],
    ) by {
        assert(m0.live.dom().contains(a));
    }
    assert forall|a1: nat, a2: nat|
        m1.live.dom().contains(a1) && m1.live.dom().contains(a2) && a1 != a2
        implies #[trigger] ranges_disjoint(a1, m1.live[a1], a2, m1.live[a2]) by {
        assert(m0.live.dom().contains(a1));
        assert(m0.live.dom().contains(a2));
        assert(ranges_disjoint(a1, m0.live[a1], a2, m0.live[a2]));
    }
    assert forall|i: int, a: nat|
        #![trigger m1.free[i], m1.live.dom().contains(a)]
        0 <= i < m1.free.len() && m1.live.dom().contains(a) implies ranges_disjoint(
        m1.free[i].addr as nat,
        m1.free[i].size as nat,
        a,
        m1.live[a],
    ) by {
        assert(m0.live.dom().contains(a));
        assert(ranges_disjoint(m0.free[i].addr as nat, m0.free[i].size as nat, a, m0.live[a]));
    }
}

/// Recording a new outstanding allocation preserves the invariant, provided
/// the new block is a well-formed region disjoint from every free region and
/// every outstanding allocation.
proof fn lemma_wf_live_insert(m0: ListModel, m1: ListModel, key: nat, size: nat)
    requires
        m0.wf(),
        m1.heap_start == m0.heap_start,
        m1.heap_end == m0.heap_end,
        m1.free == m0.free,
        m1.live == m0.live.insert(key, size),
        region_wf(m0.heap_start, m0.heap_end, key, size),
        forall|i: int|
            0 <= i < m0.free.len() ==> ranges_disjoint(
                (#[trigger] m0.free[i]).addr as nat,
                m0.free[i].size as nat,
                key,
                size,
            ),
        forall|a: nat| #[trigger]
            m0.live.dom().contains(a) && a != key ==> ranges_disjoint(a, m0.live[a], key, size),
    ensures
        m1.wf(),
{
    assert forall|a: nat| #[trigger] m1.live.dom().contains(a) implies region_wf(
        m1.heap_start,
        m1.heap_end,
        a,
        m1.live[a],
    ) by {
        if a != key {
            assert(m0.live.dom().contains(a));
        }
    }
    assert forall|a1: nat, a2: nat|
        m1.live.dom().contains(a1) && m1.live.dom().contains(a2) && a1 != a2
        implies #[trigger] ranges_disjoint(a1, m1.live[a1], a2, m1.live[a2]) by {
        if a1 != key && a2 != key {
            assert(m0.live.dom().contains(a1));
            assert(m0.live.dom().contains(a2));
            assert(ranges_disjoint(a1, m0.live[a1], a2, m0.live[a2]));
        } else if a1 == key {
            assert(m0.live.dom().contains(a2));
        } else {
            assert(m0.live.dom().contains(a1));
        }
    }
    assert forall|i: int, a: nat|
        #![trigger m1.free[i], m1.live.dom().contains(a)]
        0 <= i < m1.free.len() && m1.live.dom().contains(a) implies ranges_disjoint(
        m1.free[i].addr as nat,
        m1.free[i].size as nat,
        a,
        m1.live[a],
    ) by {
        if a != key {
            assert(m0.live.dom().contains(a));
            assert(ranges_disjoint(m0.free[i].addr as nat, m0.free[i].size as nat, a, m0.live[a]));
        }
    }
}

/// The alignment a request is padded to: the larger of the requested
/// alignment and the node header's alignment.
pub open spec fn adjusted_align(layout: Layout) -> int {
    if layout.align >= NODE_ALIGN {
        layout.align as int
    } else {
        NODE_ALIGN as int
    }
}

/// The size a request is padded to: the requested size rounded up to the
/// adjusted alignment, and at least the size of a node header, so that the
/// block can later be freed and hold a header again.
pub open spec fn adjusted_size(layout: Layout) -> int {
    let padded = spec_align_up(layout.size as int, adjusted_align(layout));
    if padded >= NODE_SIZE {
        padded
    } else {
        NODE_SIZE as int
    }
}

/// The padded size covers the request, is at least the node size, and still
/// fits in the machine word.
pub proof fn lemma_adjusted_size_bounds(layout: Layout)
    requires
        layout.wf(),
    ensures
        adjusted_size(layout) >= layout.size,
        adjusted_size(layout) >= NODE_SIZE,
        adjusted_size(layout) <= usize::MAX,
{
    lemma_power_of_two_pos(layout.align as int);
    lemma_align_up(layout.size as int, adjusted_align(layout));
    lemma_align_up(layout.size as int, layout.align as int);
}

/// An allocation of `size` bytes aligned to `align` fits into the free
/// region `n`: the start address rounded up to the alignment plus the size
/// stays within the region.
pub open spec fn node_fits(n: ListNode, size: int, align: int) -> bool {
    spec_align_up(n.addr as int, align) + size <= n.addr + n.size
}

/// The index of the first region in list order that fits an allocation of
/// `size` bytes aligned to `align`, if any does.
pub open spec fn first_fit(free: Seq<ListNode>, size: int, align: int) -> Option<int>
    decreases free.len(),
{
    if free.len() == 0 {
        None
    } else if node_fits(free[0], size, align) {
        Some(0)
    } else {
        match first_fit(free.drop_first(), size, align) {
            Some(i) => Some(i + 1),
            None => None,
        }
    }
}

/// What `first_fit` returns: an index whose region fits and before which no
/// region fits, or nothing when no region fits.
pub proof fn lemma_first_fit_props(free: Seq<ListNode>, size: int, align: int)
    ensures
        match first_fit(free, size, align) {
            Some(i) => {
                &&& 0 <= i < free.len()
                &&& node_fits(free[i], size, align)
                &&& forall|j: int| 0 <= j < i ==> !node_fits(#[trigger] free[j], size, align)
            },
            None => forall|j: int|
                0 <= j < free.len() ==> !node_fits(#[trigger] free[j], size, align),
        },
    decreases free.len(),
{
    if free.len() == 0 {
    } else if node_fits(free[0], size, align) {
    } else {
        lemma_first_fit_props(free.drop_first(), size, align);
        assert forall|j: int| 1 <= j < free.len() implies free[j] == free.drop_first()[j - 1] by {
        }
    }
}

/// `first_fit` finds exactly the index at which the walk of the list stops:
/// a fitting region before which nothing fits.
pub proof fn lemma_first_fit_at(free: Seq<ListNode>, size: int, align: int, i: int)
    requires
        0 <= i < free.len(),
        node_fits(free[i], size, align),
        forall|j: int| 0 <= j < i ==> !node_fits(#[trigger] free[j], size, align),
    ensures
        first_fit(free, size, align) == Some(i),
    decreases i,
{
    if i == 0 {
    } else {
        assert(!node_fits(free[0], size, align));
        assert forall|j: int| 1 <= j < free.len() implies free[j] == free.drop_first()[j - 1] by {
        }
        lemma_first_fit_at(free.drop_first(), size, align, i - 1);
    }
}

/// When no region in the list fits, `first_fit` reports so.
pub proof fn lemma_first_fit_none(free: Seq<ListNode>, size: int, align: int)
    requires
        forall|j: int| 0 <= j < free.len() ==> !node_fits(#[trigger] free[j], size, align),
    ensures
        first_fit(free, size, align) is None,
    decreases free.len(),
{
    if free.len() == 0 {
    } else {
        assert(!node_fits(free[0], size, align));
        assert forall|j: int| 1 <= j < free.len() implies free[j] == free.drop_first()[j - 1] by {
        }
        lemma_first_fit_none(free.drop_first(), size, align);
    }
}

/// The free list after a successful allocation from the first fitting
/// region: the region is unlinked; if more than a node header's worth of
/// bytes remain past the allocation, they are pushed at the head as a new
/// free region, otherwise the whole region is consumed and the remainder is
/// absorbed as internal fragmentation.
pub open spec fn free_after_alloc(free: Seq<ListNode>, size: int, align: int) -> Seq<ListNode>
    recommends
        first_fit(free, size, align) is Some,
{
    let i = first_fit(free, size, align).unwrap();
    let n = free[i];
    let start = spec_align_up(n.addr as int, align);
    let excess = n.addr + n.size - (start + size);
    if excess >= NODE_SIZE {
        seq![ListNode { size: excess as usize, addr: (start + size) as usize }] + free.remove(i)
    } else {
        free.remove(i)
    }
}

/// How a free-list allocator's state after a successful or failed
/// allocation relates to its state before it: on success the returned
/// address is the start of the first fitting region rounded up to the
/// adjusted alignment, the list loses that region (keeping a large enough
/// remainder as a new head region), and the block becomes outstanding; on
/// failure (exactly when no region fits the adjusted request) nothing
/// changes.
pub open spec fn list_alloc_post(
    pre: ListModel,
    post: ListModel,
    layout: Layout,
    r: Option<usize>,
) -> bool {
    let size = adjusted_size(layout);
    let align = adjusted_align(layout);
    &&& post.heap_start == pre.heap_start
    &&& post.heap_end == pre.heap_end
    &&& match r {
        Some(addr) => {
            let i = first_fit(pre.free, size, align).unwrap();
            &&& first_fit(pre.free, size, align) is Some
            &&& addr == spec_align_up(pre.free[i].addr as int, align)
            &&& addr as int % layout.align as int == 0
            &&& pre.heap_start <= addr
            &&& addr + size <= pre.heap_end
            &&& !pre.live.dom().contains(addr as nat)
            &&& post.free == free_after_alloc(pre.free, size, align)
            &&& post.live == pre.live.insert(addr as nat, size as nat)
        },
        None => {
            &&& post == pre
            &&& first_fit(pre.free, size, align) is None
        },
    }
}

/// How a free-list allocator's state after a deallocation relates to its
/// state before it: the freed block, padded exactly as it was when it was
/// allocated, becomes the new head of the free list, and stops being
/// outstanding.  Physically adjacent free regions are not merged.
pub open spec fn list_dealloc_post(
    pre: ListModel,
    post: ListModel,
    addr: usize,
    layout: Layout,
) -> bool {
    &&& post.heap_start == pre.heap_start
    &&& post.heap_end == pre.heap_end
    &&& post.free == seq![ListNode { size: adjusted_size(layout) as usize, addr }] + pre.free
    &&& post.live == pre.live.remove(addr as nat)
}

/// The free-list strategy.
pub struct ListAllocator {
    free_list: Vec<ListNode>,
    heap_start: usize,
    heap_end: usize,
    live: Ghost<Map<nat, nat>>,
}

impl View for ListAllocator {
    type V = ListModel;

    closed spec fn view(&self) -> ListModel {
        ListModel {
            heap_start: self.heap_start as nat,
            heap_end: self.heap_end as nat,
            free: self.free_list@,
            live: self.live@,
        }
    }
}

impl ListAllocator {
    /// Creates an empty allocator.  The heap bounds arrive later through
    /// `init`, because only then is there memory to describe.
    pub fn new() -> (r: ListAllocator)
        ensures
            r@ == ListModel::empty(),
            r@.wf(),
    {
        ListAllocator {
            free_list: Vec::new(),
            heap_start: 0,
            heap_end: 0,
            live: Ghost(Map::empty()),
        }
    }

    /// Initializes the allocator: records the heap bounds and publishes the
    /// whole heap as one free region.
    ///
    /// Must be called exactly once, before any allocation, with a mapped,
    /// writable, otherwise unused region whose start the page-mapping layer
    /// aligned to a page boundary and which can hold at least one node
    /// header.
    pub fn init(&mut self, heap_start: usize, heap_size: usize)
        requires
            old(self)@ == ListModel::empty(),
            heap_start % 4096 == 0,
            heap_size >= NODE_SIZE,
            heap_start + heap_size <= usize::MAX,
        ensures
            final(self)@.wf(),
            final(self)@ == (ListModel {
                heap_start: heap_start as nat,
                heap_end: (heap_start + heap_size) as nat,
                free: seq![ListNode { size: heap_size, addr: heap_start }],
                live: Map::empty(),
            }),
    {
        self.heap_start = heap_start;
        self.heap_end = heap_start + heap_size;
        proof {
            lemma_divides_transitive(heap_start as int, 4096, NODE_ALIGN as int);
        }
        self.add_free_region(heap_start, heap_size);
        proof {
            assert(self@.free =~= seq![ListNode { size: heap_size, addr: heap_start }]);
        }
    }

    /// Pushes the region starting at `addr` with `size` bytes onto the head
    /// of the free list.  The region must be a well-formed node region and
    /// must not overlap any free region or outstanding allocation.
    fn add_free_region(&mut self, addr: usize, size: usize)
        requires
            old(self)@.wf(),
            region_wf(old(self)@.heap_start, old(self)@.heap_end, addr as nat, size as nat),
            forall|i: int|
                0 <= i < old(self)@.free.len() ==> ranges_disjoint(
                    (#[trigger] old(self)@.free[i]).addr as nat,
                    old(self)@.free[i].size as nat,
                    addr as nat,
                    size as nat,
                ),
            forall|a: nat| #[trigger]
                old(self)@.live.dom().contains(a) ==> ranges_disjoint(
                    a,
                    old(self)@.live[a],
                    addr as nat,
                    size as nat,
                ),
        ensures
            final(self)@.wf(),
            final(self)@.heap_start == old(self)@.heap_start,
            final(self)@.heap_end == old(self)@.heap_end,
            final(self)@.free == seq![ListNode { size, addr }] + old(self)@.free,
            final(self)@.live == old(self)@.live,
    {
        let node = ListNode::new(addr, size);
        self.free_list.insert(0, node);
        proof {
            assert(self@.free =~= seq![ListNode { size, addr }] + old(self)@.free);
            let m0 = old(self)@;
            let m1 = self@;
            assert forall|i: int| 0 <= i < m1.free.len() implies region_wf(
                m1.heap_start,
                m1.heap_end,
                (#[trigger] m1.free[i]).addr as nat,
                m1.free[i].size as nat,
            ) by {
                if i != 0 {
                    assert(m1.free[i] == m0.free[i - 1]);
                }
            }
            assert forall|i: int, j: int|
                #![trigger m1.free[i], m1.free[j]]
                0 <= i < m1.free.len() && 0 <= j < m1.free.len() && i != j implies ranges_disjoint(
                m1.free[i].addr as nat,
                m1.free[i].size as nat,
                m1.free[j].addr as nat,
                m1.free[j].size as nat,
            ) by {
                if i != 0 && j != 0 {
                    assert(m1.free[i] == m0.free[i - 1]);
                    assert(m1.free[j] == m0.free[j - 1]);
                } else if i == 0 {
                    assert(m1.free[j] == m0.free[j - 1]);
                } else {
                    assert(m1.free[i] == m0.free[i - 1]);
                }
            }
            assert forall|i: int, a: nat|
                #![trigger m1.free[i], m1.live.dom().contains(a)]
                0 <= i < m1.free.len() && m1.live.dom().contains(a) implies ranges_disjoint(
                m1.free[i].addr as nat,
                m1.free[i].size as nat,
                a,
                m1.live[a],
            ) by {
                assert(m0.live.dom().contains(a));
                if i != 0 {
                    assert(m1.free[i] == m0.free[i - 1]);
                    assert(ranges_disjoint(
                        m0.free[i - 1].addr as nat,
                        m0.free[i - 1].size as nat,
                        a,
                        m0.live[a],
                    ));
                }
            }
            assert forall|a: nat| #[trigger] m1.live.dom().contains(a) implies region_wf(
                m1.heap_start,
                m1.heap_end,
                a,
                m1.live[a],
            ) by {
                assert(m0.live.dom().contains(a));
            }
            assert forall|a1: nat, a2: nat|
                m1.live.dom().contains(a1) && m1.live.dom().contains(a2) && a1 != a2
                implies #[trigger] ranges_disjoint(a1, m1.live[a1], a2, m1.live[a2]) by {
                assert(m0.live.dom().contains(a1));
                assert(m0.live.dom().contains(a2));
                assert(ranges_disjoint(a1, m0.live[a1], a2, m0.live[a2]));
            }
        }
    }

    /// Tests whether an allocation of `size` bytes aligned to `align` fits
    /// in the given free region, and computes the aligned start address of
    /// the allocation inside it.  The request does not fit when the aligned
    /// start plus the size runs past the region's end (or past the address
    /// space).
    pub fn alloc_from_region(region: &ListNode, size: usize, align: usize) -> (r: Result<
        usize,
        (),
    >)
        requires
            is_power_of_two(align as int),
            region.addr + region.size <= usize::MAX,
        ensures
            match r {
                Ok(start) => {
                    &&& node_fits(*region, size as int, align as int)
                    &&& start == spec_align_up(region.addr as int, align as int)
                    &&& start as int % align as int == 0
                },
                Err(_) => !node_fits(*region, size as int, align as int),
            },
    {
        proof {
            lemma_power_of_two_pos(align as int);
            lemma_align_up(region.addr as int, align as int);
            lemma_mod_division_less_than_divisor(region.addr as int, align as int);
        }
        let rem = region.addr % align;
        let alloc_start = if rem == 0 {
            region.addr
        } else {
            match region.addr.checked_add(align - rem) {
                Some(v) => v,
                None => {
                    return Err(());
                },
            }
        };
        let alloc_end = match alloc_start.checked_add(size) {
            Some(v) => v,
            None => {
                return Err(());
            },
        };
        if alloc_end > region.addr + region.size {
            return Err(());
        }
        Ok(alloc_start)
    }

    /// Walks the free list from the head and unlinks the first region that
    /// fits an allocation of `size` bytes aligned to `align`, returning the
    /// unlinked region together with the aligned start address of the
    /// allocation inside it.  Returns nothing, and changes nothing, when no
    /// region fits.
    #[verifier::loop_isolation(false)]
    fn find_region(&mut self, size: usize, align: usize) -> (r: Option<(ListNode, usize)>)
        requires
            old(self)@.wf(),
            is_power_of_two(align as int),
        ensures
            final(self)@.heap_start == old(self)@.heap_start,
            final(self)@.heap_end == old(self)@.heap_end,
            final(self)@.live == old(self)@.live,
            match r {
                Some((node, start)) => {
                    let ff = first_fit(old(self)@.free, size as int, align as int);
                    &&& ff is Some
                    &&& 0 <= ff.unwrap() < old(self)@.free.len()
                    &&& node == old(self)@.free[ff.unwrap()]
                    &&& node_fits(node, size as int, align as int)
                    &&& start == spec_align_up(node.addr as int, align as int)
                    &&& start as int % align as int == 0
                    &&& final(self)@.free == old(self)@.free.remove(ff.unwrap())
                    &&& final(self)@.wf()
                },
                None => {
                    &&& final(self)@ == old(self)@
                    &&& first_fit(old(self)@.free, size as int, align as int) is None
                },
            },
    {
        proof {
            lemma_power_of_two_pos(align as int);
        }
        let ghost m0 = self@;
        let mut i: usize = 0;
        while i < self.free_list.len()
            invariant
                self@ == m0,
                i <= self.free_list.len(),
                forall|j: int|
                    0 <= j < i ==> !node_fits(#[trigger] m0.free[j], size as int, align as int),
            decreases self.free_list.len() - i,
        {
            let region = self.free_list[i];
            match Self::alloc_from_region(&region, size, align) {
                Ok(start) => {
                    proof {
                        lemma_first_fit_at(m0.free, size as int, align as int, i as int);
                    }
                    let node = self.free_list.remove(i);
                    proof {
                        m0.free.remove_ensures(i as int);
                        let m1 = self@;
                        assert forall|k: int|
                            0 <= k < m1.free.len() implies region_wf(
                            m1.heap_start,
                            m1.heap_end,
                            (#[trigger] m1.free[k]).addr as nat,
                            m1.free[k].size as nat,
                        ) by {
                            if k < i {
                                assert(m1.free[k] == m0.free[k]);
                            } else {
                                assert(m1.free[k] == m0.free[k + 1]);
                            }
                        }
                        assert forall|k: int, l: int|
                            #![trigger m1.free[k], m1.free[l]]
                            0 <= k < m1.free.len() && 0 <= l < m1.free.len() && k != l
                            implies ranges_disjoint(
                            m1.free[k].addr as nat,
                            m1.free[k].size as nat,
                            m1.free[l].addr as nat,
                            m1.free[l].size as nat,
                        ) by {
                            let k0: int = if k < i { k } else { k + 1 };
                            let l0: int = if l < i { l } else { l + 1 };
                            assert(m1.free[k] == m0.free[k0]);
                            assert(m1.free[l] == m0.free[l0]);
                        }
                        assert forall|k: int, a: nat|
                            #![trigger m1.free[k], m1.live.dom().contains(a)]
                            0 <= k < m1.free.len() && m1.live.dom().contains(a)
                            implies ranges_disjoint(
                            m1.free[k].addr as nat,
                            m1.free[k].size as nat,
                            a,
                            m1.live[a],
                        ) by {
                            let k0: int = if k < i { k } else { k + 1 };
                            assert(m1.free[k] == m0.free[k0]);
                            assert(m0.live.dom().contains(a));
                            assert(ranges_disjoint(
                                m0.free[k0].addr as nat,
                                m0.free[k0].size as nat,
                                a,
                                m0.live[a],
                            ));
                        }
                        assert forall|a: nat| #[trigger]
                            m1.live.dom().contains(a) implies region_wf(
                            m1.heap_start,
                            m1.heap_end,
                            a,
                            m1.live[a],
                        ) by {
                            assert(m0.live.dom().contains(a));
                        }
                        assert forall|a1: nat, a2: nat|
                            m1.live.dom().contains(a1) && m1.live.dom().contains(a2) && a1 != a2
                            implies #[trigger] ranges_disjoint(
                            a1,
                            m1.live[a1],
                            a2,
                            m1.live[a2],
                        ) by {
                            assert(m0.live.dom().contains(a1));
                            assert(m0.live.dom().contains(a2));
                            assert(ranges_disjoint(a1, m0.live[a1], a2, m0.live[a2]));
                        }
                    }
                    return Some((node, start));
                },
                Err(()) => {},
            }
            i = i + 1;
        }
        proof {
            lemma_first_fit_none(m0.free, size as int, align as int);
        }
        None
    }

    /// Pads a request so that it is compatible with the node header: the
    /// alignment becomes at least the header's alignment, the size is
    /// rounded up to that alignment and to at least the header's size.  The
    /// padded size and alignment are what the allocator actually carves out
    /// and what a later deallocation reconstructs.
    pub fn size_align(layout: Layout) -> (r: (usize, usize))
        requires
            layout.wf(),
        ensures
            r.0 == adjusted_size(layout),
            r.1 == adjusted_align(layout),
            r.0 >= NODE_SIZE,
            r.0 >= layout.size,
            r.0 as int % NODE_ALIGN as int == 0,
            r.1 >= NODE_ALIGN,
            is_power_of_two(r.1 as int),
            r.1 as int % layout.align as int == 0,
            r.1 as int % NODE_ALIGN as int == 0,
            layout.align <= r.1,
    {
        proof {
            lemma_small_powers_of_two();
            lemma_power_of_two_pos(layout.align as int);
        }
        let align = if layout.align < NODE_ALIGN {
            proof {
                // The node alignment is a multiple of the smaller requested
                // alignment, and of itself.
                lemma_pow2_divides(layout.align as int, NODE_ALIGN as int);
                vstd::arithmetic::div_mod::lemma_mod_self_0(NODE_ALIGN as int);
            }
            NODE_ALIGN
        } else {
            proof {
                // The larger requested alignment is a multiple of the node
                // alignment, and of itself.
                lemma_pow2_divides(NODE_ALIGN as int, layout.align as int);
                vstd::arithmetic::div_mod::lemma_mod_self_0(layout.align as int);
            }
            layout.align
        };
        proof {
            lemma_align_up(layout.size as int, align as int);
            lemma_align_up(layout.size as int, layout.align as int);
            if align == NODE_ALIGN {
                assert(spec_align_up(layout.size as int, align as int) <= layout.size + NODE_ALIGN);
            }
        }
        let padded = align_up(layout.size, align);
        let size = if padded < NODE_SIZE {
            NODE_SIZE
        } else {
            padded
        };
        proof {
            if padded >= NODE_SIZE {
                lemma_divides_transitive(size as int, align as int, NODE_ALIGN as int);
            }
            assert(NODE_SIZE as int % NODE_ALIGN as int == 0);
        }
        (size, align)
    }

    /// Serves a request: pads the layout, takes the first fitting free
    /// region, keeps any remainder large enough for a node header as a new
    /// free region, and records the block as outstanding.  Fails exactly
    /// when no free region fits the padded request; on failure the allocator
    /// is unchanged.
    pub fn allocate(&mut self, layout: Layout) -> (r: Option<usize>)
        requires
            old(self)@.wf(),
            layout.wf(),
        ensures
            final(self)@.wf(),
            list_alloc_post(old(self)@, final(self)@, layout, r),
    {
        let (size, align) = Self::size_align(layout);
        let ghost m0 = self@;
        match self.find_region(size, align) {
            Some((region, alloc_start)) => {
                let ghost i = first_fit(m0.free, size as int, align as int).unwrap();
                proof {
                    lemma_first_fit_props(m0.free, size as int, align as int);
                    lemma_align_up(region.addr as int, align as int);
                    m0.free.remove_ensures(i);
                    lemma_power_of_two_pos(layout.align as int);
                    lemma_divides_transitive(alloc_start as int, align as int, NODE_ALIGN as int);
                    lemma_divides_transitive(alloc_start as int, align as int, layout.align as int);
                }
                let alloc_end = alloc_start + size;
                let excess = (region.addr + region.size) - alloc_end;
                let ghost m1 = self@;
                if excess >= NODE_SIZE {
                    proof {
                        vstd::arithmetic::div_mod::lemma_add_mod_noop(
                            alloc_start as int,
                            size as int,
                            NODE_ALIGN as int,
                        );
                        assert(alloc_end as int % NODE_ALIGN as int == 0);
                        assert forall|k: int|
                            0 <= k < m1.free.len() implies ranges_disjoint(
                            (#[trigger] m1.free[k]).addr as nat,
                            m1.free[k].size as nat,
                            alloc_end as nat,
                            excess as nat,
                        ) by {
                            let k0: int = if k < i {
                                k
                            } else {
                                k + 1
                            };
                            assert(m1.free[k] == m0.free[k0]);
                            assert(ranges_disjoint(
                                m0.free[k0].addr as nat,
                                m0.free[k0].size as nat,
                                m0.free[i].addr as nat,
                                m0.free[i].size as nat,
                            ));
                        }
                        assert forall|a: nat| #[trigger]
                            m1.live.dom().contains(a) implies ranges_disjoint(
                            a,
                            m1.live[a],
                            alloc_end as nat,
                            excess as nat,
                        ) by {
                            assert(m0.live.dom().contains(a));
                            assert(ranges_disjoint(
                                m0.free[i].addr as nat,
                                m0.free[i].size as nat,
                                a,
                                m0.live[a],
                            ));
                        }
                    }
                    self.add_free_region(alloc_end, excess);
                }
                let ghost m2 = self@;
                proof {
                    // The block being handed out lay inside the unlinked
                    // region, so it overlaps nothing that is left.
                    assert forall|k: int|
                        0 <= k < m2.free.len() implies ranges_disjoint(
                        (#[trigger] m2.free[k]).addr as nat,
                        m2.free[k].size as nat,
                        alloc_start as nat,
                        size as nat,
                    ) by {
                        if excess >= NODE_SIZE && k == 0 {
                        } else {
                            let k1: int = if excess >= NODE_SIZE {
                                k - 1
                            } else {
                                k
                            };
                            let k0: int = if k1 < i {
                                k1
                            } else {
                                k1 + 1
                            };
                            assert(m2.free[k] == m1.free[k1]);
                            assert(m1.free[k1] == m0.free[k0]);
                            assert(ranges_disjoint(
                                m0.free[k0].addr as nat,
                                m0.free[k0].size as nat,
                                m0.free[i].addr as nat,
                                m0.free[i].size as nat,
                            ));
                        }
                    }
                    assert forall|a: nat| #[trigger]
                        m2.live.dom().contains(a) && a != alloc_start as nat
                        implies ranges_disjoint(a, m2.live[a], alloc_start as nat, size as nat) by {
                        assert(m0.live.dom().contains(a));
                        assert(ranges_disjoint(
                            m0.free[i].addr as nat,
                            m0.free[i].size as nat,
                            a,
                            m0.live[a],
                        ));
                    }
                    assert(!m2.live.dom().contains(alloc_start as nat)) by {
                        if m2.live.dom().contains(alloc_start as nat) {
                            assert(m0.live.dom().contains(alloc_start as nat));
                            assert(ranges_disjoint(
                                m0.free[i].addr as nat,
                                m0.free[i].size as nat,
                                alloc_start as nat,
                                m0.live[alloc_start as nat],
                            ));
                        }
                    }
                }
                self.live = Ghost(self.live@.insert(alloc_start as nat, size as nat));
                proof {
                    let mf = self@;
                    lemma_wf_live_insert(m2, mf, alloc_start as nat, size as nat);
                    assert(mf.free == free_after_alloc(m0.free, size as int, align as int)) by {
                        if excess >= NODE_SIZE {
                            assert(mf.free =~= seq![
                                ListNode { size: excess, addr: alloc_end },
                            ] + m0.free.remove(i));
                        }
                    }
                }
                Some(alloc_start)
            },
            None => None,
        }
    }

    /// Frees one outstanding allocation: reconstructs the padded region that
    /// was carved out for it and pushes it onto the head of the free list.
    /// The address and layout must match a previous successful `allocate`
    /// that has not been freed since.  No merging with physically adjacent
    /// free regions is attempted.
    pub fn deallocate(&mut self, addr: usize, layout: Layout)
        requires
            old(self)@.wf(),
            layout.wf(),
            old(self)@.live.contains_pair(addr as nat, adjusted_size(layout) as nat),
        ensures
            final(self)@.wf(),
            list_dealloc_post(old(self)@, final(self)@, addr, layout),
    {
        let (size, _align) = Self::size_align(layout);
        let ghost m0 = self@;
        self.live = Ghost(self.live@.remove(addr as nat));
        proof {
            let m1 = self@;
            lemma_wf_live_remove(m0, m1, addr as nat);
            assert forall|i: int|
                0 <= i < m1.free.len() implies ranges_disjoint(
                (#[trigger] m1.free[i]).addr as nat,
                m1.free[i].size as nat,
                addr as nat,
                size as nat,
            ) by {
                assert(ranges_disjoint(
                    m0.free[i].addr as nat,
                    m0.free[i].size as nat,
                    addr as nat,
                    m0.live[addr as nat],
                ));
            }
            assert forall|a: nat| #[trigger]
                m1.live.dom().contains(a) implies ranges_disjoint(
                a,
                m1.live[a],
                addr as nat,
                size as nat,
            ) by {
                assert(m0.live.dom().contains(a));
                assert(ranges_disjoint(a, m0.live[a], addr as nat, m0.live[addr as nat]));
            }
        }
        self.add_free_region(addr, size);
    }
}

/// Any two distinct outstanding allocations of a free-list allocator occupy
/// disjoint byte ranges, and every outstanding allocation is disjoint from
/// every free region.
pub proof fn lemma_list_live_disjoint(m: ListModel, a1: nat, a2: nat)
    requires
        m.wf(),
        m.live.dom().contains(a1),
        m.live.dom().contains(a2),
        a1 != a2,
    ensures
        ranges_disjoint(a1, m.live[a1], a2, m.live[a2]),
{
}

/// Freeing a block and then requesting one that is no larger (after
/// padding) and whose padded alignment the freed address already satisfies
/// reuses that exact address: the freed region is the head of the list, so
/// it is the first fitting region traversed.
pub proof fn lemma_free_list_reuse(
    m0: ListModel,
    m1: ListModel,
    m2: ListModel,
    addr: usize,
    freed: Layout,
    request: Layout,
    r: Option<usize>,
)
    requires
        freed.wf(),
        request.wf(),
        list_dealloc_post(m0, m1, addr, freed),
        list_alloc_post(m1, m2, request, r),
        addr as int % adjusted_align(request) == 0,
        adjusted_size(request) <= adjusted_size(freed),
    ensures
        r == Some(addr),
{
    let size = adjusted_size(request);
    let align = adjusted_align(request);
    lemma_adjusted_size_bounds(freed);
    lemma_align_up(addr as int, align);
    let node = ListNode { size: adjusted_size(freed) as usize, addr };
    assert(m1.free[0] == node);
    assert(node_fits(m1.free[0], size, align));
    lemma_first_fit_at(m1.free, size, align, 0);
}

} // verus!
