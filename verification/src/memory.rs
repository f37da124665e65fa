//! The backing memory of the heap.
//!
//! The page-mapping layer maps a fixed virtual range once at boot, zeroes it,
//! and hands its bounds to the chosen allocation strategy.  Here that mapped
//! range is modeled explicitly as an owned arena of bytes addressed by the
//! same addresses the strategies deal in, so that what a caller writes into
//! an allocated block can be stated and read back exactly.

use vstd::prelude::*;

verus! {

/// `mem` with `data` written at offset `off`: everything outside the
/// written range is unchanged.
pub open spec fn splice(mem: Seq<u8>, off: int, data: Seq<u8>) -> Seq<u8> {
    mem.take(off) + data + mem.skip(off + data.len())
}

/// Reading back a written range returns exactly what was written, and
/// writing changes nothing outside the written range.
pub proof fn lemma_write_read_round_trip(mem: Seq<u8>, off: int, data: Seq<u8>)
    requires
        0 <= off,
        off + data.len() <= mem.len(),
    ensures
        splice(mem, off, data).len() == mem.len(),
        splice(mem, off, data).subrange(off, off + data.len() as int) == data,
        forall|k: int|
            0 <= k < mem.len() && !(off <= k < off + data.len()) ==> #[trigger] splice(
                mem,
                off,
                data,
            )[k] == mem[k],
{
    assert(splice(mem, off, data).subrange(off, off + data.len() as int) =~= data);
}

/// The mapped, writable region backing the heap: `size` bytes of memory
/// reachable at the addresses `start..start + size`.
pub struct HeapMemory {
    bytes: Vec<u8>,
    start: usize,
}

impl View for HeapMemory {
    type V = Seq<u8>;

    closed spec fn view(&self) -> Seq<u8> {
        self.bytes@
    }
}

impl HeapMemory {
    /// The first address of the region.
    pub closed spec fn spec_start(&self) -> usize {
        self.start
    }

    /// Maps the region: `size` zeroed bytes starting at the page-aligned
    /// address `start`.  This does the work of the page-mapping layer,
    /// which backs the range with writable frames exactly once at boot.
    pub fn new(start: usize, size: usize) -> (r: HeapMemory)
        requires
            start % 4096 == 0,
            start + size <= usize::MAX,
        ensures
            r.spec_start() == start,
            r@ == Seq::new(size as nat, |i: int| 0u8),
    {
        HeapMemory { bytes: vec![0u8; size], start }
    }

    /// The first address of the region.
    pub fn start(&self) -> (r: usize)
        ensures
            r == self.spec_start(),
    {
        self.start
    }

    /// How many bytes the region holds.
    pub fn size(&self) -> (r: usize)
        ensures
            r == self@.len(),
    {
        self.bytes.len()
    }

    /// Writes `data` to the addresses `addr..addr + data.len()`, which must
    /// lie inside the region.
    #[verifier::loop_isolation(false)]
    pub fn write_bytes(&mut self, addr: usize, data: &[u8])
        requires
            old(self).spec_start() <= addr,
            addr - old(self).spec_start() + data@.len() <= old(self)@.len(),
        ensures
            final(self).spec_start() == old(self).spec_start(),
            final(self)@ == splice(old(self)@, addr - old(self).spec_start(), data@),
    {
        let off = addr - self.start;
        let ghost off_g = off as int;
        let n = self.bytes.len();
        proof {
            assert(old(self)@.len() == n);
        }
        let mut j: usize = 0;
        while j < data.len()
            invariant
                off_g == addr - self.spec_start(),
                self.spec_start() == old(self).spec_start(),
                j <= data@.len(),
                off_g + data@.len() <= self@.len(),
                self@.len() == old(self)@.len(),
                old(self)@.len() == n,
                forall|k: int|
                    0 <= k < self@.len() && !(off_g <= k < off_g + j) ==> #[trigger] self@[k]
                        == old(self)@[k],
                forall|k: int| off_g <= k < off_g + j ==> #[trigger] self@[k] == data@[k - off_g],
            decreases data@.len() - j,
        {
            let b = data[j];
            self.bytes[off + j] = b;
            j = j + 1;
        }
        proof {
            assert(self@ =~= splice(old(self)@, off_g, data@));
        }
    }

    /// Reads the `len` bytes at the addresses `addr..addr + len`, which must
    /// lie inside the region.
    #[verifier::loop_isolation(false)]
    pub fn read_bytes(&self, addr: usize, len: usize) -> (r: Vec<u8>)
        requires
            self.spec_start() <= addr,
            addr - self.spec_start() + len <= self@.len(),
        ensures
            r@ == self@.subrange(addr - self.spec_start(), addr - self.spec_start() + len),
    {
        let off = addr - self.start;
        let ghost off_g = off as int;
        let n = self.bytes.len();
        proof {
            assert(self@.len() == n);
        }
        let mut r: Vec<u8> = Vec::new();
        let mut j: usize = 0;
        while j < len
            invariant
                off_g == addr - self.spec_start(),
                j <= len,
                off_g + len <= self@.len(),
                r@.len() == j,
                forall|k: int| 0 <= k < j ==> #[trigger] r@[k] == self@[off_g + k],
            decreases len - j,
        {
            let b = self.bytes[off + j];
            r.push(b);
            j = j + 1;
        }
        proof {
            assert(r@ =~= self@.subrange(off_g, off_g + len));
        }
        r
    }
}

} // verus!
