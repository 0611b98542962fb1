use vstd::prelude::*;

verus! {

/// Ghost model of the heap's backing region: its base address and the words
/// it holds.
pub ghost struct RegionModel {
    pub heap_start: int,
    pub words: Seq<u64>,
}

/// The heap's backing region, modeled at word granularity: the memory that
/// the platform mapper backs with frames before the allocator is initialized.
/// Reads and writes go through bounds-checked accessors, so every access the
/// process makes through an allocated address is explicit and checked.
pub struct HeapRegion {
    heap_start: usize,
    words: Vec<u64>,
}

impl View for HeapRegion {
    type V = RegionModel;

    closed spec fn view(&self) -> RegionModel {
        RegionModel { heap_start: self.heap_start as int, words: self.words@ }
    }
}

impl HeapRegion {
    /// A zeroed region of `heap_size` bytes starting at `heap_start`; both
    /// must be multiples of the eight-byte word.
    pub fn new(heap_start: usize, heap_size: usize) -> (r: HeapRegion)
        requires
            heap_start % 8 == 0,
            heap_size % 8 == 0,
            heap_start + heap_size <= usize::MAX,
        ensures
            r@.heap_start == heap_start,
            r@.words.len() == heap_size / 8,
            forall|k: int| 0 <= k < r@.words.len() ==> r@.words[k] == 0,
    {
        let count = heap_size / 8;
        let mut words: Vec<u64> = Vec::new();
        let mut k: usize = 0;
        while k < count
            invariant
                k <= count,
                words@.len() == k,
                forall|j: int| 0 <= j < k ==> words@[j] == 0,
            decreases count - k,
        {
            words.push(0);
            k = k + 1;
        }
        HeapRegion { heap_start, words }
    }

    /// Store one word at the word-aligned address `addr` inside the region.
    pub fn store_u64(&mut self, addr: usize, value: u64)
        requires
            old(self)@.heap_start <= addr,
            (addr - old(self)@.heap_start) % 8 == 0,
            addr - old(self)@.heap_start < 8 * old(self)@.words.len(),
        ensures
            final(self)@.heap_start == old(self)@.heap_start,
            final(self)@.words == old(self)@.words.update(
                (addr - old(self)@.heap_start) / 8,
                value,
            ),
    {
        let idx = (addr - self.heap_start) / 8;
        proof {
            let off = addr - self@.heap_start;
            assert(off / 8 < self@.words.len()) by (nonlinear_arith)
                requires
                    off >= 0,
                    off % 8 == 0,
                    off < 8 * self@.words.len(),
            {}
        }
        let slot = &mut self.words[idx];
        *slot = value;
    }

    /// Load the word at the word-aligned address `addr` inside the region.
    pub fn load_u64(&self, addr: usize) -> (r: u64)
        requires
            self@.heap_start <= addr,
            (addr - self@.heap_start) % 8 == 0,
            addr - self@.heap_start < 8 * self@.words.len(),
        ensures
            r == self@.words[(addr - self@.heap_start) / 8],
    {
        let idx = (addr - self.heap_start) / 8;
        proof {
            let off = addr - self@.heap_start;
            assert(off / 8 < self@.words.len()) by (nonlinear_arith)
                requires
                    off >= 0,
                    off % 8 == 0,
                    off < 8 * self@.words.len(),
            {}
        }
        self.words[idx]
    }
}

/// Frame supplier that never yields a frame.
pub struct EmptyFrameAllocator;

impl EmptyFrameAllocator {
    /// No frame is ever available.
    pub fn allocate_frame(&mut self) -> (r: Option<u64>)
        ensures
            r is None,
    {
        None
    }
}

/// What one page-table entry says about the next level of the walk.
pub enum FrameLookup {
    /// The entry's present bit is clear: the address is not mapped.
    NotPresent,
    /// The entry points at the next table or final frame at this base address.
    Frame(u64),
    /// The entry maps a huge page directly.
    HugeFrame,
}

/// The four table indexes a virtual address selects, highest level first:
/// nine bits each, above the twelve-bit page offset.
pub fn page_table_indices(virt: u64) -> (r: (u64, u64, u64, u64))
    ensures
        r.0 == (virt / 0x80_0000_0000u64) % 512,
        r.1 == (virt / 0x4000_0000u64) % 512,
        r.2 == (virt / 0x20_0000u64) % 512,
        r.3 == (virt / 0x1000u64) % 512,
{
    proof {
        assert forall|v: u64|
            (v >> 39) & 0x1ff == (v / 0x80_0000_0000u64) % 512 && (v >> 30) & 0x1ff == (v
                / 0x4000_0000u64) % 512 && (v >> 21) & 0x1ff == (v / 0x20_0000u64) % 512 && (v
                >> 12) & 0x1ff == (v / 0x1000u64) % 512 by {
            assert((v >> 39) & 0x1ff == (v / 0x80_0000_0000u64) % 512) by (bit_vector);
            assert((v >> 30) & 0x1ff == (v / 0x4000_0000u64) % 512) by (bit_vector);
            assert((v >> 21) & 0x1ff == (v / 0x20_0000u64) % 512) by (bit_vector);
            assert((v >> 12) & 0x1ff == (v / 0x1000u64) % 512) by (bit_vector);
        }
    }
    ((virt >> 39) & 0x1ff, (virt >> 30) & 0x1ff, (virt >> 21) & 0x1ff, (virt >> 12) & 0x1ff)
}

/// Decode one page-table entry: bit zero is the present flag, bit seven the
/// huge-page flag, and bits twelve through fifty-one hold the frame's base.
pub fn entry_frame(entry: u64) -> (r: FrameLookup)
    ensures
        match r {
            FrameLookup::NotPresent => entry & 1 == 0,
            FrameLookup::HugeFrame => entry & 1 == 1 && (entry >> 7) & 1 == 1,
            FrameLookup::Frame(base) => entry & 1 == 1 && (entry >> 7) & 1 == 0 && base == entry
                & 0x000f_ffff_ffff_f000,
        },
{
    proof {
        assert(entry & 1 == 0 || entry & 1 == 1) by (bit_vector);
        assert((entry >> 7) & 1 == 0 || (entry >> 7) & 1 == 1) by (bit_vector);
    }
    if entry & 1 == 0 {
        FrameLookup::NotPresent
    } else if (entry >> 7) & 1 == 1 {
        FrameLookup::HugeFrame
    } else {
        FrameLookup::Frame(entry & 0x000f_ffff_ffff_f000)
    }
}

/// The physical address of `virt` once the walk has found its frame: the
/// frame's base plus the page offset (the low twelve bits).
pub fn translate_in_frame(frame_base: u64, virt: u64) -> (r: u64)
    requires
        frame_base % 0x1000 == 0,
        frame_base <= 0x000f_ffff_ffff_f000,
    ensures
        r == frame_base + (virt % 0x1000),
{
    proof {
        assert(virt & 0xfff == virt % 0x1000) by (bit_vector);
        assert(virt % 0x1000 < 0x1000) by (bit_vector);
    }
    frame_base + (virt & 0xfff)
}

} // verus!
