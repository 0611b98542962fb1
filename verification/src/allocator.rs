use vstd::prelude::*;
use vstd::arithmetic::power2::is_pow2;
use vstd::arithmetic::div_mod::{
    lemma_div_is_ordered, lemma_fundamental_div_mod, lemma_mod_decreases,
    lemma_mod_division_less_than_divisor, lemma_mod_multiples_basic,
};
use crate::allocator::bump::{guard_deref_mut, Locked};
use crate::allocator::fixed_size_block::FixedSizeBlockAllocator;

pub mod bump;
pub mod linked_list;
pub mod fixed_size_block;

verus! {

/// Base virtual address reserved for the heap on the 64-bit target.
pub const HEAP_START: u64 = 0x_4444_4444_0000;

/// Size of the heap region in bytes.
pub const HEAP_SIZE: usize = 100 * 1024;

/// Allocator that refuses every request: `allocate` always returns the
/// null-equivalent sentinel `0`.
pub struct Dummy;

impl Dummy {
    /// Always fails: the sentinel `0` comes back for every request.
    pub fn allocate(&self, size: usize, align: usize) -> (r: usize)
        ensures
            r == 0,
    {
        0
    }
}

/// The smallest multiple of `align` that is at least `addr`.
pub open spec fn spec_align_up(addr: int, align: int) -> int
    recommends
        align >= 1,
{
    if addr % align == 0 {
        addr
    } else {
        addr - addr % align + align
    }
}

/// A power of two is at least one.
pub proof fn lemma_pow2_pos(align: int)
    requires
        is_pow2(align),
    ensures
        align >= 1,
{
    reveal(is_pow2);
}

/// `spec_align_up(addr, align)` is the smallest multiple of `align` that is
/// `>= addr`, for every power-of-two `align` and every address.
pub proof fn lemma_align_up_is_least_multiple(addr: int, align: int)
    requires
        addr >= 0,
        is_pow2(align),
    ensures
        spec_align_up(addr, align) % align == 0,
        spec_align_up(addr, align) >= addr,
        forall|m: int| #[trigger] (m % align) == 0 && m >= addr ==> m >= spec_align_up(addr, align),
{
    lemma_pow2_pos(align);
    let rem = addr % align;
    let d = addr / align;
    lemma_fundamental_div_mod(addr, align);
    lemma_mod_division_less_than_divisor(addr, align);
    if rem == 0 {
        assert(spec_align_up(addr, align) == addr);
    } else {
        let r = addr - rem + align;
        assert(r == align * (d + 1)) by (nonlinear_arith)
            requires
                addr == align * d + rem,
                r == addr - rem + align,
        {}
        lemma_mod_multiples_basic(d + 1, align);
        assert(r % align == 0);
        assert forall|m: int| #[trigger] (m % align) == 0 && m >= addr implies m >= r by {
            let q = m / align;
            lemma_fundamental_div_mod(m, align);
            assert(m == align * q);
            if m < r {
                assert(q < d + 1) by (nonlinear_arith)
                    requires
                        align * q < align * (d + 1),
                        align >= 1,
                {}
                assert(align * q <= align * d) by (nonlinear_arith)
                    requires
                        q <= d,
                        align >= 1,
                {}
                assert(m <= addr - rem);
                assert(false);
            }
        }
    }
}

/// Rounds `addr` up to the next multiple of `align`; `align` must be a power
/// of two, and the rounded address must still fit in a machine word.
pub fn align_up(addr: usize, align: usize) -> (r: usize)
    requires
        is_pow2(align as int),
        spec_align_up(addr as int, align as int) <= usize::MAX,
    ensures
        r == spec_align_up(addr as int, align as int),
{
    proof {
        lemma_pow2_pos(align as int);
        lemma_mod_division_less_than_divisor(addr as int, align as int);
        lemma_mod_decreases(addr as nat, align as nat);
    }
    let rem = addr % align;
    if rem == 0 {
        addr
    } else {
        addr - rem + align
    }
}

/// Indexes of the first and last 4096-byte page that the heap region
/// touches: the range the platform's mapper must back with present, writable
/// frames before `init_heap` runs.
pub fn heap_page_range(heap_start: u64, heap_size: u64) -> (r: (u64, u64))
    requires
        1 <= heap_size,
        heap_start + heap_size - 1 <= u64::MAX,
    ensures
        r.0 == heap_start / 4096,
        r.1 == (heap_start + heap_size - 1) / 4096,
        r.0 <= r.1,
{
    proof {
        lemma_div_is_ordered(heap_start as int, heap_start + heap_size - 1, 4096);
    }
    let first = heap_start / 4096;
    let last = (heap_start + (heap_size - 1)) / 4096;
    (first, last)
}

/// One-shot heap initialization: hand the region to the process-wide
/// allocator. The platform must already have mapped every page of
/// `[heap_start, heap_start + heap_size)` as present and writable; no mapping
/// happens here, and the region must not start at the null address.
pub fn init_heap(
    allocator: &Locked<FixedSizeBlockAllocator>,
    heap_start: usize,
    heap_size: usize,
)
    requires
        1 <= heap_start,
        heap_start + heap_size <= usize::MAX,
{
    let mut guard = allocator.lock();
    let inner = guard_deref_mut(&mut guard);
    inner.init(heap_start, heap_size);
}

} // verus!
