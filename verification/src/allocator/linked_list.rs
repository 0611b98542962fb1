use vstd::prelude::*;
use vstd::arithmetic::power2::is_pow2;
use crate::allocator::{lemma_align_up_is_least_multiple, lemma_pow2_pos, spec_align_up};

verus! {

/// Ghost model of the first-fit heap: the managed region and the list of
/// available blocks, as `(start, size)` pairs sorted by start address.
pub ghost struct HeapModel {
    pub bottom: int,
    pub top: int,
    pub free: Seq<(usize, usize)>,
}

/// Structural invariant of the free list: every block is a non-empty range
/// of the region, starts above the null address, and the blocks are sorted
/// and pairwise disjoint.
pub open spec fn heap_inv(h: HeapModel) -> bool {
    &&& 0 <= h.bottom <= h.top <= usize::MAX
    &&& forall|k: int|
        0 <= k < h.free.len() ==> {
            &&& (#[trigger] h.free[k]).1 >= 1
            &&& h.free[k].0 >= 1
            &&& h.free[k].0 >= h.bottom
            &&& h.free[k].0 + h.free[k].1 <= h.top
        }
    &&& forall|i: int, j: int|
        0 <= i < j < h.free.len() ==> #[trigger] h.free[i].0 + h.free[i].1 <= #[trigger] h.free[j].0
}

/// Is byte address `a` inside some available block of `free`?
pub open spec fn covers(free: Seq<(usize, usize)>, a: int) -> bool {
    exists|k: int| 0 <= k < free.len() && (#[trigger] free[k]).0 <= a < free[k].0 + free[k].1
}

/// Can a request of `size` bytes at alignment `align` be carved out of
/// block `blk`, once its start is rounded up to `align`?
pub open spec fn block_fits(blk: (usize, usize), size: int, align: int) -> bool {
    spec_align_up(blk.0 as int, align) + size <= blk.0 + blk.1
}

/// Index of the first block of `free` that can serve the request, or `-1`
/// when none can.
pub open spec fn first_fit_index(free: Seq<(usize, usize)>, size: int, align: int) -> int
    decreases free.len(),
{
    if free.len() == 0 {
        -1
    } else if block_fits(free[0], size, align) {
        0
    } else {
        let rest = first_fit_index(free.drop_first(), size, align);
        if rest == -1 {
            -1
        } else {
            rest + 1
        }
    }
}

/// When no block fits, the first-fit index reports exhaustion.
pub proof fn lemma_first_fit_index_none(free: Seq<(usize, usize)>, size: int, align: int)
    requires
        forall|k: int| 0 <= k < free.len() ==> !block_fits(#[trigger] free[k], size, align),
    ensures
        first_fit_index(free, size, align) == -1,
    decreases free.len(),
{
    if free.len() != 0 {
        assert(forall|k: int|
            0 <= k < free.drop_first().len() ==> #[trigger] free.drop_first()[k] == free[k + 1]);
        lemma_first_fit_index_none(free.drop_first(), size, align);
    }
}

/// The first-fit index is the first position whose block fits.
pub proof fn lemma_first_fit_index_at(free: Seq<(usize, usize)>, size: int, align: int, f: int)
    requires
        0 <= f < free.len(),
        block_fits(free[f], size, align),
        forall|k: int| 0 <= k < f ==> !block_fits(#[trigger] free[k], size, align),
    ensures
        first_fit_index(free, size, align) == f,
    decreases free.len(),
{
    if f > 0 {
        assert(forall|k: int|
            0 <= k < free.drop_first().len() ==> #[trigger] free.drop_first()[k] == free[k + 1]);
        lemma_first_fit_index_at(free.drop_first(), size, align, f - 1);
    }
}

/// The first-fit index is `-1` or a valid index of a fitting block.
pub proof fn lemma_first_fit_index_bounds(free: Seq<(usize, usize)>, size: int, align: int)
    ensures
        -1 <= first_fit_index(free, size, align) < free.len(),
        first_fit_index(free, size, align) >= 0 ==> block_fits(
            free[first_fit_index(free, size, align)],
            size,
            align,
        ),
    decreases free.len(),
{
    if free.len() != 0 && !block_fits(free[0], size, align) {
        assert(forall|k: int|
            0 <= k < free.drop_first().len() ==> #[trigger] free.drop_first()[k] == free[k + 1]);
        lemma_first_fit_index_bounds(free.drop_first(), size, align);
    }
}

/// The state after one first-fit allocation: the first fitting block is
/// split into the pad below the aligned start, the served range, and the
/// remainder above it; pad and remainder stay in the free list.
pub open spec fn spec_allocate_first_fit(h: HeapModel, size: int, align: int) -> (HeapModel, int) {
    let f = first_fit_index(h.free, size, align);
    if f == -1 {
        (h, 0)
    } else {
        let a = h.free[f].0 as int;
        let s = h.free[f].1 as int;
        let target = spec_align_up(a, align);
        let front = if target > a {
            seq![(a as usize, (target - a) as usize)]
        } else {
            Seq::<(usize, usize)>::empty()
        };
        let back = if a + s > target + size {
            seq![((target + size) as usize, (a + s - (target + size)) as usize)]
        } else {
            Seq::<(usize, usize)>::empty()
        };
        (HeapModel { free: h.free.take(f) + front + back + h.free.skip(f + 1), ..h }, target)
    }
}

/// Is the range `[ptr, ptr + size)` disjoint from every available block?
pub open spec fn range_is_unused(h: HeapModel, ptr: int, size: int) -> bool {
    forall|k: int|
        0 <= k < h.free.len() ==> ((#[trigger] h.free[k]).0 + h.free[k].1 <= ptr || ptr + size
            <= h.free[k].0)
}

/// Inserting a block that lies strictly between its neighbours keeps the
/// free list sorted, disjoint and in bounds.
proof fn lemma_insert_preserves_inv(h: HeapModel, q: int, blk: (usize, usize))
    requires
        heap_inv(h),
        0 <= q <= h.free.len(),
        blk.1 >= 1,
        blk.0 >= 1,
        blk.0 >= h.bottom,
        blk.0 + blk.1 <= h.top,
        forall|k: int| 0 <= k < q ==> (#[trigger] h.free[k]).0 + h.free[k].1 <= blk.0,
        forall|k: int| q <= k < h.free.len() ==> blk.0 + blk.1 <= (#[trigger] h.free[k]).0,
    ensures
        heap_inv(HeapModel { free: h.free.insert(q, blk), ..h }),
{
    let nf = h.free.insert(q, blk);
    assert forall|k: int| 0 <= k < nf.len() implies {
        &&& (#[trigger] nf[k]).1 >= 1
        &&& nf[k].0 >= 1
        &&& nf[k].0 >= h.bottom
        &&& nf[k].0 + nf[k].1 <= h.top
    } by {
        if k < q {
            assert(nf[k] == h.free[k]);
        } else if k == q {
            assert(nf[k] == blk);
        } else {
            assert(nf[k] == h.free[k - 1]);
        }
    }
    assert forall|i: int, j: int| 0 <= i < j < nf.len() implies #[trigger] nf[i].0 + nf[i].1
        <= #[trigger] nf[j].0 by {
        if i < q {
            assert(nf[i] == h.free[i]);
        } else if i == q {
            assert(nf[i] == blk);
        } else {
            assert(nf[i] == h.free[i - 1]);
        }
        if j < q {
            assert(nf[j] == h.free[j]);
        } else if j == q {
            assert(nf[j] == blk);
        } else {
            assert(nf[j] == h.free[j - 1]);
        }
    }
}

/// Removing a block keeps the free list sorted, disjoint and in bounds.
proof fn lemma_remove_preserves_inv(h: HeapModel, q: int)
    requires
        heap_inv(h),
        0 <= q < h.free.len(),
    ensures
        heap_inv(HeapModel { free: h.free.remove(q), ..h }),
{
    let nf = h.free.remove(q);
    assert forall|k: int| 0 <= k < nf.len() implies {
        &&& (#[trigger] nf[k]).1 >= 1
        &&& nf[k].0 >= 1
        &&& nf[k].0 >= h.bottom
        &&& nf[k].0 + nf[k].1 <= h.top
    } by {
        if k < q {
            assert(nf[k] == h.free[k]);
        } else {
            assert(nf[k] == h.free[k + 1]);
        }
    }
    assert forall|i: int, j: int| 0 <= i < j < nf.len() implies #[trigger] nf[i].0 + nf[i].1
        <= #[trigger] nf[j].0 by {
        if i < q {
            assert(nf[i] == h.free[i]);
        } else {
            assert(nf[i] == h.free[i + 1]);
        }
        if j < q {
            assert(nf[j] == h.free[j]);
        } else {
            assert(nf[j] == h.free[j + 1]);
        }
    }
}

/// Replacing the first-fit heap's blocks around a freed range by one merged
/// block keeps the free list well formed and makes a byte available exactly
/// when it was available before or lies in the freed range.
#[verifier::rlimit(100)]
#[verifier::spinoff_prover]
proof fn lemma_deallocate_merge(
    h0: HeapModel,
    hf: Seq<(usize, usize)>,
    q: int,
    nl: int,
    nr: int,
    ptr: usize,
    size: usize,
    start: usize,
    len: usize,
)
    requires
        heap_inv(h0),
        1 <= size,
        1 <= ptr,
        h0.bottom <= ptr,
        ptr + size <= h0.top,
        range_is_unused(h0, ptr as int, size as int),
        0 <= q <= h0.free.len(),
        forall|k: int| 0 <= k < q ==> (#[trigger] h0.free[k]).0 <= ptr,
        q < h0.free.len() ==> ptr < h0.free[q].0,
        0 <= nl <= 1,
        0 <= nr <= 1,
        nl == 1 ==> q > 0 && h0.free[q - 1].0 + h0.free[q - 1].1 == ptr,
        nr == 1 ==> q < h0.free.len() && h0.free[q].0 == ptr + size,
        start == if nl == 1 {
            h0.free[q - 1].0
        } else {
            ptr
        },
        start + len == if nr == 1 {
            h0.free[q].0 + h0.free[q].1
        } else {
            ptr + size
        },
        hf == h0.free.take(q - nl) + seq![(start, len)] + h0.free.skip(q + nr),
    ensures
        heap_inv(HeapModel { free: hf, ..h0 }),
        forall|a: int| covers(hf, a) <==> covers(h0.free, a) || (ptr <= a < ptr + size),
{
    let ql = q - nl;
    assert forall|k: int| 0 <= k < q implies (#[trigger] h0.free[k]).0 + h0.free[k].1 <= ptr by {
        assert(h0.free[k].0 <= ptr);
        assert(h0.free[k].0 + h0.free[k].1 <= ptr || ptr + size <= h0.free[k].0);
    }
    assert forall|k: int| q <= k < h0.free.len() implies ptr + size <= (#[trigger] h0.free[k]).0 by {
        if k > q {
            assert(h0.free[q].0 + h0.free[q].1 <= h0.free[k].0);
            assert(ptr < h0.free[q].0);
            assert(h0.free[k].0 + h0.free[k].1 <= ptr || ptr + size <= h0.free[k].0);
        } else {
            assert(ptr < h0.free[q].0);
            assert(h0.free[q].0 + h0.free[q].1 <= ptr || ptr + size <= h0.free[q].0);
        }
    }
    assert(hf.len() == h0.free.len() + 1 - nl - nr);
    assert(hf[ql] == (start, len));
    assert forall|k: int| 0 <= k < ql implies #[trigger] hf[k] == h0.free[k] by {}
    assert forall|k: int| ql < k < hf.len() implies #[trigger] hf[k] == h0.free[k - 1 + nl
        + nr] by {}
    assert forall|k: int| 0 <= k < hf.len() implies {
        &&& (#[trigger] hf[k]).1 >= 1
        &&& hf[k].0 >= 1
        &&& hf[k].0 >= h0.bottom
        &&& hf[k].0 + hf[k].1 <= h0.top
    } by {
        if k < ql {
            assert(hf[k] == h0.free[k]);
        } else if k == ql {
            assert(hf[k] == (start, len));
        } else {
            assert(hf[k] == h0.free[k - 1 + nl + nr]);
        }
    }
    assert forall|i: int, j: int| 0 <= i < j < hf.len() implies #[trigger] hf[i].0 + hf[i].1 <= (
    #[trigger] hf[j]).0 by {
        if i < ql {
            assert(hf[i] == h0.free[i]);
        } else if i == ql {
            assert(hf[i] == (start, len));
        } else {
            assert(hf[i] == h0.free[i - 1 + nl + nr]);
        }
        if j < ql {
            assert(hf[j] == h0.free[j]);
        } else if j == ql {
            assert(hf[j] == (start, len));
        } else {
            assert(hf[j] == h0.free[j - 1 + nl + nr]);
        }
    }
    lemma_merge_covers(h0.free, hf, ql, nl, nr, ptr, size);
}

/// Replacing the blocks a freed range touches by one merged block makes a
/// byte available exactly when it was available before or lies in the range.
#[verifier::rlimit(100)]
#[verifier::spinoff_prover]
proof fn lemma_merge_covers(
    h0: Seq<(usize, usize)>,
    hf: Seq<(usize, usize)>,
    ql: int,
    nl: int,
    nr: int,
    ptr: usize,
    size: usize,
)
    requires
        0 <= nl <= 1,
        0 <= nr <= 1,
        0 <= ql,
        ql + nl + nr <= h0.len(),
        hf.len() == h0.len() + 1 - nl - nr,
        size >= 1,
        forall|k: int| 0 <= k < ql ==> #[trigger] hf[k] == h0[k],
        forall|k: int| ql < k < hf.len() ==> #[trigger] hf[k] == h0[k - 1 + nl + nr],
        nl == 1 ==> h0[ql].0 + h0[ql].1 == ptr && hf[ql].0 == h0[ql].0,
        nl == 0 ==> hf[ql].0 == ptr,
        nr == 1 ==> h0[ql + nl].0 == ptr + size && hf[ql].0 + hf[ql].1 == h0[ql + nl].0 + h0[ql
            + nl].1,
        nr == 0 ==> hf[ql].0 + hf[ql].1 == ptr + size,
        forall|k: int|
            0 <= k < h0.len() ==> ((#[trigger] h0[k]).0 + h0[k].1 <= ptr || ptr + size <= h0[k].0),
    ensures
        forall|a: int| covers(hf, a) <==> covers(h0, a) || (ptr <= a < ptr + size),
{
    assert forall|a: int| covers(hf, a) <==> covers(h0, a) || (ptr <= a < ptr + size) by {
        if covers(hf, a) {
            let k = choose|k: int|
                0 <= k < hf.len() && (#[trigger] hf[k]).0 <= a < hf[k].0 + hf[k].1;
            if k < ql {
                assert(h0[k] == hf[k]);
                assert(covers(h0, a));
            } else if k == ql {
                if a < ptr {
                    assert(nl == 1);
                    assert(h0[ql].0 <= a < h0[ql].0 + h0[ql].1);
                    assert(covers(h0, a));
                } else if a >= ptr + size {
                    assert(nr == 1);
                    assert(h0[ql + nl].0 <= a < h0[ql + nl].0 + h0[ql + nl].1);
                    assert(covers(h0, a));
                }
            } else {
                assert(hf[k] == h0[k - 1 + nl + nr]);
                assert(covers(h0, a));
            }
        }
        if covers(h0, a) {
            let k = choose|k: int|
                0 <= k < h0.len() && (#[trigger] h0[k]).0 <= a < h0[k].0 + h0[k].1;
            if k < ql {
                assert(hf[k] == h0[k]);
                assert(covers(hf, a));
            } else if nl == 1 && k == ql {
                assert(hf[ql].0 <= a < hf[ql].0 + hf[ql].1);
                assert(covers(hf, a));
            } else if nr == 1 && k == ql + nl {
                assert(hf[ql].0 <= a < hf[ql].0 + hf[ql].1);
                assert(covers(hf, a));
            } else {
                let k2 = k + 1 - nl - nr;
                assert(ql < k2 < hf.len());
                assert(hf[k2] == h0[k]);
                assert(covers(hf, a));
            }
        }
        if ptr <= a < ptr + size {
            assert(hf[ql].0 <= a < hf[ql].0 + hf[ql].1);
            assert(covers(hf, a));
        }
    }
}

/// First-fit free-list heap: the general-purpose backing allocator. It keeps
/// its record of available blocks out of band, in a sorted vector, rather
/// than inside the freed memory itself, so the whole bookkeeping is plain
/// verified data.
pub struct Heap {
    bottom: usize,
    top: usize,
    free_list: Vec<(usize, usize)>,
}

impl View for Heap {
    type V = HeapModel;

    closed spec fn view(&self) -> HeapModel {
        HeapModel { bottom: self.bottom as int, top: self.top as int, free: self.free_list@ }
    }
}

impl Heap {
    /// A heap that manages no memory yet; `init` gives it its region.
    pub fn empty() -> (r: Heap)
        ensures
            r@ == (HeapModel { bottom: 0, top: 0, free: Seq::empty() }),
            heap_inv(r@),
    {
        let r = Heap { bottom: 0, top: 0, free_list: Vec::new() };
        proof {
            assert(r@.free =~= Seq::<(usize, usize)>::empty());
        }
        r
    }

    /// One-shot initialization: adopt `[bottom, bottom + size)`, all of it
    /// available, as the region to allocate from. The region must already be
    /// backed by present, writable memory, and must not start at the null
    /// address.
    pub fn init(&mut self, bottom: usize, size: usize)
        requires
            1 <= bottom,
            bottom + size <= usize::MAX,
        ensures
            final(self)@.bottom == bottom,
            final(self)@.top == bottom + size,
            final(self)@.free == if size >= 1 {
                seq![(bottom, size)]
            } else {
                Seq::<(usize, usize)>::empty()
            },
            heap_inv(final(self)@),
    {
        let mut free_list: Vec<(usize, usize)> = Vec::new();
        if size >= 1 {
            free_list.push((bottom, size));
        }
        *self = Heap { bottom, top: bottom + size, free_list };
        proof {
            if size >= 1 {
                assert(self@.free =~= seq![(bottom, size)]);
            } else {
                assert(self@.free =~= Seq::<(usize, usize)>::empty());
            }
        }
    }

    /// Scan the free list for the first block that can serve `size` bytes at
    /// alignment `align`; carve the served range out of it, returning any pad
    /// below the aligned start and any remainder above the range to the free
    /// list. Returns the aligned start, or the null-equivalent sentinel `0`
    /// when no block fits.
    #[verifier::rlimit(100)]
    #[verifier::spinoff_prover]
    pub fn allocate_first_fit(&mut self, size: usize, align: usize) -> (r: usize)
        requires
            heap_inv(old(self)@),
            1 <= size,
            is_pow2(align as int),
        ensures
            heap_inv(final(self)@),
            (final(self)@, r as int) == spec_allocate_first_fit(old(self)@, size as int, align as int),
            r != 0 ==> r % align == 0,
    {
        let ghost h0 = self@;
        proof {
            lemma_pow2_pos(align as int);
        }
        let mut idx: usize = 0;
        loop
            invariant
                h0 == old(self)@,
                heap_inv(h0),
                self@ == h0,
                1 <= size,
                is_pow2(align as int),
                align >= 1,
                idx <= self.free_list.len(),
                self.free_list@.len() == h0.free.len(),
                forall|k: int|
                    0 <= k < idx ==> !block_fits(#[trigger] h0.free[k], size as int, align as int),
            decreases self.free_list.len() - idx,
        {
            if idx >= self.free_list.len() {
                proof {
                    lemma_first_fit_index_none(h0.free, size as int, align as int);
                }
                return 0;
            }
            let blk = self.free_list[idx];
            let a = blk.0;
            let s = blk.1;
            proof {
                assert(h0.free[idx as int] == blk);
                lemma_align_up_is_least_multiple(a as int, align as int);
                vstd::arithmetic::div_mod::lemma_mod_division_less_than_divisor(
                    a as int,
                    align as int,
                );
                vstd::arithmetic::div_mod::lemma_mod_decreases(a as nat, align as nat);
            }
            let rem = a % align;
            let mut target: usize = a;
            let mut fits: bool = false;
            if rem == 0 {
                fits = size <= s;
            } else {
                let base = a - rem;
                if align <= usize::MAX - base {
                    target = base + align;
                    fits = target <= a + s && size <= (a + s) - target;
                }
            }
            proof {
                assert(fits == block_fits(h0.free[idx as int], size as int, align as int));
            }
            if fits {
                proof {
                    lemma_first_fit_index_at(h0.free, size as int, align as int, idx as int);
                }
                let ghost f = idx as int;
                self.free_list.remove(idx);
                proof {
                    lemma_remove_preserves_inv(h0, f);
                }
                let ghost h1 = self@;
                let mut insert_at: usize = idx;
                if target > a {
                    proof {
                        assert(forall|k: int|
                            0 <= k < f ==> (#[trigger] h1.free[k]).0 + h1.free[k].1 <= a);
                        assert(forall|k: int|
                            f <= k < h1.free.len() ==> a + (target - a) <= (
                            #[trigger] h1.free[k]).0);
                        lemma_insert_preserves_inv(h1, f, (a, (target - a) as usize));
                    }
                    self.free_list.insert(insert_at, (a, target - a));
                    insert_at = insert_at + 1;
                }
                let ghost h2 = self@;
                let ghost g = insert_at as int;
                let back_start = target + size;
                if a + s > back_start {
                    proof {
                        lemma_insert_preserves_inv(
                            h2,
                            g,
                            (back_start, ((a + s) - back_start) as usize),
                        );
                    }
                    self.free_list.insert(insert_at, (back_start, (a + s) - back_start));
                }
                proof {
                    let spec_result = spec_allocate_first_fit(h0, size as int, align as int);
                    assert(self@.free =~= spec_result.0.free);
                }
                return target;
            }
            idx = idx + 1;
        }
    }

    /// Return the range `[ptr, ptr + size)`, which must lie inside the region
    /// and must not currently be available, to the free list, merging it with
    /// whichever of its neighbours it touches. Afterwards a byte is available
    /// exactly when it was available before or lies in the returned range.
    #[verifier::rlimit(100)]
    #[verifier::spinoff_prover]
    pub fn deallocate(&mut self, ptr: usize, size: usize)
        requires
            heap_inv(old(self)@),
            1 <= size,
            1 <= ptr,
            old(self)@.bottom <= ptr,
            ptr + size <= old(self)@.top,
            range_is_unused(old(self)@, ptr as int, size as int),
        ensures
            heap_inv(final(self)@),
            final(self)@.bottom == old(self)@.bottom,
            final(self)@.top == old(self)@.top,
            forall|a: int|
                covers(final(self)@.free, a) <==> covers(old(self)@.free, a) || (ptr <= a < ptr
                    + size),
    {
        let ghost h0 = self@;
        let mut idx: usize = 0;
        while idx < self.free_list.len() && self.free_list[idx].0 <= ptr
            invariant
                heap_inv(h0),
                self@ == h0,
                idx <= self.free_list.len(),
                self.free_list@.len() == h0.free.len(),
                forall|k: int| 0 <= k < idx ==> (#[trigger] h0.free[k]).0 <= ptr,
            decreases self.free_list.len() - idx,
        {
            idx = idx + 1;
        }
        let ghost q = idx as int;
        // absorb whichever neighbours the freed range touches
        let mut start = ptr;
        let mut len = size;
        let mut pos = idx;
        let ghost mut nl: int = 0;
        if idx > 0 {
            let left = self.free_list[idx - 1];
            proof {
                assert(h0.free[q - 1] == left);
            }
            if left.0 + left.1 == ptr {
                start = left.0;
                len = left.1 + len;
                self.free_list.remove(idx - 1);
                pos = idx - 1;
                proof {
                    nl = 1;
                }
            }
        }
        let ghost mut nr: int = 0;
        if pos < self.free_list.len() {
            let right = self.free_list[pos];
            proof {
                assert(right == h0.free[q]);
            }
            if start + len == right.0 {
                len = len + right.1;
                self.free_list.remove(pos);
                proof {
                    nr = 1;
                }
            }
        }
        self.free_list.insert(pos, (start, len));
        proof {
            assert(self@.free =~= h0.free.take(q - nl) + seq![(start, len)] + h0.free.skip(
                q + nr,
            ));
            lemma_deallocate_merge(h0, self@.free, q, nl, nr, ptr, size, start, len);
        }
    }

    /// Lowest address of the managed region.
    pub fn bottom(&self) -> (r: usize)
        ensures
            r == self@.bottom,
    {
        self.bottom
    }

    /// One past the highest address of the managed region.
    pub fn top(&self) -> (r: usize)
        ensures
            r == self@.top,
    {
        self.top
    }

    /// Scan the free list and report whether `[ptr, ptr + size)` is disjoint
    /// from every available block.
    pub fn is_range_unused(&self, ptr: usize, size: usize) -> (b: bool)
        requires
            heap_inv(self@),
            ptr + size <= usize::MAX,
        ensures
            b == range_is_unused(self@, ptr as int, size as int),
    {
        let mut idx: usize = 0;
        while idx < self.free_list.len()
            invariant
                heap_inv(self@),
                idx <= self.free_list.len(),
                ptr + size <= usize::MAX,
                forall|k: int|
                    0 <= k < idx ==> ((#[trigger] self@.free[k]).0 + self@.free[k].1 <= ptr || ptr
                        + size <= self@.free[k].0),
            decreases self.free_list.len() - idx,
        {
            let blk = self.free_list[idx];
            proof {
                assert(self@.free[idx as int] == blk);
            }
            if !(blk.0 + blk.1 <= ptr || ptr + size <= blk.0) {
                return false;
            }
            idx = idx + 1;
        }
        true
    }
}

} // verus!
