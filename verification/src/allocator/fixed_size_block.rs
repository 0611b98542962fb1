use vstd::prelude::*;
use vstd::arithmetic::power::{lemma_pow_adds, lemma_pow_positive, lemma_pow_strictly_increases, pow};
use vstd::arithmetic::power2::{is_pow2, is_pow2_equiv, is_pow2_exists, lemma2_to64, pow2};
use vstd::arithmetic::div_mod::{lemma_fundamental_div_mod, lemma_mod_multiples_basic};
use crate::allocator::bump::{guard_deref_mut, Locked};
use crate::allocator::linked_list::{
    covers, heap_inv, range_is_unused, spec_allocate_first_fit, Heap, HeapModel,
};

verus! {

/// Byte size of size class `i`: the fixed ascending table 8, 16, 32, 64,
/// 128, 256, 512, 1024, 2048.
pub open spec fn spec_block_size(i: int) -> int {
    if i == 0 {
        8
    } else if i == 1 {
        16
    } else if i == 2 {
        32
    } else if i == 3 {
        64
    } else if i == 4 {
        128
    } else if i == 5 {
        256
    } else if i == 6 {
        512
    } else if i == 7 {
        1024
    } else {
        2048
    }
}

/// Byte size of size class `i`.
pub fn block_size(i: usize) -> (r: usize)
    requires
        i < 9,
    ensures
        r == spec_block_size(i as int),
{
    if i == 0 {
        8
    } else if i == 1 {
        16
    } else if i == 2 {
        32
    } else if i == 3 {
        64
    } else if i == 4 {
        128
    } else if i == 5 {
        256
    } else if i == 6 {
        512
    } else if i == 7 {
        1024
    } else {
        2048
    }
}

/// Index of the smallest class that can hold `max(size, align)` bytes, or
/// `-1` when the request exceeds the largest class.
pub open spec fn spec_class_of(size: int, align: int) -> int {
    let m = if size >= align {
        size
    } else {
        align
    };
    if m <= 8 {
        0
    } else if m <= 16 {
        1
    } else if m <= 32 {
        2
    } else if m <= 64 {
        3
    } else if m <= 128 {
        4
    } else if m <= 256 {
        5
    } else if m <= 512 {
        6
    } else if m <= 1024 {
        7
    } else if m <= 2048 {
        8
    } else {
        -1
    }
}

/// The single source of truth for bucketing: the index of the smallest class
/// whose byte size is at least `max(size, align)`, or `None` when the request
/// exceeds the largest class and must go to the fallback heap directly.
pub fn get_list_index(size: usize, align: usize) -> (r: Option<usize>)
    ensures
        match r {
            Some(i) => spec_class_of(size as int, align as int) == i,
            None => spec_class_of(size as int, align as int) == -1,
        },
{
    let m = if size >= align {
        size
    } else {
        align
    };
    if m <= 8 {
        Some(0)
    } else if m <= 16 {
        Some(1)
    } else if m <= 32 {
        Some(2)
    } else if m <= 64 {
        Some(3)
    } else if m <= 128 {
        Some(4)
    } else if m <= 256 {
        Some(5)
    } else if m <= 512 {
        Some(6)
    } else if m <= 1024 {
        Some(7)
    } else if m <= 2048 {
        Some(8)
    } else {
        None
    }
}

/// Bucketing is monotonic: a request whose `max(size, align)` does not
/// decrease never maps to a smaller class, and only a request beyond the
/// largest class maps to none.
pub proof fn lemma_get_list_index_monotonic(size1: int, align1: int, size2: int, align2: int)
    requires
        (if size1 >= align1 {
            size1
        } else {
            align1
        }) <= (if size2 >= align2 {
            size2
        } else {
            align2
        }),
    ensures
        spec_class_of(size2, align2) != -1 ==> spec_class_of(size1, align1) != -1
            && spec_class_of(size1, align1) <= spec_class_of(size2, align2),
        spec_class_of(size1, align1) == -1 ==> spec_class_of(size2, align2) == -1,
{
}

/// A request maps to no class exactly when `max(size, align)` exceeds the
/// largest class size.
pub proof fn lemma_get_list_index_none(size: int, align: int)
    ensures
        spec_class_of(size, align) == -1 <==> (if size >= align {
            size
        } else {
            align
        }) > 2048,
{
}

/// The chosen class is the smallest one that holds the request.
pub proof fn lemma_class_is_smallest(size: int, align: int)
    requires
        spec_class_of(size, align) != -1,
    ensures
        0 <= spec_class_of(size, align) < 9,
        spec_block_size(spec_class_of(size, align)) >= size,
        spec_block_size(spec_class_of(size, align)) >= align,
        spec_class_of(size, align) > 0 ==> spec_block_size(spec_class_of(size, align) - 1) < (
        if size >= align {
            size
        } else {
            align
        }),
{
}

/// Every class size in the table is a power of two.
pub proof fn lemma_block_size_pow2(c: int)
    requires
        0 <= c < 9,
    ensures
        is_pow2(spec_block_size(c)),
{
    lemma2_to64();
    lemma_pow_positive(2, (c + 3) as nat);
    assert(pow(2, (c + 3) as nat) == spec_block_size(c)) by {
        assert(pow2((c + 3) as nat) == pow(2, (c + 3) as nat) as nat);
    }
    assert(is_pow2_exists(spec_block_size(c)));
    is_pow2_equiv(spec_block_size(c));
}

/// A smaller power of two divides a larger one.
pub proof fn lemma_pow2_divides(small: int, large: int)
    requires
        is_pow2(small),
        is_pow2(large),
        small <= large,
    ensures
        large % small == 0,
{
    is_pow2_equiv(small);
    is_pow2_equiv(large);
    let i = choose|i: nat| pow(2, i) == small;
    let j = choose|j: nat| pow(2, j) == large;
    if j < i {
        lemma_pow_strictly_increases(2, j, i);
        assert(false);
    }
    crate::allocator::lemma_pow2_pos(small);
    lemma_pow_adds(2, i, (j - i) as nat);
    assert(large == small * pow(2, (j - i) as nat));
    lemma_mod_multiples_basic(pow(2, (j - i) as nat), small);
}

/// An address that is a multiple of `b` is a multiple of every divisor of `b`.
pub proof fn lemma_mod_transitive(x: int, b: int, a: int)
    requires
        x >= 0,
        b >= 1,
        a >= 1,
        x % b == 0,
        b % a == 0,
    ensures
        x % a == 0,
{
    lemma_fundamental_div_mod(x, b);
    lemma_fundamental_div_mod(b, a);
    assert(x == a * ((b / a) * (x / b))) by (nonlinear_arith)
        requires
            x == b * (x / b),
            b == a * (b / a),
    {}
    lemma_mod_multiples_basic((b / a) * (x / b), a);
}

/// Ghost model of the size-class allocator: one stack of cached block
/// addresses per class, plus the model of the fallback heap.
pub ghost struct BlockModel {
    pub heads: Seq<Seq<usize>>,
    pub fallback: HeapModel,
}

/// Structural invariant of every reachable state: nine class lists, a
/// well-formed fallback heap, and every cached block non-null and aligned to
/// its own class size.
pub open spec fn block_inv(m: BlockModel) -> bool {
    &&& m.heads.len() == 9
    &&& heap_inv(m.fallback)
    &&& forall|i: int, k: int|
        0 <= i < m.heads.len() && 0 <= k < m.heads[i].len() ==> {
            &&& (#[trigger] m.heads[i][k]) != 0
            &&& m.heads[i][k] as int % spec_block_size(i) == 0
        }
}

/// One empty class list per size class.
fn empty_heads() -> (r: Vec<Vec<usize>>)
    ensures
        r@.len() == 9,
        forall|i: int| 0 <= i < 9 ==> (#[trigger] r@[i])@.len() == 0,
{
    let mut heads: Vec<Vec<usize>> = Vec::new();
    let mut k: usize = 0;
    while k < 9
        invariant
            heads@.len() == k,
            k <= 9,
            forall|i: int| 0 <= i < k ==> (#[trigger] heads@[i])@.len() == 0,
        decreases 9 - k,
    {
        heads.push(Vec::new());
        k = k + 1;
    }
    heads
}

/// One allocation step on the model: a cached block of the right class is
/// popped when one exists; otherwise a fresh block of exactly the class size,
/// aligned to the class size, is carved from the fallback heap; an oversize
/// request goes to the fallback heap with its original layout.
pub open spec fn spec_fsb_allocate(m: BlockModel, size: int, align: int) -> (BlockModel, int) {
    let c = spec_class_of(size, align);
    if c == -1 {
        let t = spec_allocate_first_fit(m.fallback, size, align);
        (BlockModel { fallback: t.0, ..m }, t.1)
    } else if m.heads[c].len() > 0 {
        (BlockModel { heads: m.heads.update(c, m.heads[c].drop_last()), ..m }, m.heads[c].last() as int)
    } else {
        let t = spec_allocate_first_fit(m.fallback, spec_block_size(c), spec_block_size(c));
        (BlockModel { fallback: t.0, ..m }, t.1)
    }
}

/// One class-path deallocation step on the model: the returned block becomes
/// the new top of its class's stack.
pub open spec fn spec_fsb_deallocate_class(m: BlockModel, ptr: usize, c: int) -> BlockModel {
    BlockModel { heads: m.heads.update(c, m.heads[c].push(ptr)), ..m }
}

/// Fixed-size-block allocator: an array of per-class free lists layered over
/// the first-fit heap. Freed class blocks are cached on their class's stack
/// and served again in constant time; the record is kept out of band rather
/// than inside the freed memory itself.
pub struct FixedSizeBlockAllocator {
    heads: Vec<Vec<usize>>,
    fallback_allocator: Heap,
}

impl View for FixedSizeBlockAllocator {
    type V = BlockModel;

    closed spec fn view(&self) -> BlockModel {
        BlockModel {
            heads: Seq::new(self.heads@.len(), |i: int| self.heads@[i]@),
            fallback: self.fallback_allocator@,
        }
    }
}

impl FixedSizeBlockAllocator {
    #[verifier::type_invariant]
    spec fn wf(self) -> bool {
        block_inv(self@)
    }

    /// Every reachable allocator state satisfies `block_inv`.
    pub fn invariant_holds(&self)
        ensures
            block_inv(self@),
    {
        proof {
            use_type_invariant(&*self);
        }
    }

    /// An allocator with all nine class lists empty and no memory yet;
    /// `init` gives the fallback heap its region.
    pub fn new() -> (r: FixedSizeBlockAllocator)
        ensures
            r@.fallback == (HeapModel { bottom: 0, top: 0, free: Seq::empty() }),
            r@.heads.len() == 9,
            forall|i: int| 0 <= i < 9 ==> (#[trigger] r@.heads[i]).len() == 0,
    {
        FixedSizeBlockAllocator { heads: empty_heads(), fallback_allocator: Heap::empty() }
    }

    /// One-shot initialization: hand `[heap_start, heap_start + heap_size)`,
    /// already backed by present, writable memory, to the fallback heap.
    pub fn init(&mut self, heap_start: usize, heap_size: usize)
        requires
            1 <= heap_start,
            heap_start + heap_size <= usize::MAX,
        ensures
            final(self)@.heads == old(self)@.heads,
            final(self)@.fallback.bottom == heap_start,
            final(self)@.fallback.top == heap_start + heap_size,
            final(self)@.fallback.free == (if heap_size >= 1 {
                seq![(heap_start, heap_size)]
            } else {
                Seq::<(usize, usize)>::empty()
            }),
    {
        proof {
            use_type_invariant(&*self);
        }
        let mut fb = Heap::empty();
        core::mem::swap(&mut fb, &mut self.fallback_allocator);
        fb.init(heap_start, heap_size);
        core::mem::swap(&mut fb, &mut self.fallback_allocator);
    }

    /// Delegate one request to the fallback first-fit heap.
    fn fallback_alloc(&mut self, size: usize, align: usize) -> (r: usize)
        requires
            1 <= size,
            is_pow2(align as int),
        ensures
            final(self)@.heads == old(self)@.heads,
            heap_inv(final(self)@.fallback),
            (final(self)@.fallback, r as int) == spec_allocate_first_fit(
                old(self)@.fallback,
                size as int,
                align as int,
            ),
            r != 0 ==> r % align == 0,
    {
        proof {
            use_type_invariant(&*self);
        }
        let mut fb = Heap::empty();
        core::mem::swap(&mut fb, &mut self.fallback_allocator);
        let r = fb.allocate_first_fit(size, align);
        core::mem::swap(&mut fb, &mut self.fallback_allocator);
        r
    }

    /// Serve one request of `size` bytes aligned to `align`. When a class
    /// applies and its list is non-empty, the cached top block is returned in
    /// constant time; when the list is empty, a fresh block of exactly the
    /// class size is carved from the fallback heap; an oversize request is
    /// delegated with its original layout. Returns the address, or the
    /// null-equivalent sentinel `0` on exhaustion.
    #[verifier::rlimit(50)]
    #[verifier::spinoff_prover]
    pub fn allocate(&mut self, size: usize, align: usize) -> (r: usize)
        requires
            1 <= size,
            is_pow2(align as int),
        ensures
            (final(self)@, r as int) == spec_fsb_allocate(old(self)@, size as int, align as int),
            r != 0 ==> r % align == 0,
    {
        proof {
            use_type_invariant(&*self);
        }
        let ghost m0 = self@;
        match get_list_index(size, align) {
            Some(index) => {
                let ghost c = index as int;
                proof {
                    lemma_class_is_smallest(size as int, align as int);
                    lemma_block_size_pow2(c);
                    crate::allocator::lemma_pow2_pos(align as int);
                }
                let bs = block_size(index);
                let mut heads: Vec<Vec<usize>> = empty_heads();
                core::mem::swap(&mut heads, &mut self.heads);
                proof {
                    assert(Seq::new(heads@.len(), |i: int| heads@[i]@) =~~= m0.heads);
                }
                let r: usize;
                if heads[index].len() > 0 {
                    let stack = &mut heads[index];
                    r = match stack.pop() {
                        Some(p) => p,
                        None => 0,
                    };
                    proof {
                        assert(r == m0.heads[c].last());
                        assert(r as int % spec_block_size(c) == 0);
                        lemma_pow2_divides(align as int, spec_block_size(c));
                        lemma_mod_transitive(r as int, spec_block_size(c), align as int);
                        assert(r as int % align as int == 0);
                    }
                } else {
                    r = self.fallback_alloc(bs, bs);
                    proof {
                        if r != 0 {
                            lemma_pow2_divides(align as int, spec_block_size(c));
                            lemma_mod_transitive(r as int, spec_block_size(c), align as int);
                        }
                    }
                }
                proof {
                    let hs = Seq::new(heads@.len(), |i: int| heads@[i]@);
                    if m0.heads[c].len() > 0 {
                        assert(hs =~~= m0.heads.update(c, m0.heads[c].drop_last()));
                        assert(forall|k: int|
                            0 <= k < m0.heads[c].drop_last().len()
                                ==> #[trigger] m0.heads[c].drop_last()[k] == m0.heads[c][k]);
                    } else {
                        assert(hs =~~= m0.heads);
                    }
                    assert(block_inv(BlockModel { heads: hs, fallback: self@.fallback }));
                }
                core::mem::swap(&mut heads, &mut self.heads);
                proof {
                    if m0.heads[c].len() > 0 {
                        assert(self@.heads =~~= m0.heads.update(c, m0.heads[c].drop_last()));
                        assert(self@.fallback == m0.fallback);
                    } else {
                        assert(self@.heads =~~= m0.heads);
                    }
                }
                r
            },
            None => self.fallback_alloc(size, align),
        }
    }

    /// Return one block. The same bucketing as at allocation time decides its
    /// path: a class block becomes the new top of its class's cache, an
    /// oversize block goes back to the fallback heap. The layout must be the
    /// one used at the matching `allocate` call.
    #[verifier::rlimit(50)]
    #[verifier::spinoff_prover]
    pub fn deallocate(&mut self, ptr: usize, size: usize, align: usize)
        requires
            ({
                let c = spec_class_of(size as int, align as int);
                if c != -1 {
                    ptr != 0 && ptr as int % spec_block_size(c) == 0
                } else {
                    &&& 1 <= size
                    &&& 1 <= ptr
                    &&& old(self)@.fallback.bottom <= ptr
                    &&& ptr + size <= old(self)@.fallback.top
                    &&& range_is_unused(old(self)@.fallback, ptr as int, size as int)
                }
            }),
        ensures
            ({
                let c = spec_class_of(size as int, align as int);
                if c != -1 {
                    final(self)@ == spec_fsb_deallocate_class(old(self)@, ptr, c)
                } else {
                    &&& final(self)@.heads == old(self)@.heads
                    &&& final(self)@.fallback.bottom == old(self)@.fallback.bottom
                    &&& final(self)@.fallback.top == old(self)@.fallback.top
                    &&& forall|a: int|
                        covers(final(self)@.fallback.free, a) <==> covers(
                            old(self)@.fallback.free,
                            a,
                        ) || (ptr <= a < ptr + size)
                }
            }),
    {
        proof {
            use_type_invariant(&*self);
        }
        let ghost m0 = self@;
        match get_list_index(size, align) {
            Some(index) => {
                let ghost c = index as int;
                proof {
                    lemma_class_is_smallest(size as int, align as int);
                }
                let mut heads: Vec<Vec<usize>> = empty_heads();
                core::mem::swap(&mut heads, &mut self.heads);
                proof {
                    assert(Seq::new(heads@.len(), |i: int| heads@[i]@) =~~= m0.heads);
                }
                let stack = &mut heads[index];
                stack.push(ptr);
                proof {
                    let hs = Seq::new(heads@.len(), |i: int| heads@[i]@);
                    assert(hs =~~= m0.heads.update(c, m0.heads[c].push(ptr)));
                    assert(forall|k: int|
                        0 <= k < m0.heads[c].len() ==> #[trigger] m0.heads[c].push(ptr)[k]
                            == m0.heads[c][k]);
                    assert(m0.heads[c].push(ptr)[m0.heads[c].len() as int] == ptr);
                    assert(block_inv(BlockModel { heads: hs, fallback: self@.fallback }));
                }
                core::mem::swap(&mut heads, &mut self.heads);
                proof {
                    assert(self@.heads =~~= m0.heads.update(c, m0.heads[c].push(ptr)));
                }
            },
            None => {
                let mut fb = Heap::empty();
                core::mem::swap(&mut fb, &mut self.fallback_allocator);
                fb.deallocate(ptr, size);
                core::mem::swap(&mut fb, &mut self.fallback_allocator);
            },
        }
    }
}

/// Cache-reuse law: for a request that maps to a size class, an allocation
/// that succeeds, a deallocation of that block, and a second allocation of
/// the same layout, with no other operation on that class in between, yield
/// the same address again.
pub proof fn lemma_cache_reuse(m0: BlockModel, size: int, align: int)
    requires
        block_inv(m0),
        spec_class_of(size, align) != -1,
        spec_fsb_allocate(m0, size, align).1 != 0,
    ensures
        ({
            let c = spec_class_of(size, align);
            let m1 = spec_fsb_allocate(m0, size, align).0;
            let p = spec_fsb_allocate(m0, size, align).1;
            let m2 = spec_fsb_deallocate_class(m1, p as usize, c);
            spec_fsb_allocate(m2, size, align).1 == p
        }),
{
    let c = spec_class_of(size, align);
    lemma_class_is_smallest(size, align);
    let m1 = spec_fsb_allocate(m0, size, align).0;
    let p = spec_fsb_allocate(m0, size, align).1;
    if m0.heads[c].len() > 0 {
        assert(0 <= p <= usize::MAX);
    } else {
        crate::allocator::linked_list::lemma_first_fit_index_bounds(
            m0.fallback.free,
            spec_block_size(c),
            spec_block_size(c),
        );
        let f = crate::allocator::linked_list::first_fit_index(
            m0.fallback.free,
            spec_block_size(c),
            spec_block_size(c),
        );
        assert(0 <= p <= usize::MAX);
    }
    let m2 = spec_fsb_deallocate_class(m1, p as usize, c);
    assert(m1.heads.len() == 9);
    assert(m2.heads[c] == m1.heads[c].push(p as usize));
    assert(m2.heads[c].len() > 0);
    assert(m2.heads[c].last() == p as usize);
}

impl Locked<FixedSizeBlockAllocator> {
    /// Lock the allocator and serve one request; `0` reports failure. A
    /// non-null result is always aligned to `align`.
    pub fn allocate(&self, size: usize, align: usize) -> (r: usize)
        requires
            1 <= size,
            is_pow2(align as int),
        ensures
            r != 0 ==> r % align == 0,
    {
        let mut guard = self.lock();
        let allocator = guard_deref_mut(&mut guard);
        allocator.allocate(size, align)
    }

    /// Lock the allocator and return one block. Returning a block that was
    /// never served with this layout is a caller error, undefined behavior in
    /// the downstream contract; here it is detected and ignored rather than
    /// corrupting the free lists.
    pub fn deallocate(&self, ptr: usize, size: usize, align: usize) {
        let mut guard = self.lock();
        let allocator = guard_deref_mut(&mut guard);
        proof {
            use_type_invariant(&*allocator);
        }
        match get_list_index(size, align) {
            Some(index) => {
                let bs = block_size(index);
                if ptr != 0 && ptr % bs == 0 {
                    allocator.deallocate(ptr, size, align);
                }
            },
            None => {
                let bottom = allocator.fallback_allocator.bottom();
                let top = allocator.fallback_allocator.top();
                if size >= 1 && ptr >= 1 && bottom <= ptr && ptr <= usize::MAX - size && ptr + size
                    <= top && allocator.fallback_allocator.is_range_unused(ptr, size) {
                    allocator.deallocate(ptr, size, align);
                }
            },
        }
    }
}

} // verus!
