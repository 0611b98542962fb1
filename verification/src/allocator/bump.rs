use vstd::prelude::*;
use vstd::arithmetic::power2::is_pow2;
use vstd::arithmetic::div_mod::{lemma_mod_decreases, lemma_mod_division_less_than_divisor};
use crate::allocator::{align_up, lemma_align_up_is_least_multiple, lemma_pow2_pos, spec_align_up};

verus! {

/// Ghost model of a bump allocator: its region, its bump pointer, the number
/// of outstanding allocations, and the ranges handed out since the last full
/// reset.
pub ghost struct BumpModel {
    pub heap_start: int,
    pub heap_end: int,
    pub next: int,
    pub outstanding: nat,
    pub served: Seq<(int, int)>,
}

/// Monotonic bump allocator: hands out consecutive ranges of its region and
/// reclaims them only in bulk, once every outstanding allocation is gone.
pub struct BumpAllocator {
    heap_start: usize,
    heap_end: usize,
    next: usize,
    n_allocations: usize,
    served: Ghost<Seq<(int, int)>>,
}

impl View for BumpAllocator {
    type V = BumpModel;

    closed spec fn view(&self) -> BumpModel {
        BumpModel {
            heap_start: self.heap_start as int,
            heap_end: self.heap_end as int,
            next: self.next as int,
            outstanding: self.n_allocations as nat,
            served: self.served@,
        }
    }
}

/// One allocation step on the model: round the bump pointer up to `align`,
/// and when the request fits below `heap_end`, advance the pointer past it;
/// the second component is the address served, with `0` reporting failure.
pub open spec fn spec_allocate(m: BumpModel, size: int, align: int) -> (BumpModel, int) {
    let target = spec_align_up(m.next, align);
    if target + size <= m.heap_end {
        (
            BumpModel {
                next: target + size,
                outstanding: m.outstanding + 1,
                served: m.served.push((target, size)),
                ..m
            },
            target,
        )
    } else {
        (m, 0)
    }
}

/// One deallocation step on the model: the outstanding count drops, and when
/// it reaches zero the whole region is reclaimed in one step.
pub open spec fn spec_deallocate(m: BumpModel) -> BumpModel {
    if m.outstanding <= 1 {
        BumpModel { next: m.heap_start, outstanding: 0, served: Seq::empty(), ..m }
    } else {
        BumpModel { outstanding: (m.outstanding - 1) as nat, ..m }
    }
}

/// Structural invariant of every reachable bump-allocator state: the bump
/// pointer stays inside the region, the outstanding count never exceeds the
/// bytes consumed, and the served ranges are disjoint and below the pointer.
pub open spec fn inv(m: BumpModel) -> bool {
    &&& m.heap_start <= m.next <= m.heap_end
    &&& m.outstanding <= m.next - m.heap_start
    &&& (m.heap_start == 0 ==> m.heap_end == 0)
    &&& forall|k: int|
        0 <= k < m.served.len() ==> {
            &&& (#[trigger] m.served[k]).1 >= 1
            &&& m.served[k].0 >= m.heap_start
            &&& m.served[k].0 + m.served[k].1 <= m.next
        }
    &&& forall|i: int, j: int|
        0 <= i < j < m.served.len() ==> #[trigger] m.served[i].0 + m.served[i].1
            <= #[trigger] m.served[j].0
}

impl BumpAllocator {
    #[verifier::type_invariant]
    spec fn wf(self) -> bool {
        inv(self@)
    }

    /// Every reachable allocator state satisfies `inv`.
    pub fn invariant_holds(&self)
        ensures
            inv(self@),
    {
        proof {
            use_type_invariant(&*self);
        }
    }

    /// An allocator that manages no memory yet; `init` gives it its region.
    pub fn new() -> (r: BumpAllocator)
        ensures
            r@ == (BumpModel {
                heap_start: 0,
                heap_end: 0,
                next: 0,
                outstanding: 0,
                served: Seq::empty(),
            }),
    {
        BumpAllocator { heap_start: 0, heap_end: 0, next: 0, n_allocations: 0, served: Ghost(Seq::empty()) }
    }

    /// One-shot initialization: adopt `[heap_start, heap_start + heap_size)`
    /// as the region to allocate from. The region must already be backed by
    /// present, writable memory, and must not start at the null address.
    pub fn init(&mut self, heap_start: usize, heap_size: usize)
        requires
            old(self)@.heap_end == 0,
            1 <= heap_start,
            heap_start + heap_size <= usize::MAX,
        ensures
            final(self)@ == (BumpModel {
                heap_start: heap_start as int,
                heap_end: heap_start + heap_size,
                next: heap_start as int,
                outstanding: 0,
                served: Seq::empty(),
            }),
    {
        proof {
            use_type_invariant(&*self);
        }
        *self = BumpAllocator {
            heap_start,
            heap_end: heap_start + heap_size,
            next: heap_start,
            n_allocations: 0,
            served: Ghost(Seq::empty()),
        };
    }

    /// Serve one request of `size` bytes aligned to `align`: the bump pointer
    /// is rounded up to `align` and advanced past the new range. Returns the
    /// start of the range, or the null-equivalent sentinel `0` when the
    /// request overflows or does not fit below `heap_end`.
    pub fn allocate(&mut self, size: usize, align: usize) -> (r: usize)
        requires
            1 <= size,
            is_pow2(align as int),
        ensures
            (final(self)@, r as int) == spec_allocate(old(self)@, size as int, align as int),
            r != 0 ==> r % align == 0,
    {
        proof {
            use_type_invariant(&*self);
            lemma_pow2_pos(align as int);
            lemma_mod_division_less_than_divisor(self.next as int, align as int);
            lemma_mod_decreases(self.next as nat, align as nat);
            lemma_align_up_is_least_multiple(self.next as int, align as int);
        }
        let rem = self.next % align;
        if rem != 0 && align > usize::MAX - (self.next - rem) {
            // the aligned start would not even fit in a machine word
            return 0;
        }
        let alloc_start = align_up(self.next, align);
        let alloc_end = match alloc_start.checked_add(size) {
            Some(e) => e,
            None => {
                return 0;
            },
        };
        if alloc_end > self.heap_end {
            0
        } else {
            self.next = alloc_end;
            self.n_allocations = self.n_allocations + 1;
            self.served = Ghost(self.served@.push((alloc_start as int, size as int)));
            alloc_start
        }
    }

    /// Record that one allocation was returned. The pointer and layout are
    /// not inspected: only when the outstanding count reaches zero is the
    /// whole region reclaimed, in one step.
    pub fn deallocate(&mut self, _ptr: usize, _size: usize, _align: usize)
        requires
            old(self)@.outstanding >= 1,
        ensures
            final(self)@ == spec_deallocate(old(self)@),
    {
        proof {
            use_type_invariant(&*self);
            assert(inv(BumpModel { outstanding: (old(self)@.outstanding - 1) as nat, ..old(self)@ }));
        }
        self.n_allocations = self.n_allocations - 1;
        if self.n_allocations == 0 {
            self.served = Ghost(Seq::empty());
            self.next = self.heap_start;
        }
    }

    /// How many allocations are outstanding (served and not yet returned).
    pub fn outstanding_allocations(&self) -> (r: usize)
        ensures
            r == self@.outstanding,
    {
        self.n_allocations
    }
}

/// Any two distinct ranges served by the bump allocator since its last full
/// reset are disjoint: the earlier one ends at or before the later one starts.
pub proof fn lemma_bump_no_overlap(m: BumpModel, i: int, j: int)
    requires
        inv(m),
        0 <= i < j < m.served.len(),
    ensures
        m.served[i].0 + m.served[i].1 <= m.served[j].0,
{
}

/// Does a request of `size` bytes at alignment `align` fit in state `m`?
pub open spec fn allocation_fits(m: BumpModel, size: int, align: int) -> bool {
    spec_align_up(m.next, align) + size <= m.heap_end
}

/// Does every request in `ls` (a sequence of `(size, align)` pairs) fit when
/// served in order from state `m`?
pub open spec fn all_fit(m: BumpModel, ls: Seq<(int, int)>) -> bool
    decreases ls.len(),
{
    ls.len() == 0 || (allocation_fits(m, ls[0].0, ls[0].1) && all_fit(
        spec_allocate(m, ls[0].0, ls[0].1).0,
        ls.drop_first(),
    ))
}

/// The state after serving every request in `ls` in order.
pub open spec fn apply_allocations(m: BumpModel, ls: Seq<(int, int)>) -> BumpModel
    decreases ls.len(),
{
    if ls.len() == 0 {
        m
    } else {
        apply_allocations(spec_allocate(m, ls[0].0, ls[0].1).0, ls.drop_first())
    }
}

/// The state after `n` deallocations.
pub open spec fn apply_deallocations(m: BumpModel, n: nat) -> BumpModel
    decreases n,
{
    if n == 0 {
        m
    } else {
        apply_deallocations(spec_deallocate(m), (n - 1) as nat)
    }
}

proof fn lemma_apply_allocations_outstanding(m: BumpModel, ls: Seq<(int, int)>)
    requires
        all_fit(m, ls),
    ensures
        apply_allocations(m, ls).outstanding == m.outstanding + ls.len(),
        apply_allocations(m, ls).heap_start == m.heap_start,
        apply_allocations(m, ls).heap_end == m.heap_end,
    decreases ls.len(),
{
    if ls.len() != 0 {
        lemma_apply_allocations_outstanding(spec_allocate(m, ls[0].0, ls[0].1).0, ls.drop_first());
    }
}

proof fn lemma_apply_deallocations_reset(m: BumpModel, n: nat)
    requires
        n >= 1,
        m.outstanding == n,
    ensures
        apply_deallocations(m, n).outstanding == 0,
        apply_deallocations(m, n).next == m.heap_start,
        apply_deallocations(m, n).heap_end == m.heap_end,
    decreases n,
{
    reveal_with_fuel(apply_deallocations, 2);
    if n > 1 {
        lemma_apply_deallocations_reset(spec_deallocate(m), (n - 1) as nat);
    }
}

/// Bulk-reclaim law: starting from a quiescent state, `n` allocations that
/// all fit, followed by `n` deallocations, put the bump pointer back at
/// `heap_start`, so the next request is served at the same address that the
/// same request would have been served at initially.
pub proof fn lemma_bump_bulk_reclaim(m0: BumpModel, ls: Seq<(int, int)>, size: int, align: int)
    requires
        m0.outstanding == 0,
        m0.next == m0.heap_start,
        all_fit(m0, ls),
    ensures
        ({
            let mend = apply_deallocations(apply_allocations(m0, ls), ls.len());
            &&& mend.outstanding == 0
            &&& mend.next == m0.heap_start
            &&& spec_allocate(mend, size, align).1 == spec_allocate(m0, size, align).1
        }),
{
    lemma_apply_allocations_outstanding(m0, ls);
    if ls.len() >= 1 {
        lemma_apply_deallocations_reset(apply_allocations(m0, ls), ls.len());
    }
}

/// Declares spin's busy-wait mutex so it can stand in signatures and fields;
/// its values stay opaque here.
#[verifier::external_type_specification]
#[verifier::external_body]
#[verifier::reject_recursive_types(T)]
#[verifier::reject_recursive_types(R)]
pub struct ExMutex<T: ?Sized, R>(spin::mutex::Mutex<T, R>);

/// Declares spin's lock guard, the witness of exclusive access that unlocks
/// the mutex when dropped.
#[verifier::external_type_specification]
#[verifier::external_body]
#[verifier::reject_recursive_types(T)]
pub struct ExMutexGuard<'a, T: ?Sized + 'a>(spin::mutex::MutexGuard<'a, T>);

/// Declares spin's default busy-wait relax strategy, the mutex's second type
/// parameter.
#[verifier::external_type_specification]
#[verifier::external_body]
pub struct ExSpin(spin::relax::Spin);

/// Exclusive-access wrapper: guards one value behind a busy-wait spin lock,
/// the only mutual exclusion available with no operating system beneath.
#[verifier::reject_recursive_types(T)]
pub struct Locked<T> {
    inner: spin::Mutex<T>,
}

impl<T> Locked<T> {
    /// Relies on `spin::Mutex::new`: wraps `inner` in a new, unlocked lock.
    #[verifier::external_body]
    pub fn new(inner: T) -> (r: Locked<T>) {
        Locked { inner: spin::Mutex::new(inner) }
    }

    /// Relies on `spin::Mutex::lock`: busy-waits until the lock is free, then
    /// returns a guard granting exclusive access until the guard is dropped.
    /// The caller must keep interrupts masked while holding the guard, or the
    /// same core can re-enter and self-deadlock.
    #[verifier::external_body]
    pub fn lock(&self) -> (guard: spin::mutex::MutexGuard<'_, T>) {
        self.inner.lock()
    }
}

/// Relies on `spin::MutexGuard`'s `DerefMut` impl: a guard dereferences to
/// the value its lock protects.
#[verifier::external_body]
pub fn guard_deref_mut<'a, 'b, T>(guard: &'a mut spin::mutex::MutexGuard<'b, T>) -> (r: &'a mut T) {
    &mut **guard
}

impl Locked<BumpAllocator> {
    /// Lock the allocator and serve one request; `0` reports failure. A
    /// non-null result is always aligned to `align`.
    pub fn allocate(&self, size: usize, align: usize) -> (r: usize)
        requires
            1 <= size,
            is_pow2(align as int),
        ensures
            r != 0 ==> r % align == 0,
    {
        let mut guard = self.lock();
        let allocator = guard_deref_mut(&mut guard);
        proof {
            use_type_invariant(&*allocator);
            lemma_pow2_pos(align as int);
            lemma_align_up_is_least_multiple(allocator@.next, align as int);
        }
        allocator.allocate(size, align)
    }

    /// Lock the allocator and record that one allocation was returned.
    /// Returning a block that was never served is a caller error; it is
    /// ignored here rather than corrupting the outstanding count.
    pub fn deallocate(&self, ptr: usize, size: usize, align: usize) {
        let mut guard = self.lock();
        let allocator = guard_deref_mut(&mut guard);
        if allocator.outstanding_allocations() >= 1 {
            allocator.deallocate(ptr, size, align);
        }
    }
}

} // verus!
