use kernel_heap::allocator::align_up;
use kernel_heap::allocator::bump::{BumpAllocator, Locked};
use kernel_heap::allocator::fixed_size_block::{block_size, get_list_index, FixedSizeBlockAllocator};
use kernel_heap::allocator::linked_list::Heap;
use kernel_heap::allocator::Dummy;

#[test]
fn align_up_is_smallest_multiple() {
    assert_eq!(align_up(0, 1), 0);
    assert_eq!(align_up(0, 8), 0);
    assert_eq!(align_up(1, 8), 8);
    assert_eq!(align_up(7, 8), 8);
    assert_eq!(align_up(8, 8), 8);
    assert_eq!(align_up(9, 8), 16);
    assert_eq!(align_up(13, 1), 13);
    assert_eq!(align_up(4095, 4096), 4096);
    assert_eq!(align_up(4097, 4096), 8192);
    assert_eq!(align_up(usize::MAX - 7, 8), usize::MAX - 7);
}

#[test]
fn dummy_always_fails() {
    let d = Dummy;
    assert_eq!(d.allocate(1, 1), 0);
    assert_eq!(d.allocate(1024, 4096), 0);
}

#[test]
fn bump_serves_consecutive_aligned_ranges() {
    let mut b = BumpAllocator::new();
    b.init(4096, 1024);
    assert_eq!(b.allocate(100, 8), 4096);
    assert_eq!(b.allocate(50, 8), 4200);
    assert_eq!(b.outstanding_allocations(), 2);
    // exhaustion reports the null-equivalent sentinel and changes nothing
    assert_eq!(b.allocate(2000, 8), 0);
    assert_eq!(b.outstanding_allocations(), 2);
}

#[test]
fn bump_ranges_never_overlap() {
    let mut b = BumpAllocator::new();
    b.init(8192, 4096);
    let mut ranges: Vec<(usize, usize)> = Vec::new();
    for size in [1usize, 7, 8, 31, 64, 100] {
        let p = b.allocate(size, 8);
        assert!(p != 0);
        for (q, s) in &ranges {
            assert!(q + s <= p || p + size <= *q);
        }
        ranges.push((p, size));
    }
}

#[test]
fn bump_bulk_reclaim_returns_first_address() {
    let mut b = BumpAllocator::new();
    b.init(4096, 2048);
    let first = b.allocate(64, 8);
    assert_eq!(first, 4096);
    let second = b.allocate(64, 8);
    let third = b.allocate(64, 8);
    assert!(second != 0 && third != 0);
    // individual frees reclaim nothing until the count reaches zero
    b.deallocate(second, 64, 8);
    let fourth = b.allocate(64, 8);
    assert!(fourth > third);
    b.deallocate(first, 64, 8);
    b.deallocate(third, 64, 8);
    b.deallocate(fourth, 64, 8);
    assert_eq!(b.outstanding_allocations(), 0);
    // all gone: the next allocation starts over at heap_start
    assert_eq!(b.allocate(64, 8), first);
}

#[test]
fn bump_allocation_before_init_fails() {
    let mut b = BumpAllocator::new();
    assert_eq!(b.allocate(1, 1), 0);
}

#[test]
fn locked_bump_allocates_aligned() {
    let allocator = Locked::new(BumpAllocator::new());
    {
        let mut guard = allocator.lock();
        let inner = kernel_heap::allocator::bump::guard_deref_mut(&mut guard);
        inner.init(4096, 1024);
    }
    let p = allocator.allocate(10, 16);
    assert_eq!(p, 4096);
    let q = allocator.allocate(10, 16);
    assert_eq!(q % 16, 0);
    assert_eq!(q, 4112);
    allocator.deallocate(p, 10, 16);
    allocator.deallocate(q, 10, 16);
    assert_eq!(allocator.allocate(10, 16), 4096);
}

#[test]
fn first_fit_takes_the_first_block_that_fits() {
    let mut h = Heap::empty();
    h.init(1000, 1000);
    assert_eq!(h.allocate_first_fit(10, 1), 1000);
    // the next block starts unaligned; the pad below the aligned start stays free
    assert_eq!(h.allocate_first_fit(10, 8), 1016);
    // the six-byte pad is the first block large enough for a six-byte request
    assert_eq!(h.allocate_first_fit(6, 1), 1010);
    // no block can hold this much: failure sentinel, nothing changes
    assert_eq!(h.allocate_first_fit(2000, 1), 0);
    assert_eq!(h.allocate_first_fit(10, 1), 1026);
}

#[test]
fn first_fit_reuses_returned_ranges() {
    let mut h = Heap::empty();
    h.init(1000, 1000);
    let p = h.allocate_first_fit(100, 1);
    assert_eq!(p, 1000);
    assert!(!h.is_range_unused(1500, 10));
    assert!(h.is_range_unused(p, 100));
    h.deallocate(p, 100);
    assert!(!h.is_range_unused(p, 100));
    assert_eq!(h.allocate_first_fit(100, 1), p);
}

#[test]
fn first_fit_bounds() {
    let mut h = Heap::empty();
    assert_eq!(h.bottom(), 0);
    assert_eq!(h.top(), 0);
    assert_eq!(h.allocate_first_fit(1, 1), 0);
    h.init(1024, 512);
    assert_eq!(h.bottom(), 1024);
    assert_eq!(h.top(), 1536);
}

#[test]
fn class_table_is_the_fixed_ascending_sequence() {
    let expected = [8usize, 16, 32, 64, 128, 256, 512, 1024, 2048];
    for (i, e) in expected.iter().enumerate() {
        assert_eq!(block_size(i), *e);
    }
}

#[test]
fn get_list_index_buckets_by_max_of_size_and_align() {
    assert_eq!(get_list_index(1, 1), Some(0));
    assert_eq!(get_list_index(8, 8), Some(0));
    assert_eq!(get_list_index(9, 1), Some(1));
    assert_eq!(get_list_index(1, 16), Some(1));
    assert_eq!(get_list_index(65, 8), Some(4));
    assert_eq!(get_list_index(2048, 1), Some(8));
    assert_eq!(get_list_index(2049, 1), None);
    assert_eq!(get_list_index(1, 4096), None);
}

#[test]
fn get_list_index_is_monotonic() {
    let requests = [
        (1usize, 1usize),
        (8, 8),
        (9, 1),
        (64, 32),
        (100, 128),
        (600, 8),
        (2048, 2048),
    ];
    let mut last = 0usize;
    for (s, a) in requests {
        let i = get_list_index(s, a).unwrap();
        assert!(i >= last);
        last = i;
    }
}

#[test]
fn fixed_size_block_cache_reuse() {
    let mut f = FixedSizeBlockAllocator::new();
    f.init(0x10000, 100 * 1024);
    // class miss: a fresh block comes from the fallback heap's bottom
    let p = f.allocate(8, 8);
    assert_eq!(p, 0x10000);
    f.deallocate(p, 8, 8);
    // cache hit: the very same block comes back
    let p2 = f.allocate(8, 8);
    assert_eq!(p2, p);
    // a different class does not disturb the cached block
    let q = f.allocate(100, 8);
    assert_eq!(q % 128, 0);
    assert_eq!(q, 65664);
    f.deallocate(p2, 8, 8);
    let r = f.allocate(64, 64);
    assert!(r != 0);
    assert_eq!(f.allocate(8, 8), p);
}

#[test]
fn fixed_size_block_oversize_goes_to_fallback() {
    let mut f = FixedSizeBlockAllocator::new();
    f.init(0x10000, 100 * 1024);
    assert_eq!(f.allocate(8, 8), 0x10000);
    assert_eq!(f.allocate(100, 8), 65664);
    let big = f.allocate(3000, 8);
    assert_eq!(big, 65792);
    f.deallocate(big, 3000, 8);
    assert_eq!(f.allocate(3000, 8), big);
}

#[test]
fn fixed_size_block_exhaustion_reports_sentinel() {
    let mut f = FixedSizeBlockAllocator::new();
    f.init(0x1000, 16);
    assert_eq!(f.allocate(2048, 1), 0);
    assert_eq!(f.allocate(3000, 1), 0);
    assert_eq!(f.allocate(16, 16), 0x1000);
}
