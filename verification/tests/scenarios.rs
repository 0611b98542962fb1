use kernel_heap::allocator::bump::Locked;
use kernel_heap::allocator::fixed_size_block::FixedSizeBlockAllocator;
use kernel_heap::allocator::init_heap;
use kernel_heap::allocator::HEAP_SIZE;
use kernel_heap::memory::HeapRegion;

const HEAP_BASE: usize = 0x10000;

fn fresh_heap() -> (HeapRegion, Locked<FixedSizeBlockAllocator>) {
    let region = HeapRegion::new(HEAP_BASE, HEAP_SIZE);
    let allocator = Locked::new(FixedSizeBlockAllocator::new());
    init_heap(&allocator, HEAP_BASE, HEAP_SIZE);
    (region, allocator)
}

#[test]
fn simple_allocation() {
    let (mut region, allocator) = fresh_heap();
    let p1 = allocator.allocate(8, 8);
    let p2 = allocator.allocate(8, 8);
    assert!(p1 != 0 && p2 != 0);
    // the two single-word values do not alias
    assert!(p1 + 8 <= p2 || p2 + 8 <= p1);
    region.store_u64(p1, 114);
    region.store_u64(p2, 514);
    assert_eq!(region.load_u64(p1), 114);
    assert_eq!(region.load_u64(p2), 514);
}

#[test]
fn large_vec() {
    let (mut region, allocator) = fresh_heap();
    // a growable container backed by this allocator: doubling capacity,
    // copying over, and returning the old buffer on each growth step
    let mut cap: usize = 1;
    let mut len: usize = 0;
    let mut buf = allocator.allocate(8 * cap, 8);
    assert!(buf != 0);
    for i in 0..1000u64 {
        if len == cap {
            let new_cap = cap * 2;
            let new_buf = allocator.allocate(8 * new_cap, 8);
            assert!(new_buf != 0);
            for k in 0..len {
                let v = region.load_u64(buf + 8 * k);
                region.store_u64(new_buf + 8 * k, v);
            }
            allocator.deallocate(buf, 8 * cap, 8);
            buf = new_buf;
            cap = new_cap;
        }
        region.store_u64(buf + 8 * len, i);
        len += 1;
    }
    let mut sum: u64 = 0;
    for k in 0..len {
        sum += region.load_u64(buf + 8 * k);
    }
    assert_eq!(sum, 499500);
}

#[test]
fn many_boxes() {
    let (mut region, allocator) = fresh_heap();
    let long_lived = allocator.allocate(8, 8);
    assert!(long_lived != 0);
    region.store_u64(long_lived, 1);
    for i in 0..(HEAP_SIZE / 8) {
        let x = allocator.allocate(8, 8);
        assert!(x != 0);
        assert!(x != long_lived);
        region.store_u64(x, i as u64);
        assert_eq!(region.load_u64(x), i as u64);
        allocator.deallocate(x, 8, 8);
    }
    // the block that was never freed is untouched by all that reuse
    assert_eq!(region.load_u64(long_lived), 1);
}
