use aloe::mem::buddy::{AllocLayout, BuddyAllocator, NODE_HEADER};
use aloe::util::KIB;

#[test]
fn test_buddy_new() {
    let len = 10 * KIB;
    let mut memory = vec![0u8; len];
    let layout = AllocLayout { size: 1, align: 1 };

    let mut ptrs = Vec::new();
    let mut alloc = BuddyAllocator::new(0, len);

    for i in 0..3u8 {
        let ptr = alloc.alloc_block(layout);
        memory[ptr] = i;
        assert_eq!(memory[ptr], i);
        ptrs.push(ptr);
    }

    for i in 0..3u8 {
        let ptr = ptrs[i as usize];
        assert_eq!(memory[ptr], i);
        alloc.dealloc_block(ptr, layout);
    }
}

#[test]
fn alloc_random() {
    let len = 32 * KIB;
    let mut memory = vec![0u8; len];

    let mut ptrs = Vec::new();
    let mut alloc = BuddyAllocator::new(0, len);

    for i in 0..100usize {
        let layout = AllocLayout { size: (i * 8) % 128 + 8, align: 8 };
        let ptr = alloc.alloc_block(layout);
        assert_eq!(ptr % 8, 0);
        memory[ptr] = i as u8;
        assert_eq!(memory[ptr], i as u8);
        ptrs.push(ptr);
    }

    for i in 0..100usize {
        let ptr = ptrs[i];
        assert_eq!(memory[ptr], i as u8);
        alloc.dealloc_block(ptr, AllocLayout { size: (i * 8) % 128 + 8, align: 8 });
    }
}

#[test]
fn allocations_follow_headers() {
    let mut alloc = BuddyAllocator::new(0, 4 * KIB);
    let a = alloc.alloc_block(AllocLayout { size: 16, align: 8 });
    let b = alloc.alloc_block(AllocLayout { size: 16, align: 8 });
    assert_eq!(a, NODE_HEADER);
    assert_eq!(b, NODE_HEADER + 16 + NODE_HEADER);
}

#[test]
fn freeing_gives_the_block_back() {
    let mut alloc = BuddyAllocator::new(0, 4 * KIB);
    let layout = AllocLayout { size: 100, align: 16 };
    let a = alloc.alloc_block(layout);
    assert_eq!(a % 16, 0);
    alloc.dealloc_block(a, layout);
    assert_eq!(alloc.alloc_block(layout), a);
}

#[test]
fn empty_allocation_is_the_region_start() {
    let mut alloc = BuddyAllocator::new(64, 4 * KIB);
    assert_eq!(alloc.alloc_block(AllocLayout { size: 0, align: 1 }), 64);
}

#[test]
fn freed_neighbours_are_joined() {
    let mut alloc = BuddyAllocator::new(0, 4 * KIB);
    let l = AllocLayout { size: 64, align: 8 };
    let a = alloc.alloc_block(l);
    let b = alloc.alloc_block(l);
    let c = alloc.alloc_block(l);
    alloc.dealloc_block(a, l);
    alloc.dealloc_block(b, l);
    // `a` and `b` are one free block now, large enough for both
    let big = alloc.alloc_block(AllocLayout { size: 64 + NODE_HEADER + 64, align: 8 });
    assert_eq!(big, a);
    assert!(c > big);
}

#[test]
fn region_must_hold_a_header() {
    assert!(!BuddyAllocator::is_usable(0, NODE_HEADER));
    assert!(BuddyAllocator::is_usable(0, NODE_HEADER + 1));
    // An unaligned start costs the bytes up to the next header alignment.
    assert!(!BuddyAllocator::is_usable(3, NODE_HEADER + 5));
    assert!(BuddyAllocator::is_usable(3, NODE_HEADER + 6));
}

#[test]
fn fit_and_ownership_queries() {
    let mut alloc = BuddyAllocator::new(0, 256);
    let big = AllocLayout { size: 1024, align: 8 };
    let small = AllocLayout { size: 32, align: 8 };
    assert!(!alloc.has_fit(big));
    assert!(alloc.has_fit(small));
    let p = alloc.alloc_block(small);
    assert!(alloc.holds_allocation(p, small));
    assert!(!alloc.holds_allocation(p, AllocLayout { size: 16, align: 8 }));
    alloc.dealloc_block(p, small);
    assert!(!alloc.holds_allocation(p, small));
}
