use early_allocator::bump::{AllocError, EarlyAllocator};

const PAGE: usize = 0x1000;

fn region() -> EarlyAllocator<PAGE> {
    let mut a = EarlyAllocator::<PAGE>::new();
    a.init(0x1000, 0x10000);
    a
}

#[test]
fn new_is_uninitialized() {
    let a = EarlyAllocator::<PAGE>::new();
    assert!(!a.is_init());
    assert_eq!(a.total_bytes(), 0);
    assert_eq!(a.used_bytes(), 0);
    assert_eq!(a.available_bytes(), 0);
}

#[test]
fn init_establishes_counts() {
    let a = region();
    assert!(a.is_init());
    assert_eq!(a.used_bytes(), 0);
    assert_eq!(a.available_bytes(), 0x10000);
    assert_eq!(a.total_bytes(), 0x10000);
    assert_eq!(a.total_pages(), 16);
    assert_eq!(a.used_pages(), 0);
    assert_eq!(a.available_pages(), 16);
}

#[test]
fn add_memory_always_fails_and_mutates_nothing() {
    let mut a = region();
    assert_eq!(a.add_memory(0x20000, 0x1000), Err(AllocError::NoMemory));
    assert_eq!(a.add_memory(0, 0), Err(AllocError::NoMemory));
    assert_eq!(a.used_bytes(), 0);
    assert_eq!(a.available_bytes(), 0x10000);
    assert_eq!(a.total_bytes(), 0x10000);
}

#[test]
fn byte_then_page_scenario() {
    let mut a = region();
    assert_eq!(a.alloc_bytes(48, 8), Ok(0x1000));
    assert_eq!(a.used_bytes(), 48);
    assert_eq!(a.alloc_pages(1, 12), Ok(0x10000));
    assert_eq!(a.available_bytes(), 0xEFD0);
    assert_eq!(a.used_pages(), 1);
    // sixteen further pages can no longer fit above the byte zone
    assert_eq!(a.alloc_pages(16, 12), Err(AllocError::NoMemory));
    assert_eq!(a.used_pages(), 1);
}

#[test]
fn freeing_last_byte_block_resets_byte_zone() {
    let mut a = region();
    assert_eq!(a.alloc_bytes(48, 8), Ok(0x1000));
    assert_eq!(a.used_bytes(), 48);
    a.dealloc(0x1000, 48, 8);
    assert_eq!(a.used_bytes(), 0);
    assert_eq!(a.available_bytes(), 0x10000);
}

#[test]
fn freeing_fewer_than_all_keeps_byte_zone() {
    let mut a = region();
    let p1 = a.alloc_bytes(16, 8).unwrap();
    let p2 = a.alloc_bytes(16, 8).unwrap();
    let p3 = a.alloc_bytes(16, 8).unwrap();
    assert_eq!(a.used_bytes(), 48);
    a.dealloc(p3, 16, 8);
    a.dealloc(p1, 16, 8);
    assert_eq!(a.used_bytes(), 48);
    a.dealloc(p2, 16, 8);
    assert_eq!(a.used_bytes(), 0);
}

#[test]
fn spurious_free_is_a_no_op() {
    let mut a = region();
    a.dealloc(0x1000, 8, 8);
    assert_eq!(a.used_bytes(), 0);
    let p = a.alloc_bytes(8, 8).unwrap();
    a.dealloc(p, 8, 8);
    a.dealloc(p, 8, 8);
    assert_eq!(a.used_bytes(), 0);
}

#[test]
fn byte_allocations_are_aligned_and_disjoint() {
    let mut a = region();
    let p1 = a.alloc_bytes(1, 1).unwrap();
    assert_eq!(p1, 0x1000);
    let p2 = a.alloc_bytes(8, 8).unwrap();
    assert_eq!(p2, 0x1008);
    assert_eq!(p2 % 8, 0);
    assert!(p1 + 1 <= p2);
    assert_eq!(a.used_bytes(), 0x10);
}

#[test]
fn exhausted_byte_alloc_fails_without_mutation() {
    let mut a = region();
    assert_eq!(a.alloc_bytes(0x8000, 8), Ok(0x1000));
    assert_eq!(a.alloc_bytes(0x9000, 8), Err(AllocError::NoMemory));
    assert_eq!(a.used_bytes(), 0x8000);
    assert_eq!(a.available_bytes(), 0x8000);
    // a request that still fits keeps succeeding
    assert_eq!(a.alloc_bytes(0x8000, 8), Ok(0x9000));
    assert_eq!(a.available_bytes(), 0);
}

#[test]
fn page_alloc_alignment_and_failure() {
    let mut a = region();
    let addr = a.alloc_pages(2, 13).unwrap();
    assert_eq!(addr % (1 << 13), 0);
    assert_eq!(addr, 0xE000);
    assert_eq!(a.used_pages(), 3);
    // an impossible request leaves the page cursor alone
    assert_eq!(a.alloc_pages(1000, 12), Err(AllocError::NoMemory));
    assert_eq!(a.used_pages(), 3);
}

#[test]
fn dealloc_pages_changes_nothing() {
    let mut a = region();
    let addr = a.alloc_pages(1, 12).unwrap();
    assert_eq!(a.used_pages(), 1);
    a.dealloc_pages(addr, 1);
    assert_eq!(a.used_pages(), 1);
    assert_eq!(a.available_pages(), 15);
    assert_eq!(a.total_pages(), 16);
}

#[test]
fn oversized_requests_fail_cleanly() {
    let mut a = region();
    assert_eq!(a.alloc_bytes(usize::MAX, 8), Err(AllocError::NoMemory));
    assert_eq!(a.alloc_bytes(usize::MAX - 0x1000, 8), Err(AllocError::NoMemory));
    assert_eq!(a.alloc_pages(usize::MAX, 12), Err(AllocError::NoMemory));
    assert_eq!(a.alloc_pages(usize::MAX / 0x1000 + 1, 12), Err(AllocError::NoMemory));
    assert_eq!(a.used_bytes(), 0);
    assert_eq!(a.used_pages(), 0);
}

#[test]
fn reinit_discards_bookkeeping() {
    let mut a = region();
    a.alloc_bytes(64, 8).unwrap();
    a.alloc_pages(1, 12).unwrap();
    a.init(0x2000, 0x4000);
    assert_eq!(a.used_bytes(), 0);
    assert_eq!(a.available_bytes(), 0x4000);
    assert_eq!(a.used_pages(), 0);
}
