use os_kernel::id::RecycleAllocator;

#[test]
fn fresh_ids_count_up_from_zero() {
    let mut a = RecycleAllocator::new();
    assert_eq!(a.alloc_id(), 0);
    assert_eq!(a.alloc_id(), 1);
    assert_eq!(a.alloc_id(), 2);
    assert!(a.is_allocated(0));
    assert!(a.is_allocated(2));
    assert!(!a.is_allocated(3));
}

#[test]
fn released_id_comes_back_first() {
    let mut a = RecycleAllocator::new();
    for _ in 0..4 {
        a.alloc_id();
    }
    a.dealloc_id(1);
    assert!(!a.is_allocated(1));
    a.dealloc_id(3);
    assert_eq!(a.alloc_id(), 3);
    assert_eq!(a.alloc_id(), 1);
    assert_eq!(a.alloc_id(), 4);
    assert!(a.is_allocated(1));
}

#[test]
fn allocate_then_release_restores_ids_in_use() {
    let mut a = RecycleAllocator::new();
    a.alloc_id();
    a.alloc_id();
    let id = a.alloc_id();
    a.dealloc_id(id);
    assert!(a.is_allocated(0));
    assert!(a.is_allocated(1));
    assert!(!a.is_allocated(2));
    assert!(a.has_capacity());
}

#[test]
fn new_allocator_has_capacity_and_nothing_in_use() {
    let a = RecycleAllocator::new();
    assert!(a.has_capacity());
    assert!(!a.is_allocated(0));
}
