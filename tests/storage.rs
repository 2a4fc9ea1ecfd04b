use pathfinder_tiling::allocator::StorageAllocator;
use std::cell::Cell;

#[test]
fn objects_are_recycled_after_end_frame() {
    let built = Cell::new(0u32);
    let mut allocator: StorageAllocator<u64> = StorageAllocator::new(4);
    let sizes = [1u64, 16, 17, 1000, 17, 0];
    let mut ids = Vec::new();
    for &size in &sizes {
        ids.push(allocator.allocate(size, |capacity| {
            built.set(built.get() + 1);
            capacity
        }));
    }
    assert_eq!(built.get(), 6);
    allocator.end_frame();
    for &size in &sizes {
        allocator.allocate(size, |capacity| {
            built.set(built.get() + 1);
            capacity
        });
    }
    assert_eq!(built.get(), 6);
}

#[test]
fn size_classes_round_up_to_powers_of_two() {
    let mut allocator: StorageAllocator<u64> = StorageAllocator::new(4);
    let small = allocator.allocate(3, |capacity| capacity);
    let exact = allocator.allocate(16, |capacity| capacity);
    let above = allocator.allocate(17, |capacity| capacity);
    assert_eq!(*allocator.get(small), 16);
    assert_eq!(*allocator.get(exact), 32);
    assert_eq!(*allocator.get(above), 32);
    assert_eq!(small.bucket, 0);
    assert_eq!(exact.bucket, 1);
    assert_eq!((above.bucket, above.index), (1, 1));
}

#[test]
fn freed_object_is_handed_out_again() {
    let mut allocator: StorageAllocator<String> = StorageAllocator::new(0);
    let id = allocator.allocate(5, |_| String::from("first"));
    allocator.end_frame();
    let again = allocator.allocate(6, |_| String::from("second"));
    assert_eq!(again, id);
    assert_eq!(allocator.get(again), "first");
    let fresh = allocator.allocate(7, |_| String::from("third"));
    assert_eq!(allocator.get(fresh), "third");
}
