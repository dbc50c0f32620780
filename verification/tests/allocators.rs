//! Allocator behaviour: page round trips, heap coalescing, task ids.

use rvos::mm::linked_list_allocator::LinkedListAllocator;
use rvos::mm::page::PageAllocator;
use rvos::sched::task::TaskIdAllocator;

const BASE: u64 = 0x8020_0000;

#[test]
fn page_alloc_first_fit_round_trip() {
    // Allocate three single pages, free the first two, and watch an
    // order-1 run land exactly where the first page was.
    let mut pa = PageAllocator::new(BASE, 8);
    let a = pa.alloc_pages(0).unwrap();
    let b = pa.alloc_pages(0).unwrap();
    let c = pa.alloc_pages(0).unwrap();
    assert_eq!(a, BASE);
    assert_eq!(b, BASE + 0x1000);
    assert_eq!(c, BASE + 0x2000);

    pa.free(a);
    let d = pa.alloc_pages(1).unwrap();
    // pages 0 is free but page 1 is taken: the order-1 run starts past c
    assert_eq!(d, BASE + 0x3000);

    pa.free(b);
    let e = pa.alloc_pages(1).unwrap();
    // first fit over the now contiguous a+b region
    assert_eq!(e, a);

    pa.free(c);
    pa.free(d);
    pa.free(e);
    // everything is free again: an order-3 run covering the whole range
    let f = pa.alloc_pages(3).unwrap();
    assert_eq!(f, BASE);
}

#[test]
fn page_alloc_exhaustion_and_bad_free() {
    let mut pa = PageAllocator::new(BASE, 3);
    let a = pa.alloc_pages(0).unwrap();
    let b = pa.alloc_pages(1).unwrap();
    assert!(pa.alloc_pages(0).is_none());
    // out-of-range frees and frees of a run's non-head page are silent
    // no-ops
    pa.free(0);
    pa.free(BASE + 0x8000);
    pa.free(b + 0x1000);
    assert!(pa.alloc_pages(0).is_none());
    pa.free(a);
    pa.free(a);
    // the double free changed nothing the second time
    let a2 = pa.alloc_pages(0).unwrap();
    assert_eq!(a2, a);
    pa.free(a2);
    pa.free(b);
}

#[test]
fn heap_coalescing_two_adjacent_blocks_merge() {
    let mut heap = LinkedListAllocator::new();
    heap.init(0x1000, 0x100);
    // carve three 32-byte blocks from the front
    let x = heap.find_free_region(32).unwrap();
    let y = heap.find_free_region(32).unwrap();
    let z = heap.find_free_region(32).unwrap();
    assert_eq!(x, 0x1000);
    assert_eq!(y, 0x1020);
    assert_eq!(z, 0x1040);
    assert_eq!(heap.check_order().len(), 1);

    // free x: its own node, apart from the tail region
    heap.add_free_region(x, 32);
    assert_eq!(heap.check_order().len(), 2);
    // free z: exactly adjacent to the tail region, so they merge
    heap.add_free_region(z, 32);
    assert_eq!(heap.check_order().len(), 2);

    // free y: bridges x and z and the tail into one node again
    heap.add_free_region(y, 32);
    let regions = heap.check_order();
    assert_eq!(regions.len(), 1);
    assert_eq!(regions[0], (0x1000, 0x100));
}

#[test]
fn heap_whole_block_taken_when_remainder_cannot_hold_a_node() {
    let mut heap = LinkedListAllocator::new();
    heap.init(0x2000, 40);
    // 32 bytes leave an 8-byte remainder, too small for a node: the
    // whole 40 bytes go out
    let x = heap.find_free_region(32).unwrap();
    assert_eq!(x, 0x2000);
    assert_eq!(heap.check_order().len(), 0);
    heap.add_free_region(0x2000, 40);
    assert_eq!(heap.check_order(), vec![(0x2000, 40)]);
}

#[test]
fn heap_size_by_align_rounds_up() {
    assert_eq!(LinkedListAllocator::size_by_align(1, 1), 16);
    assert_eq!(LinkedListAllocator::size_by_align(17, 8), 24);
    assert_eq!(LinkedListAllocator::size_by_align(32, 16), 32);
    assert_eq!(LinkedListAllocator::size_by_align(33, 32), 64);
}

#[test]
fn task_ids_unique_and_reusable() {
    let mut ids = TaskIdAllocator::new();
    let a = ids.alloc_task_id();
    let b = ids.alloc_task_id();
    let c = ids.alloc_task_id();
    assert_eq!(a.0, 0);
    assert_eq!(b.0, 1);
    assert_eq!(c.0, 2);
    // freeing and reallocating may hand the same id back
    ids.free_task_id(b);
    let b2 = ids.alloc_task_id();
    assert_eq!(b2.0, 1);
    // live ids are distinct
    assert_ne!(a.0, b2.0);
    assert_ne!(c.0, b2.0);
}
