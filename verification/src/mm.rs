//! Memory management: physical page allocator, kernel heap, and the
//! Sv39 virtual-memory mapper.

use vstd::prelude::*;

pub mod kheap;
pub mod linked_list_allocator;
pub mod mapping;
pub mod page;

verus! {

/// Brings the memory subsystem up for the boot path: the kernel heap
/// over its reserved range, the physical page allocator over the managed
/// range, and the kernel's identity address space built from the boot
/// segments.
pub fn init(
    heap_start: u64,
    heap_size: u64,
    page_base: u64,
    npages: usize,
    root_ppn: u64,
    segments: Vec<crate::mm::mapping::Segment>,
) -> (r: (
    crate::mm::linked_list_allocator::LinkedListAllocator,
    crate::mm::page::PageAllocator,
    crate::mm::mapping::Mapping,
))
    requires
        heap_start % 8 == 0,
        heap_size % 8 == 0,
        heap_size >= 16,
        heap_start + heap_size <= u64::MAX,
        page_base > 0,
        page_base % 4096 == 0,
        page_base + npages * 4096 <= u64::MAX,
        root_ppn < 0x1000_0000_0000,
        root_ppn + 1 + 2 * crate::mm::mapping::total_pages(segments@) <= 0x1000_0000_0000,
        forall|i: int|
            0 <= i < segments@.len() ==> crate::mm::mapping::segment_ok(#[trigger] segments@[i]),
    ensures
        r.0.wf(),
        r.0.covered() == crate::mm::linked_list_allocator::block_range(heap_start, heap_size),
        r.1.wf(),
        r.1.base == page_base,
        r.1.pages@.len() == npages,
        forall|i: int| 0 <= i < npages ==> r.1.is_free(i),
        r.2.wf(),
        forall|va2: u64|
            va2 <= crate::config::MAX_VA ==> #[trigger] r.2.translate(va2)
                == crate::mm::mapping::segments_translate(segments@, va2),
{
    let heap = crate::mm::kheap::init(heap_start, heap_size);
    let pa = crate::mm::page::PageAllocator::new(page_base, npages);
    proof {
        assert(forall|i: int|
            0 <= i < segments@.len() ==> crate::mm::mapping::page_count(
                (#[trigger] segments@[i]).len,
            ) >= 0);
        assert(0u8 & 1 != 1) by (bit_vector);
    }
    let m = crate::mm::mapping::init(root_ppn, segments);
    (heap, pa, m)
}

} // verus!
