//! Kernel heap setup: seeds the free-list allocator with the byte range
//! reserved for dynamic allocation.
//!
//! Allocation failure has no recovery path in the kernel: the caller of a
//! failed allocation halts the system, so the allocator's contracts treat
//! exhaustion as a plain `None` that the runtime turns into a fatal stop.

use vstd::prelude::*;

use crate::mm::linked_list_allocator::{block_range, LinkedListAllocator};

verus! {

/// Builds the kernel heap allocator over `[heap_start, heap_start +
/// heap_size)`, the whole range free.
pub fn init(heap_start: u64, heap_size: u64) -> (a: LinkedListAllocator)
    requires
        heap_start % 8 == 0,
        heap_size % 8 == 0,
        heap_size >= 16,
        heap_start + heap_size <= u64::MAX,
    ensures
        a.wf(),
        a.covered() == block_range(heap_start, heap_size),
        a.regions@.len() == 1,
{
    let mut a = LinkedListAllocator::new();
    a.init(heap_start, heap_size);
    a
}

} // verus!
