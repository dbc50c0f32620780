//! Fixed addresses and sizes of the emulated board and of the kernel's
//! memory layout. The target is RV64, so addresses are held as `u64`.

use vstd::prelude::*;

verus! {

/// 4 KiB (2^12) pages.
pub const PAGE_SIZE: u64 = 0x1000;

/// DRAM starts at 0x8000_0000.
pub const DRAM_BASE: u64 = 0x8000_0000;

/// At least 128 MiB of RAM is assumed.
pub const DRAM_SIZE: u64 = 0x800_0000;

/// Bottom of the page-managed range; the kernel image is assumed to fit
/// below it (2 MiB reserved).
pub const LOW_MEMORY: u64 = DRAM_BASE + 0x20_0000;

/// Top of the page-managed range.
pub const HIGH_MEMORY: u64 = DRAM_BASE + DRAM_SIZE;

/// 1 MiB reserved in the kernel image for the kernel heap.
pub const KERNEL_HEAP_SIZE: u64 = 0x10_0000;

/// UART MMIO window.
pub const UART_BASE: u64 = 0x1000_0000;

/// CLINT MMIO window.
pub const CLINT_BASE: u64 = 0x200_0000;

pub const CLINT_SIZE: u64 = 0x10000;

/// PLIC MMIO window.
pub const PLIC_BASE: u64 = 0xc00_0000;

pub const PLIC_SIZE: u64 = 0x21_6000;

/// Virtio-mmio window of the block device.
pub const VIRTIO_BASE: u64 = 0x1000_1000;

pub const VIRTIO_SIZE: u64 = 0x1000;

/// Every user task's code is mapped at this fixed virtual address.
pub const TASK_START_ADDR: u64 = 0x1000;

/// Every user task's stack top sits at this fixed virtual address.
pub const STACK_TOP_ADDR: u64 = 0xa000_0000;

/// Highest virtual address under Sv39 (2^39 - 1).
pub const MAX_VA: u64 = 0x7f_ffff_ffff;

/// The trampoline page is mapped at the same, highest page of every
/// address space.
pub const TRAMPOLINE_VA: u64 = MAX_VA - PAGE_SIZE + 1;

/// The trap frame of a user task is mapped just below the trampoline.
pub const TRAPFRAME_VA: u64 = TRAMPOLINE_VA - PAGE_SIZE;

} // verus!
