//! Core logic of a small RISC-V kernel, stated and proved with Verus.
//!
//! The crate models the kernel's data structures as plain values: the
//! physical page allocator's bitmap, the kernel heap's free list, Sv39
//! page tables, the task table and run queue, the virtio block queue's
//! descriptor bookkeeping, and the on-disk filesystem. Hardware access
//! (MMIO, CSRs, the context-switch primitive) lives outside this crate;
//! every function here computes over explicit state and carries a contract.

use vstd::prelude::*;

pub mod bio;
pub mod config;
pub mod fs;
pub mod fsops;
pub mod mkfs;
pub mod mm;
pub mod irq;
pub mod sched;
pub mod syscall;
pub mod trap;
pub mod utils;
pub mod virtio;

verus! {

} // verus!
