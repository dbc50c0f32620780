//! The trap frame as the supervisor trap path lays it out.
//!
//! Field order is part of the binary contract with the trap entry and
//! exit stubs and must not be rearranged.

use vstd::prelude::*;

verus! {

/// Registers and kernel-reentry state saved on a trap from user mode.
#[derive(Debug, Clone, Copy)]
pub struct TrapFrame {
    pub regs: [u64; 32],
    pub kernel_satp: u64,
    pub kernel_trap: u64,
    pub kernel_sp: u64,
    pub epc: u64,
}

impl TrapFrame {
    /// An all-zero trap frame, the state a fresh frame page starts in.
    pub fn new() -> (r: TrapFrame)
        ensures
            forall|i: int| 0 <= i < 32 ==> r.regs@[i] == 0,
            r.kernel_satp == 0 && r.kernel_trap == 0 && r.kernel_sp == 0 && r.epc == 0,
    {
        TrapFrame { regs: [0u64; 32], kernel_satp: 0, kernel_trap: 0, kernel_sp: 0, epc: 0 }
    }
}

} // verus!
