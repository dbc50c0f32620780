//! Early interrupt plumbing: the bare trap frames of the boot-time
//! machine and supervisor handlers, and their return-address decisions.

use vstd::prelude::*;

use crate::trap::TrapCause;

verus! {

/// The minimal register save area of the early trap stubs. Field order
/// is part of the binary contract with those stubs.
#[derive(Debug, Clone, Copy)]
pub struct TrapFrame {
    pub regs: [u64; 32],
    pub satp: u64,
    pub epc: u64,
}

impl TrapFrame {
    /// An all-zero frame.
    pub fn new() -> (r: TrapFrame)
        ensures
            r.satp == 0 && r.epc == 0,
    {
        TrapFrame { regs: [0u64; 32], satp: 0, epc: 0 }
    }
}

/// The early machine-mode handler's resume address: a timer interrupt
/// resumes where it hit; anything else is fatal.
pub fn m_irq_handler(mepc: u64, cause: TrapCause) -> (r: u64)
    requires
        cause is MachineTimer,
    ensures
        r == mepc,
{
    mepc
}

/// The early supervisor handler's resume address: a breakpoint resumes
/// past its two-byte instruction; anything else is fatal.
pub fn s_irq_handler(sepc: u64, cause: TrapCause) -> (r: u64)
    requires
        cause is Breakpoint,
        sepc + 2 <= u64::MAX,
    ensures
        r == sepc + 2,
{
    sepc + 2
}

} // verus!
