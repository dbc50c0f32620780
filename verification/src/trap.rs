//! Trap handling decisions.
//!
//! The hardware delivers traps through assembly stubs that save the
//! registers and call into the runtime; everything the handlers decide —
//! which service a cause selects, how the saved program counter moves,
//! what the trap frame must hold before returning to user mode — is
//! computed here.

use vstd::prelude::*;

pub mod context;

verus! {

/// The trap causes the kernel distinguishes.
#[derive(Debug, Clone, Copy, PartialEq, Eq, Structural)]
pub enum TrapCause {
    MachineTimer,
    SupervisorExternal,
    SupervisorSoft,
    UserEnvCall,
    Breakpoint,
    Other,
}

/// What a trap handler does next.
#[derive(Debug, Clone, Copy, PartialEq, Eq, Structural)]
pub enum TrapAction {
    ArmNextTick,
    ExternalIrq,
    ClearSoftAndSchedule,
    Syscall,
    Fatal,
}

/// The machine-mode timer handler's decision: only the timer interrupt
/// is expected there; it re-arms the next tick, and anything else is
/// fatal.
pub fn timer_trap_decision(cause: TrapCause) -> (r: TrapAction)
    ensures
        cause is MachineTimer ==> r is ArmNextTick,
        !(cause is MachineTimer) ==> r is Fatal,
{
    match cause {
        TrapCause::MachineTimer => TrapAction::ArmNextTick,
        _ => TrapAction::Fatal,
    }
}

/// The supervisor trap handler's decision for traps taken from kernel
/// mode: external interrupts go to the interrupt controller, the timer's
/// software signal clears the pending bit and reschedules, and anything
/// else is fatal.
pub fn kernel_trap_decision(cause: TrapCause) -> (r: TrapAction)
    ensures
        cause is SupervisorExternal ==> r is ExternalIrq,
        cause is SupervisorSoft ==> r is ClearSoftAndSchedule,
        !(cause is SupervisorExternal) && !(cause is SupervisorSoft) ==> r is Fatal,
{
    match cause {
        TrapCause::SupervisorExternal => TrapAction::ExternalIrq,
        TrapCause::SupervisorSoft => TrapAction::ClearSoftAndSchedule,
        _ => TrapAction::Fatal,
    }
}

/// The supervisor trap handler's decision for traps taken from user
/// mode, with the saved user program counter: an environment call
/// resumes past its instruction and dispatches the system call.
pub fn user_trap_decision(cause: TrapCause, sepc: u64) -> (r: (TrapAction, u64))
    requires
        cause is UserEnvCall ==> sepc + 4 <= u64::MAX,
    ensures
        cause is SupervisorExternal ==> r == (TrapAction::ExternalIrq, sepc),
        cause is SupervisorSoft ==> r == (TrapAction::ClearSoftAndSchedule, sepc),
        cause is UserEnvCall ==> r == (TrapAction::Syscall, (sepc + 4) as u64),
        !(cause is SupervisorExternal) && !(cause is SupervisorSoft) && !(cause is UserEnvCall)
            ==> r == (TrapAction::Fatal, sepc),
{
    match cause {
        TrapCause::SupervisorExternal => (TrapAction::ExternalIrq, sepc),
        TrapCause::SupervisorSoft => (TrapAction::ClearSoftAndSchedule, sepc),
        TrapCause::UserEnvCall => (TrapAction::Syscall, sepc + 4),
        _ => (TrapAction::Fatal, sepc),
    }
}

/// Fills the trap frame for the return to user mode: the kernel's page
/// table, trap entry and stack to restore on the next trap from user
/// space. The saved user program counter stays what the trap set it to.
pub fn prepare_user_return(
    frame: &mut crate::sched::context::TrapFrame,
    kernel_satp: u64,
    kernel_trap: u64,
    kernel_sp: u64,
)
    ensures
        final(frame).kernel_satp == kernel_satp,
        final(frame).kernel_trap == kernel_trap,
        final(frame).kernel_sp == kernel_sp,
        final(frame).epc == old(frame).epc,
        final(frame).regs == old(frame).regs,
{
    frame.kernel_satp = kernel_satp;
    frame.kernel_trap = kernel_trap;
    frame.kernel_sp = kernel_sp;
}

} // verus!
