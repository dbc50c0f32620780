//! Trap-frame and task-context layouts.
//!
//! These structs mirror the register-save areas that the low-level trap
//! entry and context-switch routines fill and drain. Field order is part
//! of the binary contract with that code and must not be rearranged.

use vstd::prelude::*;

verus! {

/// Registers and kernel-reentry state saved on a trap.
///
/// `regs[i]` holds general register `x[i]`; `regs[0]` is hard-wired zero,
/// `regs[2]` is the stack pointer, and `regs[10..18]` are the argument
/// registers `a0..a7`.
pub struct TrapFrame {
    pub regs: [u64; 32],
    pub kernel_satp: u64,
    pub kernel_trap: u64,
    pub kernel_sp: u64,
    pub epc: u64,
}

impl TrapFrame {
    /// Sets the saved stack pointer (`x2`).
    pub fn set_sp(&mut self, val: u64)
        ensures
            final(self).regs@ == old(self).regs@.update(2, val),
            final(self).kernel_satp == old(self).kernel_satp,
            final(self).kernel_trap == old(self).kernel_trap,
            final(self).kernel_sp == old(self).kernel_sp,
            final(self).epc == old(self).epc,
    {
        self.regs[2] = val;
    }

    /// Reads argument register `a<n>`.
    pub fn get_a(&mut self, n: usize) -> (r: u64)
        requires
            n < 8,
        ensures
            r == old(self).regs@[10 + n as int],
            *final(self) == *old(self),
    {
        self.regs[10 + n]
    }

    /// Writes argument register `a<n>`.
    pub fn set_a(&mut self, n: usize, val: u64)
        requires
            n < 8,
        ensures
            final(self).regs@ == old(self).regs@.update(10 + n as int, val),
            final(self).kernel_satp == old(self).kernel_satp,
            final(self).kernel_trap == old(self).kernel_trap,
            final(self).kernel_sp == old(self).kernel_sp,
            final(self).epc == old(self).epc,
    {
        self.regs[10 + n] = val;
    }
}

/// Callee-saved registers needed to resume a cooperatively suspended task.
pub struct TaskContext {
    pub ra: u64,
    pub sp: u64,
    pub s0: u64,
    pub s1: u64,
    pub s2: u64,
    pub s3: u64,
    pub s4: u64,
    pub s5: u64,
    pub s6: u64,
    pub s7: u64,
    pub s8: u64,
    pub s9: u64,
    pub s10: u64,
    pub s11: u64,
}

impl Default for TaskContext {
    /// An all-zero context.
    fn default() -> (r: Self)
        ensures
            r.ra == 0 && r.sp == 0,
            r.s0 == 0 && r.s1 == 0 && r.s2 == 0 && r.s3 == 0,
            r.s4 == 0 && r.s5 == 0 && r.s6 == 0 && r.s7 == 0,
            r.s8 == 0 && r.s9 == 0 && r.s10 == 0 && r.s11 == 0,
    {
        TaskContext {
            ra: 0,
            sp: 0,
            s0: 0,
            s1: 0,
            s2: 0,
            s3: 0,
            s4: 0,
            s5: 0,
            s6: 0,
            s7: 0,
            s8: 0,
            s9: 0,
            s10: 0,
            s11: 0,
        }
    }
}

/// The per-task save area: trap frame first, then the switch context.
pub struct Context {
    pub trapframe: TrapFrame,
    pub task_ctx: TaskContext,
}

} // verus!
