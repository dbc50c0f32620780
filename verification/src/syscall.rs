//! System-call numbering and dispatch.
//!
//! Arguments travel in the trap frame's argument registers, the call
//! number in the last one; the result goes back into the first.

use vstd::prelude::*;

pub mod proc;
pub mod types;

verus! {

pub const SYS_OPEN: u64 = 56;

pub const SYS_CLOSE: u64 = 57;

pub const SYS_READ: u64 = 63;

pub const SYS_WRITE: u64 = 64;

pub const SYS_MKNOD: u64 = 33;

/// The system calls the kernel implements.
#[derive(Debug, Clone, Copy, PartialEq, Eq, Structural)]
pub enum SyscallKind {
    Open,
    Write,
    Mknod,
}

/// Routes a system-call number to its handler. An unknown number is a
/// fatal kernel error, excluded here.
pub fn syscall_dispatch(num: u64) -> (r: SyscallKind)
    requires
        num == SYS_OPEN || num == SYS_WRITE || num == SYS_MKNOD,
    ensures
        num == SYS_OPEN ==> r is Open,
        num == SYS_WRITE ==> r is Write,
        num == SYS_MKNOD ==> r is Mknod,
{
    if num == SYS_OPEN {
        SyscallKind::Open
    } else if num == SYS_WRITE {
        SyscallKind::Write
    } else {
        SyscallKind::Mknod
    }
}

/// Reads system-call argument `n` out of a trap frame.
pub fn syscall_args(frame: &mut crate::sched::context::TrapFrame, n: usize) -> (r: u64)
    requires
        n < 8,
    ensures
        r == old(frame).regs@[10 + n as int],
        *final(frame) == *old(frame),
{
    frame.get_a(n)
}

} // verus!
