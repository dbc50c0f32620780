//! Task model, task-id allocation, and the run queue.

use vstd::prelude::*;

pub mod context;
pub mod scheduler;
pub mod task;

verus! {

/// The kernel's own persistent switch context: the saved register set the
/// scheduler loop runs on, zero before the first switch away from it.
pub fn kernel_task_context() -> (r: crate::sched::context::TaskContext)
    ensures
        r.ra == 0 && r.sp == 0,
{
    crate::sched::context::TaskContext::default()
}

/// Seeds the boot scheduler: the resident idle task and a second kernel
/// task at the given entry points, and one user task at its code page.
pub fn init(
    pa: &mut crate::mm::page::PageAllocator,
    ids: &mut crate::sched::task::TaskIdAllocator,
    initd_addr: u64,
    exit_addr: u64,
    user_addr: u64,
    trampoline_paddr: u64,
    user_ret_addr: u64,
) -> (s: crate::sched::scheduler::Scheduler)
    requires
        old(pa).wf(),
        crate::mm::page::free_from(*old(pa), 0, 12),
        old(pa).base + old(pa).pages@.len() * 4096 <= 0x100_0000_0000_0000 - 0x10000,
        old(ids).task_id_map == u64::MAX,
        user_addr & 0xfff == 0,
        user_addr < 0x100_0000_0000_0000 - 4096,
        trampoline_paddr & 0xfff == 0,
        trampoline_paddr < 0x100_0000_0000_0000 - 4096,
    ensures
        s.wf(),
        final(pa).wf(),
        s.current is None,
        s.tasks@.len() == 3,
        s.tasks@[0].task_type is Kernel,
        s.tasks@[0].func == initd_addr,
        s.tasks@[1].task_type is Kernel,
        s.tasks@[1].func == exit_addr,
        s.tasks@[2].task_type is User,
        s.tasks@[2].func == user_addr,
        s.tasks@[0].id != s.tasks@[1].id && s.tasks@[0].id != s.tasks@[2].id && s.tasks@[1].id
            != s.tasks@[2].id,
{
    let mut s = crate::sched::scheduler::Scheduler::new();
    proof {
        crate::mm::page::lemma_free_from_mono(*pa, 0, 12, 4);
    }
    let id0 = s.kspawn(initd_addr, pa, ids, trampoline_paddr, user_ret_addr);
    proof {
        assert(crate::mm::page::free_from(*pa, 0, 8));
        crate::mm::page::lemma_free_from_mono(*pa, 0, 8, 4);
        let m0 = u64::MAX;
        let b0 = id0.0 as u64;
        assert(m0 & !(1u64 << b0) != 0 && ((m0 & !(1u64 << b0)) >> b0) & 1 != 1) by (bit_vector)
            requires
                b0 < 64,
                m0 == u64::MAX,
        ;
    }
    let id1 = s.kspawn(exit_addr, pa, ids, trampoline_paddr, user_ret_addr);
    proof {
        assert(crate::mm::page::free_from(*pa, 0, 4));
        let m0 = u64::MAX;
        let b0 = id0.0 as u64;
        let b1 = id1.0 as u64;
        crate::sched::task::lemma_task_ids_unique(m0, b0, m0 & !(1u64 << b0), b1);
        let m1 = m0 & !(1u64 << b0);
        assert(m1 & !(1u64 << b1) != 0 && ((m1 & !(1u64 << b1)) >> b0) & 1 != 1 && ((m1 & !(1u64
            << b1)) >> b1) & 1 != 1) by (bit_vector)
            requires
                b0 < 64,
                b1 < 64,
                m1 == m0 & !(1u64 << b0),
                m0 == u64::MAX,
        ;
    }
    let id2 = s.uspawn(user_addr, pa, ids, trampoline_paddr, user_ret_addr);
    proof {
        let m0 = u64::MAX;
        let b0 = id0.0 as u64;
        let b1 = id1.0 as u64;
        let m1 = m0 & !(1u64 << b0);
        let m2 = m1 & !(1u64 << b1);
        crate::sched::task::lemma_task_ids_unique(m1, b1, m2, id2.0 as u64);
        assert(!crate::sched::task::id_free(m2, b0));
        assert(crate::sched::task::id_free(m2, id2.0 as u64));
    }
    s
}

} // verus!
