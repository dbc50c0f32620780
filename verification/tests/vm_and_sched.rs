//! Page-table walks over identity mappings, and scheduler fairness.

use rvos::config::{DRAM_BASE, PAGE_SIZE, STACK_TOP_ADDR, TASK_START_ADDR, TRAMPOLINE_VA};
use rvos::mm::mapping::{Mapping, Segment, PTE_READ, PTE_WRITE};
use rvos::mm::page::PageAllocator;
use rvos::sched::scheduler::Scheduler;
use rvos::sched::task::{TaskIdAllocator, TaskState};

#[test]
fn walk_identity_mapped_region() {
    let mut m = Mapping::new(0x80001);
    m.map(Segment { vaddr: DRAM_BASE, paddr: DRAM_BASE, len: 0x10000, flags: PTE_READ | PTE_WRITE });
    // every page-aligned address of the region walks to itself
    assert_eq!(m.walk(DRAM_BASE), Some(DRAM_BASE));
    assert_eq!(m.walk(DRAM_BASE + 0x2000), Some(DRAM_BASE + 0x2000));
    assert_eq!(m.walk(DRAM_BASE + 0xf000), Some(DRAM_BASE + 0xf000));
    // unmapped addresses walk to nothing, never to a wrong address
    assert_eq!(m.walk(DRAM_BASE + 0x10000), None);
    assert_eq!(m.walk(0x4000), None);
    assert_eq!(m.walk(TRAMPOLINE_VA), None);
}

#[test]
fn walk_translated_region_offsets() {
    let mut m = Mapping::new(1);
    m.map(Segment { vaddr: 0x1000, paddr: 0x8000_4000, len: PAGE_SIZE, flags: PTE_READ });
    assert_eq!(m.walk(0x1000), Some(0x8000_4000));
    // the walk resolves the page; offsets below page size are masked
    assert_eq!(m.walk(0x1008), Some(0x8000_4000));
    assert_eq!(m.walk(0x2000), None);
    // mode 8 (Sv39) plus the root frame number
    assert_eq!(m.satp(), 1 | (8u64 << 60));
}

#[test]
fn boot_segments_identity_map_kernel() {
    let segs = rvos::mm::mapping::kernel_segments(
        0x8000_0000,
        0x8004_0000,
        0x8008_0000,
        0x800c_0000,
        0x8010_0000,
        0x8000_1000,
    );
    assert_eq!(segs.len(), 10);
    let m = rvos::mm::mapping::init(7, segs);
    let mut m = m;
    assert_eq!(m.walk(0x8000_2000), Some(0x8000_2000));
    assert_eq!(m.walk(0x8500_0000), Some(0x8500_0000));
    // the trampoline page maps to its physical page
    assert_eq!(m.walk(TRAMPOLINE_VA), Some(0x8000_1000));
}

fn boot_scheduler() -> (Scheduler, PageAllocator, TaskIdAllocator) {
    let mut pa = PageAllocator::new(0x8020_0000, 32);
    let mut ids = TaskIdAllocator::new();
    let s = rvos::sched::init(
        &mut pa,
        &mut ids,
        0x8000_2000,
        0x8000_3000,
        0x8000_4000,
        0x8000_1000,
        0x8000_5000,
    );
    (s, pa, ids)
}

#[test]
fn scheduler_round_robin_visits_each_task_once_per_round() {
    let (mut s, mut pa, mut ids) = boot_scheduler();
    let id0 = s.tasks[0].id;
    let id1 = s.tasks[1].id;
    let id2 = s.tasks[2].id;

    // two full rounds of pick/yield: strict queue order, repeated
    let mut picked = Vec::new();
    for _ in 0..6 {
        let id = s.pick_next().unwrap();
        picked.push(id.0);
        let back = s.put_prev(&mut pa, &mut ids);
        assert_eq!(back.map(|t| t.0), Some(id.0));
    }
    assert_eq!(picked, vec![id0.0, id1.0, id2.0, id0.0, id1.0, id2.0]);
}

#[test]
fn dead_task_is_dropped_and_never_picked_again() {
    let (mut s, mut pa, mut ids) = boot_scheduler();
    let first = s.pick_next().unwrap();
    // the task dies while running
    s.current.as_mut().unwrap().set_state(TaskState::Dead);
    let back = s.put_prev(&mut pa, &mut ids);
    assert!(back.is_none());
    assert_eq!(s.tasks.len(), 2);
    // its id went back to the bitmap and it is never picked again
    for _ in 0..4 {
        let id = s.pick_next().unwrap();
        assert_ne!(id.0, first.0);
        s.put_prev(&mut pa, &mut ids);
    }
}

#[test]
fn user_task_layout_is_fixed() {
    let (mut s, _pa, _ids) = boot_scheduler();
    let user = s.tasks.pop_back().unwrap();
    assert_eq!(user.context.trapframe.epc, TASK_START_ADDR);
    assert_eq!(user.context.trapframe.regs[2], STACK_TOP_ADDR);
    let ustack = user.ustack;
    let mut mm = user.mm.unwrap();
    assert_eq!(mm.walk(TASK_START_ADDR), Some(0x8000_4000));
    assert_eq!(mm.walk(STACK_TOP_ADDR - PAGE_SIZE), Some(ustack));
}
