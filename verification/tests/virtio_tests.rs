//! Virtio driver behaviour: descriptor bookkeeping, request/response
//! correlation, the handshake plan, and the ring buffer.

use rvos::utils::ringbuf::RingBuf;
use rvos::virtio::blk::{Disk, QSIZE};
use rvos::irq::{m_irq_handler, s_irq_handler};
use rvos::syscall::{syscall_dispatch, SyscallKind};
use rvos::trap::{kernel_trap_decision, timer_trap_decision, user_trap_decision, TrapAction,
    TrapCause};
use rvos::virtio::{VIRTIO_BLK_T_IN, VIRTIO_BLK_T_OUT, VIRTIO_MMIO_QUEUE_NUM,
    VIRTIO_MMIO_QUEUE_READY, VIRTIO_MMIO_STATUS, VRING_DESC_F_NEXT, VRING_DESC_F_WRITE};

#[test]
fn descriptor_alloc_free() {
    let mut d = Disk::new();
    let a = d.alloc_desc().unwrap();
    let b = d.alloc_desc().unwrap();
    assert_eq!(a, 0);
    assert_eq!(b, 1);
    d.free_desc(a);
    let a2 = d.alloc_desc().unwrap();
    assert_eq!(a2, 0);
    let chain = d.alloc_n_desc(3).unwrap();
    assert_eq!(chain, [2, 3, 4]);
    // exhaust the pool: eight descriptors, then nothing
    assert_eq!(d.alloc_desc().unwrap(), 5);
    assert_eq!(d.alloc_desc().unwrap(), 6);
    assert_eq!(d.alloc_desc().unwrap(), 7);
    assert!(d.alloc_desc().is_none());
    assert!(d.alloc_n_desc(3).is_none());
}

#[test]
fn request_response_correlation() {
    let mut d = Disk::new();
    let req = d.disk_rw_submit(0x8030_0000, 1024, 3 * 1024, false);
    assert_eq!(req, 0);
    // the header went out through the avail ring, keyed by the chain head
    assert_eq!(d.avail.idx, 1);
    assert_eq!(d.avail.ring[0] as usize, req);
    assert!(d.wait[req]);
    assert_eq!(d.req[req].typ, VIRTIO_BLK_T_IN);
    assert_eq!(d.req[req].sector, 6);
    assert_eq!(d.status[req], 0xff);
    // the chain: header -> data -> status
    let h = d.get_desc(req);
    assert_eq!(h.flags, VRING_DESC_F_NEXT);
    let data = d.get_desc(h.next as usize);
    assert_eq!(data.addr, 0x8030_0000);
    assert_eq!(data.len, 1024);
    assert_eq!(data.flags, VRING_DESC_F_NEXT | VRING_DESC_F_WRITE);
    let st = d.get_desc(data.next as usize);
    assert_eq!(st.flags, VRING_DESC_F_WRITE);

    // the device completes the request: the used entry's id is the chain
    // head the driver published
    d.status[req] = 0;
    d.used.ring[0].id = req as u32;
    d.used.idx = 1;
    d.irq_handler();
    assert!(!d.wait[req]);
    assert_eq!(d.used_idx, 1);
    assert_eq!(d.status[req], 0);

    // the caller reclaims the chain; all eight descriptors are free again
    d.free_desc_chain(req);
    let again = d.alloc_n_desc(3).unwrap();
    assert_eq!(again, [0, 1, 2]);
}

#[test]
fn writes_tag_their_requests() {
    let mut d = Disk::new();
    let req = d.disk_rw_submit(0x8040_0000, 512, 512, true);
    assert_eq!(d.req[req].typ, VIRTIO_BLK_T_OUT);
    assert_eq!(d.req[req].sector, 1);
    let h = d.get_desc(req);
    let data = d.get_desc(h.next as usize);
    assert_eq!(data.flags, VRING_DESC_F_NEXT);
}

#[test]
fn handshake_plan_follows_the_protocol() {
    let plan = rvos::virtio::blk::init(
        0x74726976, 2, 2, 0x554d4551, 0xffff_ffff, 0xb, 0, 16, 0x8050_0000, 0x8050_1000,
        0x8050_2000,
    );
    assert_eq!(plan.len(), 15);
    assert_eq!(plan[0], (VIRTIO_MMIO_STATUS, 0));
    assert_eq!(plan[1], (VIRTIO_MMIO_STATUS, 1));
    assert_eq!(plan[2], (VIRTIO_MMIO_STATUS, 3));
    // the negotiated features drop read-only, cache, multi-queue, layout,
    // event-index and indirect descriptors
    assert_eq!(plan[3].1, 0xffff_ffff & !(0x20 | 0x800 | 0x1000 | 0x800_0000 | 0x2000_0000 | 0x1000_0000));
    assert_eq!(plan[4], (VIRTIO_MMIO_STATUS, 0xb));
    assert_eq!(plan[6], (VIRTIO_MMIO_QUEUE_NUM, QSIZE as u32));
    assert_eq!(plan[13], (VIRTIO_MMIO_QUEUE_READY, 1));
    assert_eq!(plan[14], (VIRTIO_MMIO_STATUS, 0xf));
}

#[test]
fn ring_buffer_orders_and_drops() {
    let mut rb: RingBuf<u8, 4> = RingBuf::new();
    assert!(rb.is_empty());
    rb.push(1);
    rb.push(2);
    rb.push(3);
    rb.push(4);
    assert!(rb.is_full());
    // a push onto a full buffer is dropped
    rb.push(5);
    assert_eq!(rb.pop(), Some(1));
    assert_eq!(rb.pop(), Some(2));
    rb.push(6);
    assert_eq!(rb.pop(), Some(3));
    assert_eq!(rb.pop(), Some(4));
    assert_eq!(rb.pop(), Some(6));
    assert_eq!(rb.pop(), None);
}

#[test]
fn trap_decisions() {
    assert!(matches!(timer_trap_decision(TrapCause::MachineTimer), TrapAction::ArmNextTick));
    assert!(matches!(timer_trap_decision(TrapCause::UserEnvCall), TrapAction::Fatal));
    assert!(matches!(
        kernel_trap_decision(TrapCause::SupervisorExternal),
        TrapAction::ExternalIrq
    ));
    assert!(matches!(
        kernel_trap_decision(TrapCause::SupervisorSoft),
        TrapAction::ClearSoftAndSchedule
    ));
    let (act, pc) = user_trap_decision(TrapCause::UserEnvCall, 0x1000);
    assert!(matches!(act, TrapAction::Syscall));
    assert_eq!(pc, 0x1004);
    assert_eq!(s_irq_handler(0x80, TrapCause::Breakpoint), 0x82);
    assert_eq!(m_irq_handler(0x90, TrapCause::MachineTimer), 0x90);
    assert_eq!(syscall_dispatch(56), SyscallKind::Open);
    assert_eq!(syscall_dispatch(64), SyscallKind::Write);
    assert_eq!(syscall_dispatch(33), SyscallKind::Mknod);
}
