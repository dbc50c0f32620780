//! Virtio-mmio device constants and the block-device driver model.

use vstd::prelude::*;

pub mod blk;

verus! {

pub const VIRTIO_MMIO_MAGIC_VALUE: u64 = 0x000;

pub const VIRTIO_MMIO_VERSION: u64 = 0x004;

pub const VIRTIO_MMIO_DEVICE_ID: u64 = 0x008;

pub const VIRTIO_MMIO_VENDOR_ID: u64 = 0x00c;

pub const VIRTIO_MMIO_DEVICE_FEATURES: u64 = 0x010;

pub const VIRTIO_MMIO_DRIVER_FEATURES: u64 = 0x020;

pub const VIRTIO_MMIO_QUEUE_SEL: u64 = 0x030;

pub const VIRTIO_MMIO_QUEUE_NUM_MAX: u64 = 0x034;

pub const VIRTIO_MMIO_QUEUE_NUM: u64 = 0x038;

pub const VIRTIO_MMIO_QUEUE_READY: u64 = 0x044;

pub const VIRTIO_MMIO_QUEUE_NOTIFY: u64 = 0x050;

pub const VIRTIO_MMIO_INTERRUPT_STATUS: u64 = 0x060;

pub const VIRTIO_MMIO_INTERRUPT_ACK: u64 = 0x064;

pub const VIRTIO_MMIO_STATUS: u64 = 0x070;

pub const VIRTIO_MMIO_QUEUE_DESC_LOW: u64 = 0x080;

pub const VIRTIO_MMIO_QUEUE_DESC_HIGH: u64 = 0x084;

pub const VIRTIO_MMIO_DRIVER_DESC_LOW: u64 = 0x090;

pub const VIRTIO_MMIO_DRIVER_DESC_HIGH: u64 = 0x094;

pub const VIRTIO_MMIO_DEVICE_DESC_LOW: u64 = 0x0a0;

pub const VIRTIO_MMIO_DEVICE_DESC_HIGH: u64 = 0x0a4;

/// Base address of the first virtio-mmio slot.
pub const VIRTIO0: u64 = 0x1000_1000;

pub const VIRTIO_CONFIG_S_ACKNOWLEDGE: u32 = 1;

pub const VIRTIO_CONFIG_S_DRIVER: u32 = 2;

pub const VIRTIO_CONFIG_S_DRIVER_OK: u32 = 4;

pub const VIRTIO_CONFIG_S_FEATURES_OK: u32 = 8;

pub const VIRTIO_BLK_F_RO: u32 = 0x20;

pub const VIRTIO_BLK_F_CONFIG_WCE: u32 = 0x800;

pub const VIRTIO_BLK_F_MQ: u32 = 0x1000;

pub const VIRTIO_F_ANY_LAYOUT: u32 = 0x800_0000;

pub const VIRTIO_RING_F_INDIRECT_DESC: u32 = 0x1000_0000;

pub const VIRTIO_RING_F_EVENT_IDX: u32 = 0x2000_0000;

pub const VIRTIO_BLK_T_IN: u32 = 0;

pub const VIRTIO_BLK_T_OUT: u32 = 1;

pub const VIRTIO_BLK_S_OK: u8 = 0;

pub const VRING_DESC_F_NEXT: u16 = 1;

pub const VRING_DESC_F_WRITE: u16 = 2;

/// One virtio-mmio device window: the runtime reads and writes its
/// registers at `base` plus the offsets above.
pub struct VirtioDev {
    pub base: u64,
}

impl VirtioDev {
    /// A device handle at the given MMIO base address.
    pub fn new(base: u64) -> (r: VirtioDev)
        ensures
            r.base == base,
    {
        VirtioDev { base }
    }
}

} // verus!
