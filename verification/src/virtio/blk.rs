//! The virtio block driver's queue bookkeeping and its device handshake.
//!
//! The driver owns a fixed eight-entry descriptor table with its avail
//! and used rings. Each logical request takes a three-descriptor chain —
//! request header, data buffer, status byte — keyed by the index of its
//! head descriptor, so the interrupt path can correlate a completion in
//! the used ring back to the waiting request. The runtime performs the
//! MMIO register accesses; everything that decides sits here.

use vstd::prelude::*;

use crate::virtio::{VIRTIO_BLK_S_OK, VIRTIO_BLK_T_IN, VIRTIO_BLK_T_OUT, VIRTIO_CONFIG_S_ACKNOWLEDGE,
    VIRTIO_CONFIG_S_DRIVER, VIRTIO_CONFIG_S_DRIVER_OK, VIRTIO_CONFIG_S_FEATURES_OK,
    VIRTIO_MMIO_DEVICE_DESC_HIGH, VIRTIO_MMIO_DEVICE_DESC_LOW, VIRTIO_MMIO_DEVICE_FEATURES,
    VIRTIO_MMIO_DRIVER_DESC_HIGH, VIRTIO_MMIO_DRIVER_DESC_LOW, VIRTIO_MMIO_QUEUE_DESC_HIGH,
    VIRTIO_MMIO_QUEUE_DESC_LOW, VIRTIO_MMIO_QUEUE_NUM, VIRTIO_MMIO_QUEUE_READY,
    VIRTIO_MMIO_QUEUE_SEL, VIRTIO_MMIO_STATUS, VIRTIO_BLK_F_CONFIG_WCE, VIRTIO_BLK_F_MQ,
    VIRTIO_BLK_F_RO, VIRTIO_F_ANY_LAYOUT, VIRTIO_RING_F_EVENT_IDX, VIRTIO_RING_F_INDIRECT_DESC,
    VRING_DESC_F_NEXT, VRING_DESC_F_WRITE};

verus! {

/// Queue depth; a power of two.
pub const QSIZE: usize = 8;

/// Sector size the request offsets count in.
pub const SECTOR_SIZE: usize = 512;

/// One descriptor of the split ring.
#[derive(Debug, Clone, Copy, PartialEq, Eq, Structural)]
pub struct VirtqDesc {
    pub addr: u64,
    pub len: u32,
    pub flags: u16,
    pub next: u16,
}

/// The driver-to-device ring: indices of head descriptors.
#[derive(Debug, Clone, Copy)]
pub struct VirtqAvail {
    pub flags: u16,
    pub idx: u16,
    pub ring: [u16; 8],
}

/// One completion of the device-to-driver ring.
#[derive(Debug, Clone, Copy, PartialEq, Eq, Structural)]
pub struct VirtqUsedElem {
    pub id: u32,
    pub len: u32,
}

/// The device-to-driver ring.
#[derive(Debug, Clone, Copy)]
pub struct VirtqUsed {
    pub flags: u16,
    pub idx: u16,
    pub ring: [VirtqUsedElem; 8],
}

/// One block-request header.
#[derive(Debug, Clone, Copy, PartialEq, Eq, Structural)]
pub struct VirtioBlkReq {
    pub typ: u32,
    pub reserved: u32,
    pub sector: u64,
}

impl Default for VirtioBlkReq {
    /// An empty request header.
    fn default() -> (r: Self)
        ensures
            r.typ == 0 && r.reserved == 0 && r.sector == 0,
    {
        VirtioBlkReq { typ: 0, reserved: 0, sector: 0 }
    }
}

/// The driver's queue state: the descriptor table, the two rings, the
/// per-slot request headers and status bytes, the per-slot pending flag
/// the interrupt path clears, the per-descriptor free flags, and the
/// count of completions drained so far.
#[verifier::ext_equal]
pub struct Disk {
    pub desc: Vec<VirtqDesc>,
    pub avail: VirtqAvail,
    pub used: VirtqUsed,
    pub req: Vec<VirtioBlkReq>,
    pub status: Vec<u8>,
    pub wait: Vec<bool>,
    pub free_desc: Vec<bool>,
    pub used_idx: u16,
}

impl Disk {
    /// The fixed table and array sizes.
    pub open spec fn wf(self) -> bool {
        &&& self.desc@.len() == 8
        &&& self.req@.len() == 8
        &&& self.status@.len() == 8
        &&& self.wait@.len() == 8
        &&& self.free_desc@.len() == 8
    }

    /// A fresh driver state: everything zeroed, every descriptor free.
    pub fn new() -> (r: Disk)
        ensures
            r.wf(),
            forall|i: int| 0 <= i < 8 ==> r.free_desc@[i],
            forall|i: int| 0 <= i < 8 ==> !r.wait@[i],
            r.used_idx == 0,
            r.avail.idx == 0,
            r.used.idx == 0,
    {
        let mut desc: Vec<VirtqDesc> = Vec::new();
        let mut req: Vec<VirtioBlkReq> = Vec::new();
        let mut status: Vec<u8> = Vec::new();
        let mut wait: Vec<bool> = Vec::new();
        let mut free_desc: Vec<bool> = Vec::new();
        let mut i: usize = 0;
        while i < 8
            invariant
                i <= 8,
                desc@.len() == i,
                req@.len() == i,
                status@.len() == i,
                wait@.len() == i,
                free_desc@.len() == i,
                forall|k: int| 0 <= k < i ==> free_desc@[k],
                forall|k: int| 0 <= k < i ==> !wait@[k],
            decreases 8 - i,
        {
            desc.push(VirtqDesc { addr: 0, len: 0, flags: 0, next: 0 });
            req.push(VirtioBlkReq { typ: 0, reserved: 0, sector: 0 });
            status.push(0);
            wait.push(false);
            free_desc.push(true);
            i = i + 1;
        }
        Disk {
            desc,
            avail: VirtqAvail { flags: 0, idx: 0, ring: [0u16; 8] },
            used: VirtqUsed {
                flags: 0,
                idx: 0,
                ring: [VirtqUsedElem { id: 0, len: 0 }; 8],
            },
            req,
            status,
            wait,
            free_desc,
            used_idx: 0,
        }
    }

    /// Hands out the lowest free descriptor, or `None` when all eight are
    /// taken.
    pub fn alloc_desc(&mut self) -> (r: Option<usize>)
        requires
            old(self).wf(),
        ensures
            final(self).wf(),
            r is None ==> *final(self) == *old(self) && forall|i: int|
                0 <= i < 8 ==> !old(self).free_desc@[i],
            r matches Some(idx) ==> {
                &&& idx < 8
                &&& old(self).free_desc@[idx as int]
                &&& forall|i: int| 0 <= i < idx ==> !old(self).free_desc@[i]
                &&& final(self).free_desc@ == old(self).free_desc@.update(idx as int, false)
                &&& *final(self) == (Disk { free_desc: final(self).free_desc, ..*old(self) })
            },
    {
        let mut idx: usize = 0;
        while idx < 8
            invariant
                self.wf(),
                *self == *old(self),
                idx <= 8,
                forall|i: int| 0 <= i < idx ==> !self.free_desc@[i],
            decreases 8 - idx,
        {
            if self.free_desc[idx] {
                self.free_desc[idx] = false;
                return Some(idx);
            }
            idx = idx + 1;
        }
        None
    }

    /// Returns one descriptor to the pool. Freeing an out-of-range or
    /// already-free descriptor is a programming error the runtime treats
    /// as fatal, so it is excluded here.
    pub fn free_desc(&mut self, idx: usize)
        requires
            old(self).wf(),
            idx < 8,
            !old(self).free_desc@[idx as int],
        ensures
            final(self).wf(),
            final(self).free_desc@ == old(self).free_desc@.update(idx as int, true),
            *final(self) == (Disk { free_desc: final(self).free_desc, ..*old(self) }),
    {
        self.free_desc[idx] = true;
    }

    /// Takes three free descriptors for one request chain, or takes none
    /// and reports `None` when fewer than three are free.
    pub fn alloc_n_desc(&mut self, n: usize) -> (r: Option<[usize; 3]>)
        requires
            old(self).wf(),
            n == 3,
        ensures
            final(self).wf(),
            r is None ==> final(self).free_desc@ == old(self).free_desc@ && *final(self) == (Disk {
                free_desc: final(self).free_desc,
                ..*old(self)
            }) && !(exists|i1: int, i2: int, i3: int|
                0 <= i1 < i2 < i3 < 8 && #[trigger] old(self).free_desc@[i1]
                    && #[trigger] old(self).free_desc@[i2] && #[trigger] old(self).free_desc@[i3]),
            r matches Some(ds) ==> {
                &&& forall|i: int| 0 <= i < 3 ==> 0 <= #[trigger] ds@[i] < 8
                &&& ds@[0] != ds@[1] && ds@[0] != ds@[2] && ds@[1] != ds@[2]
                &&& forall|i: int| 0 <= i < 3 ==> old(self).free_desc@[#[trigger] ds@[i] as int]
                &&& forall|i: int|
                    0 <= i < 3 ==> !final(self).free_desc@[#[trigger] ds@[i] as int]
                &&& forall|j: int|
                    0 <= j < 8 && j != ds@[0] && j != ds@[1] && j != ds@[2]
                        ==> final(self).free_desc@[j] == old(self).free_desc@[j]
                &&& *final(self) == (Disk { free_desc: final(self).free_desc, ..*old(self) })
            },
    {
        let ghost d0 = *old(self);
        let r0 = self.alloc_desc();
        let i0 = match r0 {
            None => { return None; },
            Some(i) => i,
        };
        let ghost s1 = *self;
        let r1 = self.alloc_desc();
        let i1 = match r1 {
            None => {
                proof {
                    // no descriptor besides the taken one was free
                    assert forall|a: int, b: int, c: int|
                        !(0 <= a < b < c < 8 && #[trigger] d0.free_desc@[a]
                            && #[trigger] d0.free_desc@[b] && #[trigger] d0.free_desc@[c]) by {
                        if 0 <= a < b < c < 8 && d0.free_desc@[a] && d0.free_desc@[b]
                            && d0.free_desc@[c] {
                            if a != i0 {
                                assert(s1.free_desc@[a]);
                            } else {
                                assert(s1.free_desc@[b]);
                            }
                        }
                    }
                }
                self.free_desc(i0);
                proof {
                    assert(self.free_desc@ =~= d0.free_desc@);
                }
                return None;
            },
            Some(i) => i,
        };
        let ghost s2 = *self;
        let r2 = self.alloc_desc();
        let i2 = match r2 {
            None => {
                proof {
                    assert forall|a: int, b: int, c: int|
                        !(0 <= a < b < c < 8 && #[trigger] d0.free_desc@[a]
                            && #[trigger] d0.free_desc@[b] && #[trigger] d0.free_desc@[c]) by {
                        if 0 <= a < b < c < 8 && d0.free_desc@[a] && d0.free_desc@[b]
                            && d0.free_desc@[c] {
                            if a != i0 && a != i1 {
                                assert(s2.free_desc@[a]);
                            } else if b != i0 && b != i1 {
                                assert(s2.free_desc@[b]);
                            } else {
                                assert(c != i0 && c != i1);
                                assert(s2.free_desc@[c]);
                            }
                        }
                    }
                }
                self.free_desc(i0);
                self.free_desc(i1);
                proof {
                    assert(self.free_desc@ =~= d0.free_desc@);
                }
                return None;
            },
            Some(i) => i,
        };
        Some([i0, i1, i2])
    }

    /// A copy of descriptor `idx`.
    pub fn get_desc(&self, idx: usize) -> (r: VirtqDesc)
        requires
            self.wf(),
            idx < 8,
        ensures
            r == self.desc@[idx as int],
    {
        self.desc[idx]
    }

    /// Submits one block request: takes a three-descriptor chain, keys
    /// the request header and status slot by the chain's head, links
    /// header, data buffer and status byte, publishes the head in the
    /// avail ring, and marks the slot pending. The runtime then rings the
    /// doorbell and polls the pending flag, which the interrupt path
    /// clears on completion; the returned index is the slot to watch and
    /// afterwards the chain to free. Fewer than three free descriptors is
    /// a condition the kernel treats as fatal and is excluded here.
    pub fn disk_rw_submit(
        &mut self,
        buf_addr: u64,
        buf_len: u32,
        offset: usize,
        is_write: bool,
    ) -> (req_idx: usize)
        requires
            old(self).wf(),
            exists|i1: int, i2: int, i3: int|
                0 <= i1 < i2 < i3 < 8 && #[trigger] old(self).free_desc@[i1]
                    && #[trigger] old(self).free_desc@[i2] && #[trigger] old(self).free_desc@[i3],
            old(self).avail.idx < u16::MAX,
        ensures
            final(self).wf(),
            req_idx < 8,
            old(self).free_desc@[req_idx as int],
            !final(self).free_desc@[req_idx as int],
            final(self).wait@[req_idx as int],
            final(self).req@[req_idx as int].typ == (if is_write {
                VIRTIO_BLK_T_OUT
            } else {
                VIRTIO_BLK_T_IN
            }),
            final(self).req@[req_idx as int].sector == (offset / SECTOR_SIZE) as u64,
            final(self).status@[req_idx as int] == 0xff,
            // the published head is the request's key
            final(self).avail.idx == old(self).avail.idx + 1,
            final(self).avail.ring@[(old(self).avail.idx % 8) as int] == req_idx as u16,
            // the chain: header, then the data buffer, then the status slot
            ({
                let d = *final(self);
                let h = d.desc@[req_idx as int];
                let i1 = h.next as int;
                let b = d.desc@[i1];
                let i2 = b.next as int;
                let st = d.desc@[i2];
                &&& h.flags == VRING_DESC_F_NEXT
                &&& 0 <= i1 < 8 && i1 != req_idx as int
                &&& b.addr == buf_addr && b.len == buf_len
                &&& b.flags == (if is_write {
                    VRING_DESC_F_NEXT
                } else {
                    VRING_DESC_F_NEXT | VRING_DESC_F_WRITE
                })
                &&& 0 <= i2 < 8 && i2 != req_idx as int && i2 != i1
                &&& st.flags == VRING_DESC_F_WRITE
                &&& st.flags & VRING_DESC_F_NEXT == 0
                &&& h.flags & VRING_DESC_F_NEXT != 0
                &&& b.flags & VRING_DESC_F_NEXT != 0
                &&& !d.free_desc@[req_idx as int] && !d.free_desc@[i1] && !d.free_desc@[i2]
            }),
            forall|j: int|
                0 <= j < 8 && j != req_idx as int ==> final(self).wait@[j] == old(self).wait@[j],
            final(self).used == old(self).used,
            final(self).used_idx == old(self).used_idx,
    {
        proof {
            let (w1, w2, w3) = choose|i1: int, i2: int, i3: int|
                0 <= i1 < i2 < i3 < 8 && #[trigger] self.free_desc@[i1]
                    && #[trigger] self.free_desc@[i2] && #[trigger] self.free_desc@[i3];
            assert(self.free_desc@[w1] && self.free_desc@[w2] && self.free_desc@[w3]);
        }
        let idxs_opt = self.alloc_n_desc(3);
        let idxs = match idxs_opt {
            None => {
                proof {
                    assert(false);
                }
                [0usize; 3]
            },
            Some(ds) => ds,
        };
        let req_idx = idxs[0];
        let sector = offset / SECTOR_SIZE;
        let typ = if is_write {
            VIRTIO_BLK_T_OUT
        } else {
            VIRTIO_BLK_T_IN
        };
        self.req[req_idx] = VirtioBlkReq { typ, reserved: 0, sector: sector as u64 };
        self.desc[req_idx] = VirtqDesc {
            addr: 0,
            len: 16,
            flags: VRING_DESC_F_NEXT,
            next: idxs[1] as u16,
        };
        let bflags: u16 = if is_write {
            VRING_DESC_F_NEXT
        } else {
            VRING_DESC_F_NEXT | VRING_DESC_F_WRITE
        };
        self.desc[idxs[1]] = VirtqDesc { addr: buf_addr, len: buf_len, flags: bflags, next: idxs[2]
            as u16 };
        self.status[req_idx] = 0xff;
        self.desc[idxs[2]] = VirtqDesc { addr: 0, len: 1, flags: VRING_DESC_F_WRITE, next: 0 };
        let slot: usize = (self.avail.idx % 8) as usize;
        self.avail.ring[slot] = req_idx as u16;
        self.avail.idx = self.avail.idx + 1;
        self.wait[req_idx] = true;
        proof {
            assert((VRING_DESC_F_NEXT & VRING_DESC_F_NEXT) != 0 && (VRING_DESC_F_WRITE
                & VRING_DESC_F_NEXT) == 0 && ((VRING_DESC_F_NEXT | VRING_DESC_F_WRITE)
                & VRING_DESC_F_NEXT) != 0) by (bit_vector);
        }
        req_idx
    }

    /// Drains every new completion from the used ring: for each entry the
    /// device published since the last drain, checks the status byte the
    /// device wrote for that request is OK — anything else is fatal, by
    /// design — and clears the request's pending flag, unblocking its
    /// waiting caller.
    pub fn irq_handler(&mut self)
        requires
            old(self).wf(),
            old(self).used_idx <= old(self).used.idx,
            old(self).used.idx - old(self).used_idx <= 8,
            forall|t: int|
                old(self).used_idx <= t < old(self).used.idx ==> {
                    &&& 0 <= (#[trigger] old(self).used.ring@[t % 8].id as int) < 8
                    &&& old(self).status@[old(self).used.ring@[t % 8].id as int] == VIRTIO_BLK_S_OK
                },
        ensures
            final(self).wf(),
            final(self).used_idx == old(self).used.idx,
            forall|t: int|
                old(self).used_idx <= t < old(self).used.idx
                    ==> !final(self).wait@[#[trigger] old(self).used.ring@[t % 8].id as int],
            forall|j: int|
                0 <= j < 8 && (forall|t: int|
                    old(self).used_idx <= t < old(self).used.idx ==> j != (#[trigger] old(
                        self,
                    ).used.ring@[t % 8].id as int)) ==> final(self).wait@[j] == old(self).wait@[j],
            *final(self) == (Disk {
                wait: final(self).wait,
                used_idx: final(self).used_idx,
                ..*old(self)
            }),
    {
        while self.used_idx != self.used.idx
            invariant
                self.wf(),
                old(self).used_idx <= self.used_idx <= self.used.idx,
                self.used == old(self).used,
                forall|t: int|
                    old(self).used_idx <= t < old(self).used.idx ==> {
                        &&& 0 <= (#[trigger] old(self).used.ring@[t % 8].id as int) < 8
                        &&& old(self).status@[old(self).used.ring@[t % 8].id as int]
                            == VIRTIO_BLK_S_OK
                    },
                forall|t: int|
                    old(self).used_idx <= t < self.used_idx
                        ==> !self.wait@[#[trigger] old(self).used.ring@[t % 8].id as int],
                forall|j: int|
                    0 <= j < 8 && (forall|t: int|
                        old(self).used_idx <= t < self.used_idx ==> j != (#[trigger] old(
                            self,
                        ).used.ring@[t % 8].id as int)) ==> self.wait@[j] == old(self).wait@[j],
                *self == (Disk { wait: self.wait, used_idx: self.used_idx, ..*old(self) }),
            decreases self.used.idx - self.used_idx,
        {
            let slot: usize = (self.used_idx % 8) as usize;
            let id: usize = self.used.ring[slot].id as usize;
            proof {
                assert(old(self).used.ring@[self.used_idx as int % 8].id as int == id);
            }
            self.wait[id] = false;
            self.used_idx = self.used_idx + 1;
        }
    }

    /// Request/response correlation: with a single request in flight —
    /// the used ring's one new completion carries the submitted chain's
    /// head index as its id — draining the ring clears exactly that
    /// request's pending flag, and the status byte its caller then reads
    /// is the one the device wrote for that id.
    pub proof fn lemma_request_correlation(pre: Disk, post: Disk, req_idx: int)
        requires
            pre.wf(),
            post.wf(),
            0 <= req_idx < 8,
            pre.used.idx == pre.used_idx + 1,
            pre.used.ring@[pre.used_idx as int % 8].id as int == req_idx,
            pre.status@[req_idx] == VIRTIO_BLK_S_OK,
            // what irq_handler ensures of the drain
            post.used_idx == pre.used.idx,
            post.status == pre.status,
            forall|t: int|
                pre.used_idx <= t < pre.used.idx
                    ==> !post.wait@[#[trigger] pre.used.ring@[t % 8].id as int],
        ensures
            !post.wait@[req_idx],
            post.status@[req_idx] == VIRTIO_BLK_S_OK,
    {
        assert(!post.wait@[pre.used.ring@[pre.used_idx as int % 8].id as int]);
    }

    /// Frees the three-descriptor chain headed at `n` by walking its
    /// `next` links.
    pub fn free_desc_chain(&mut self, n: usize)
        requires
            old(self).wf(),
            n < 8,
            ({
                let d = *old(self);
                let i1 = d.desc@[n as int].next as int;
                let i2 = d.desc@[i1].next as int;
                &&& d.desc@[n as int].flags & VRING_DESC_F_NEXT != 0
                &&& 0 <= i1 < 8
                &&& d.desc@[i1].flags & VRING_DESC_F_NEXT != 0
                &&& 0 <= i2 < 8
                &&& d.desc@[i2].flags & VRING_DESC_F_NEXT == 0
                &&& n as int != i1 && n as int != i2 && i1 != i2
                &&& !d.free_desc@[n as int]
                &&& !d.free_desc@[i1]
                &&& !d.free_desc@[i2]
            }),
        ensures
            final(self).wf(),
            ({
                let d = *old(self);
                let i1 = d.desc@[n as int].next as int;
                let i2 = d.desc@[i1].next as int;
                &&& final(self).free_desc@[n as int]
                &&& final(self).free_desc@[i1]
                &&& final(self).free_desc@[i2]
                &&& forall|j: int|
                    0 <= j < 8 && j != n as int && j != i1 && j != i2
                        ==> final(self).free_desc@[j] == d.free_desc@[j]
                &&& *final(self) == (Disk { free_desc: final(self).free_desc, ..d })
            }),
    {
        let d0 = self.get_desc(n);
        let i1 = d0.next as usize;
        let d1 = self.get_desc(i1);
        let i2 = d1.next as usize;
        self.free_desc(n);
        self.free_desc(i1);
        self.free_desc(i2);
    }
}


/// The device-initialization handshake, as a plan of register writes.
///
/// The caller reads the identity registers, the re-read status, the
/// queue-ready flag and the maximum queue size from the device (in that
/// order, interleaved with applying the returned writes in order), and
/// supplies the physical addresses of the descriptor table and the two
/// rings. Any identity mismatch or unexpected queue state is a boot-time
/// environment failure, fatal by design and excluded here. The plan:
/// reset, acknowledge, driver, feature negotiation, features-ok, queue
/// selection and sizing, the three ring addresses in split low/high
/// halves, queue-ready, and finally driver-ok.
pub fn init(
    magic: u32,
    version: u32,
    device_id: u32,
    vendor_id: u32,
    device_features: u32,
    status_reread: u32,
    queue_ready: u32,
    queue_num_max: u32,
    desc_addr: u64,
    avail_addr: u64,
    used_addr: u64,
) -> (plan: Vec<(u64, u32)>)
    requires
        magic == 0x74726976,
        version == 2,
        device_id == 2,
        vendor_id == 0x554d4551,
        status_reread & VIRTIO_CONFIG_S_FEATURES_OK != 0,
        queue_ready == 0,
        queue_num_max > 8,
    ensures
        plan@.len() == 15,
        plan@[0] == (VIRTIO_MMIO_STATUS, 0u32),
        plan@[1] == (VIRTIO_MMIO_STATUS, VIRTIO_CONFIG_S_ACKNOWLEDGE),
        plan@[2] == (VIRTIO_MMIO_STATUS, VIRTIO_CONFIG_S_ACKNOWLEDGE | VIRTIO_CONFIG_S_DRIVER),
        plan@[3] == (
            VIRTIO_MMIO_DEVICE_FEATURES,
            device_features & !(VIRTIO_BLK_F_RO | VIRTIO_BLK_F_CONFIG_WCE | VIRTIO_BLK_F_MQ
                | VIRTIO_F_ANY_LAYOUT | VIRTIO_RING_F_EVENT_IDX | VIRTIO_RING_F_INDIRECT_DESC),
        ),
        plan@[4] == (
            VIRTIO_MMIO_STATUS,
            VIRTIO_CONFIG_S_ACKNOWLEDGE | VIRTIO_CONFIG_S_DRIVER | VIRTIO_CONFIG_S_FEATURES_OK,
        ),
        plan@[5] == (VIRTIO_MMIO_QUEUE_SEL, 0u32),
        plan@[6] == (VIRTIO_MMIO_QUEUE_NUM, 8u32),
        plan@[7] == (VIRTIO_MMIO_QUEUE_DESC_LOW, desc_addr as u32),
        plan@[8] == (VIRTIO_MMIO_QUEUE_DESC_HIGH, (desc_addr >> 32u64) as u32),
        plan@[9] == (VIRTIO_MMIO_DRIVER_DESC_LOW, avail_addr as u32),
        plan@[10] == (VIRTIO_MMIO_DRIVER_DESC_HIGH, (avail_addr >> 32u64) as u32),
        plan@[11] == (VIRTIO_MMIO_DEVICE_DESC_LOW, used_addr as u32),
        plan@[12] == (VIRTIO_MMIO_DEVICE_DESC_HIGH, (used_addr >> 32u64) as u32),
        plan@[13] == (VIRTIO_MMIO_QUEUE_READY, 1u32),
        plan@[14] == (
            VIRTIO_MMIO_STATUS,
            VIRTIO_CONFIG_S_ACKNOWLEDGE | VIRTIO_CONFIG_S_DRIVER | VIRTIO_CONFIG_S_FEATURES_OK
                | VIRTIO_CONFIG_S_DRIVER_OK,
        ),
{
    let feats = device_features & !(VIRTIO_BLK_F_RO | VIRTIO_BLK_F_CONFIG_WCE | VIRTIO_BLK_F_MQ
        | VIRTIO_F_ANY_LAYOUT | VIRTIO_RING_F_EVENT_IDX | VIRTIO_RING_F_INDIRECT_DESC);
    let mut plan: Vec<(u64, u32)> = Vec::new();
    plan.push((VIRTIO_MMIO_STATUS, 0));
    plan.push((VIRTIO_MMIO_STATUS, VIRTIO_CONFIG_S_ACKNOWLEDGE));
    plan.push((VIRTIO_MMIO_STATUS, VIRTIO_CONFIG_S_ACKNOWLEDGE | VIRTIO_CONFIG_S_DRIVER));
    plan.push((VIRTIO_MMIO_DEVICE_FEATURES, feats));
    plan.push(
        (
            VIRTIO_MMIO_STATUS,
            VIRTIO_CONFIG_S_ACKNOWLEDGE | VIRTIO_CONFIG_S_DRIVER | VIRTIO_CONFIG_S_FEATURES_OK,
        ),
    );
    plan.push((VIRTIO_MMIO_QUEUE_SEL, 0));
    plan.push((VIRTIO_MMIO_QUEUE_NUM, 8));
    plan.push((VIRTIO_MMIO_QUEUE_DESC_LOW, desc_addr as u32));
    plan.push((VIRTIO_MMIO_QUEUE_DESC_HIGH, (desc_addr >> 32u64) as u32));
    plan.push((VIRTIO_MMIO_DRIVER_DESC_LOW, avail_addr as u32));
    plan.push((VIRTIO_MMIO_DRIVER_DESC_HIGH, (avail_addr >> 32u64) as u32));
    plan.push((VIRTIO_MMIO_DEVICE_DESC_LOW, used_addr as u32));
    plan.push((VIRTIO_MMIO_DEVICE_DESC_HIGH, (used_addr >> 32u64) as u32));
    plan.push((VIRTIO_MMIO_QUEUE_READY, 1));
    plan.push(
        (
            VIRTIO_MMIO_STATUS,
            VIRTIO_CONFIG_S_ACKNOWLEDGE | VIRTIO_CONFIG_S_DRIVER | VIRTIO_CONFIG_S_FEATURES_OK
                | VIRTIO_CONFIG_S_DRIVER_OK,
        ),
    );
    plan
}

} // verus!
