//! Block I/O: reads and writes whole 1024-byte blocks of the disk image.
//!
//! The disk is modelled as the vector of its blocks; the runtime backs it
//! with the virtio block device, handing each block request to `disk_rw`.

use vstd::prelude::*;

use crate::fs::BLKSZ;

verus! {

/// The disk: a fixed number of 1024-byte blocks.
pub struct BlockDev {
    pub blocks: Vec<Vec<u8>>,
}

impl BlockDev {
    /// Every block holds exactly `BLKSZ` bytes.
    pub open spec fn wf(self) -> bool {
        &&& forall|i: int|
            0 <= i < self.blocks@.len() ==> (#[trigger] self.blocks@[i])@.len() == BLKSZ
        &&& self.blocks@.len() <= 0xffff_ffff
    }

    /// A fresh disk of `n` zeroed blocks.
    pub fn new(n: u32) -> (r: BlockDev)
        ensures
            r.wf(),
            r.blocks@.len() == n,
            forall|i: int, j: int|
                0 <= i < n && 0 <= j < BLKSZ ==> #[trigger] r.blocks@[i]@[j] == 0,
    {
        let mut blocks: Vec<Vec<u8>> = Vec::new();
        let mut i: u32 = 0;
        while i < n
            invariant
                i <= n,
                blocks@.len() == i,
                forall|k: int| 0 <= k < i ==> (#[trigger] blocks@[k])@.len() == BLKSZ,
                forall|k: int, j: int|
                    0 <= k < i && 0 <= j < BLKSZ ==> #[trigger] blocks@[k]@[j] == 0,
            decreases n - i,
        {
            let mut b: Vec<u8> = Vec::new();
            let mut j: usize = 0;
            while j < BLKSZ
                invariant
                    j <= BLKSZ,
                    b@.len() == j,
                    forall|t: int| 0 <= t < j ==> b@[t] == 0,
                decreases BLKSZ - j,
            {
                b.push(0);
                j = j + 1;
            }
            blocks.push(b);
            i = i + 1;
        }
        BlockDev { blocks }
    }
}

/// Reads block `block_no` into `buf`, which must be one block long.
pub fn bread(dev: &BlockDev, block_no: u32, buf: &mut Vec<u8>)
    requires
        dev.wf(),
        (block_no as int) < dev.blocks@.len(),
        old(buf)@.len() == BLKSZ,
    ensures
        final(buf)@ == dev.blocks@[block_no as int]@,
{
    let src = &dev.blocks[block_no as usize];
    let mut i: usize = 0;
    while i < BLKSZ
        invariant
            dev.wf(),
            (block_no as int) < dev.blocks@.len(),
            buf@.len() == BLKSZ,
            i <= BLKSZ,
            src == &dev.blocks@[block_no as int],
            forall|k: int| 0 <= k < i ==> buf@[k] == dev.blocks@[block_no as int]@[k],
        decreases BLKSZ - i,
    {
        buf[i] = src[i];
        i = i + 1;
    }
    proof {
        assert(buf@ =~= dev.blocks@[block_no as int]@);
    }
}

/// Writes `buf`, one block long, to block `block_no`.
pub fn bwrite(dev: &mut BlockDev, block_no: u32, buf: &Vec<u8>)
    requires
        old(dev).wf(),
        (block_no as int) < old(dev).blocks@.len(),
        buf@.len() == BLKSZ,
    ensures
        final(dev).wf(),
        final(dev).blocks@.len() == old(dev).blocks@.len(),
        final(dev).blocks@[block_no as int]@ == buf@,
        forall|i: int|
            0 <= i < old(dev).blocks@.len() && i != block_no ==> final(dev).blocks@[i] == old(
                dev,
            ).blocks@[i],
{
    let mut copy: Vec<u8> = Vec::new();
    let mut i: usize = 0;
    while i < BLKSZ
        invariant
            buf@.len() == BLKSZ,
            i <= BLKSZ,
            copy@.len() == i,
            forall|k: int| 0 <= k < i ==> copy@[k] == buf@[k],
        decreases BLKSZ - i,
    {
        copy.push(buf[i]);
        i = i + 1;
    }
    proof {
        assert(copy@ =~= buf@);
    }
    dev.blocks[block_no as usize] = copy;
}

} // verus!
