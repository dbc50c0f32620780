//! Building a fresh filesystem image: reading and writing inode records
//! in place and appending file content with a sequential block cursor.
//!
//! The image builder lays the blocks out once, allocating data blocks in
//! strictly increasing order from a cursor rather than from the bitmap,
//! and marks everything it used in the bitmap at the end.

use vstd::prelude::*;

use crate::bio::{bread, bwrite, BlockDev};
use crate::fs::{iblock, inode_matches, read_inode, write_inode, Dirent, Inode, SuperBlock, BLKSZ};
use crate::fsops::{block_buf, content_byte, inode_slot_matches, sb_ok, spec_find_block,
    spec_iblock, spec_ioff, INODE_SLOTS};

verus! {

/// Reads the record of inode `inum` from the image.
pub fn rinode(dev: &BlockDev, sb: &SuperBlock, inum: u32) -> (r: Inode)
    requires
        dev.wf(),
        sb_ok(*sb, *dev),
        1 <= inum <= INODE_SLOTS,
    ensures
        inode_slot_matches(*dev, *sb, inum as int, r),
{
    let block = iblock(sb, inum);
    let mut buf = block_buf();
    bread(dev, block, &mut buf);
    let off: usize = (((inum - 1) % 16) as usize) * 64;
    read_inode(buf.as_slice(), off)
}

/// Writes the record of inode `inum` back to the image, leaving every
/// byte outside the record unchanged.
pub fn winode(dev: &mut BlockDev, sb: &SuperBlock, inum: u32, inode: &Inode)
    requires
        old(dev).wf(),
        sb_ok(*sb, *old(dev)),
        1 <= inum <= INODE_SLOTS,
    ensures
        final(dev).wf(),
        final(dev).blocks@.len() == old(dev).blocks@.len(),
        inode_slot_matches(*final(dev), *sb, inum as int, *inode),
        forall|b: int|
            0 <= b < old(dev).blocks@.len() && b != spec_iblock(*sb, inum as int)
                ==> final(dev).blocks@[b] == old(dev).blocks@[b],
        forall|k: int|
            0 <= k < BLKSZ && !(spec_ioff(inum as int) <= k < spec_ioff(inum as int) + 64)
                ==> final(dev).blocks@[spec_iblock(*sb, inum as int)]@[k] == old(dev).blocks@[
            spec_iblock(*sb, inum as int)]@[k],
{
    let block = iblock(sb, inum);
    let mut buf = block_buf();
    bread(dev, block, &mut buf);
    let off: usize = (((inum - 1) % 16) as usize) * 64;
    write_inode(&mut buf, off, inode);
    bwrite(dev, block, &buf);
}

/// Appends `data` to the end of the file of inode `inum`, linking the
/// next sequential block from the allocation cursor when the tail block
/// is not linked yet, and grows the recorded size. The image builder
/// appends record-sized pieces, which never straddle a block boundary.
pub fn iappend(
    dev: &mut BlockDev,
    sb: &SuperBlock,
    inum: u32,
    data: &Vec<u8>,
    alloc_cursor: &mut u32,
) -> (newsize: u32)
    requires
        old(dev).wf(),
        sb_ok(*sb, *old(dev)),
        1 <= inum <= INODE_SLOTS,
        data@.len() >= 1,
        ({
            let ino = spec_slot_inode(*old(dev), *sb, inum as int);
            &&& inode_slot_matches(*old(dev), *sb, inum as int, ino)
            &&& ino.size as int % 16 == 0
            &&& (ino.size as int) % 1024 + data@.len() <= 1024
            &&& ino.size + data@.len() <= 12 * 1024
            &&& (ino.directs@[ino.size as int / 1024] != 0 ==> sb.bmapstart < ino.directs@[
                ino.size as int / 1024] < old(dev).blocks@.len())
        }),
        sb.inodestart + crate::fs::INODE_BLKSZ <= sb.bmapstart,
        sb.bmapstart < *old(alloc_cursor),
        (*old(alloc_cursor) as int) < old(dev).blocks@.len(),
    ensures
        final(dev).wf(),
        final(dev).blocks@.len() == old(dev).blocks@.len(),
        ({
            let ino = spec_slot_inode(*old(dev), *sb, inum as int);
            let ino2 = spec_slot_inode(*final(dev), *sb, inum as int);
            &&& newsize == ino.size + data@.len()
            &&& ino2.size == newsize
            &&& (ino.directs@[ino.size as int / 1024] != 0 ==> *final(alloc_cursor) == *old(
                alloc_cursor,
            ) && ino2.directs@[ino.size as int / 1024] == ino.directs@[ino.size as int / 1024])
            &&& (ino.directs@[ino.size as int / 1024] == 0 ==> *final(alloc_cursor) == *old(
                alloc_cursor,
            ) + 1 && ino2.directs@[ino.size as int / 1024] == *old(alloc_cursor))
            &&& forall|j: int|
                0 <= j < data@.len() ==> content_byte(*final(dev), ino2, ino.size + j) == data@[j]
        }),
{
    let ghost pre = *dev;
    let mut inode = rinode(dev, sb, inum);
    proof {
        lemma_slot_inode_unique(pre, *sb, inum as int, inode);
    }
    let ghost ino_read = inode;
    let end = inode.size as usize;
    let nlink = end / BLKSZ;
    proof {
        vstd::arithmetic::div_mod::lemma_fundamental_div_mod(end as int, 1024);
    }
    let mut block_num = inode.directs[nlink];
    if block_num == 0 {
        block_num = *alloc_cursor;
        inode.directs[nlink] = block_num;
        *alloc_cursor = *alloc_cursor + 1;
    }
    let mut buf = block_buf();
    bread(dev, block_num, &mut buf);
    let start = end % BLKSZ;
    let mut t: usize = 0;
    while t < data.len()
        invariant
            t <= data@.len(),
            start + data@.len() <= 1024,
            buf@.len() == BLKSZ,
            forall|k: int| 0 <= k < t ==> buf@[start + k] == data@[k],
            forall|k: int|
                0 <= k < BLKSZ && !(start <= k < start + t) ==> buf@[k] == pre.blocks@[block_num
                    as int]@[k],
            0 < (block_num as int) < pre.blocks@.len(),
            pre.wf(),
        decreases data@.len() - t,
    {
        buf[start + t] = data[t];
        t = t + 1;
    }
    bwrite(dev, block_num, &buf);
    let newsize = (end + data.len()) as u32;
    inode.size = newsize;
    winode(dev, sb, inum, &inode);
    proof {
        let ino = spec_slot_inode(pre, *sb, inum as int);
        let ino2 = spec_slot_inode(*dev, *sb, inum as int);
        assert(inode_slot_matches(*dev, *sb, inum as int, inode));
        lemma_slot_inode_unique(*dev, *sb, inum as int, inode);
        assert(ino.size == ino_read.size && ino.directs@ =~= ino_read.directs@);
        assert(ino2.size == inode.size && ino2.directs@ =~= inode.directs@);
        // the data block is not the inode-table block that winode rewrote
        assert(spec_iblock(*sb, inum as int) < sb.inodestart + crate::fs::INODE_BLKSZ);
        assert(block_num as int != spec_iblock(*sb, inum as int));
        assert forall|j: int| 0 <= j < data@.len() implies content_byte(
            *dev,
            ino2,
            ino.size + j,
        ) == data@[j] by {
            crate::fsops::lemma_same_block_pub(ino.size as int, j);
            assert(spec_find_block(*dev, ino2, (ino.size + j) / 1024) == block_num);
            assert(dev.blocks@[block_num as int]@[(ino.size + j) % 1024] == buf@[start + j]);
        }
    }
    newsize
}

/// The inode record stored in slot `inum`, as a value.
pub open spec fn spec_slot_inode(dev: BlockDev, sb: SuperBlock, inum: int) -> Inode {
    choose|ino: Inode| inode_slot_matches(dev, sb, inum, ino)
}

/// Two records matching the same bytes agree on every field, so the
/// chosen record is the matched one.
pub proof fn lemma_slot_inode_unique(dev: BlockDev, sb: SuperBlock, inum: int, ino: Inode)
    requires
        inode_slot_matches(dev, sb, inum, ino),
    ensures
        spec_slot_inode(dev, sb, inum).typ == ino.typ,
        spec_slot_inode(dev, sb, inum).size == ino.size,
        spec_slot_inode(dev, sb, inum).directs@ =~= ino.directs@,
        spec_slot_inode(dev, sb, inum).indirect == ino.indirect,
        spec_slot_inode(dev, sb, inum).major == ino.major,
        spec_slot_inode(dev, sb, inum).minor == ino.minor,
        spec_slot_inode(dev, sb, inum).nlink == ino.nlink,
{
    let c = spec_slot_inode(dev, sb, inum);
    assert(inode_slot_matches(dev, sb, inum, c));
}

/// Appends one directory entry for `inum` under the given name to the
/// directory's own content.
pub fn create_dent(
    dev: &mut BlockDev,
    sb: &SuperBlock,
    inum: u32,
    s: &str,
    alloc_cursor: &mut u32,
) -> (newsize: u32)
    requires
        old(dev).wf(),
        sb_ok(*sb, *old(dev)),
        1 <= inum <= INODE_SLOTS,
        s@.len() < 13,
        s.is_ascii(),
        ({
            let ino = spec_slot_inode(*old(dev), *sb, inum as int);
            &&& inode_slot_matches(*old(dev), *sb, inum as int, ino)
            &&& ino.size as int % 16 == 0
            &&& (ino.size as int) % 1024 + 16 <= 1024
            &&& ino.size + 16 <= 12 * 1024
            &&& (ino.directs@[ino.size as int / 1024] != 0 ==> sb.bmapstart < ino.directs@[
                ino.size as int / 1024] < old(dev).blocks@.len())
        }),
        sb.inodestart + crate::fs::INODE_BLKSZ <= sb.bmapstart,
        sb.bmapstart < *old(alloc_cursor),
        (*old(alloc_cursor) as int) < old(dev).blocks@.len(),
    ensures
        final(dev).wf(),
        final(dev).blocks@.len() == old(dev).blocks@.len(),
        newsize == spec_slot_inode(*old(dev), *sb, inum as int).size + 16,
{
    let mut d = Dirent { inum: 0, name: [0u8; 14] };
    d.update(inum, s);
    let mut ebuf = block_buf();
    ebuf.truncate(16);
    crate::fs::write_dirent(&mut ebuf, 0, &d);
    iappend(dev, sb, inum, &ebuf, alloc_cursor)
}

} // verus!
