//! Filesystem operations over the block device: inode and block
//! allocation, block-mapped reads and writes, and directories.

use vstd::prelude::*;

use crate::bio::{bread, bwrite, BlockDev};
use crate::fs::{iblock, inode_matches, read_inode, read_superblock, write_inode, Inode,
    SuperBlock, BITMAP_BLKSZ, BLKSZ, INODE_BLKSZ, T_DIR};
use vstd::bytes::{spec_u16_from_le_bytes, spec_u32_from_le_bytes};
use vstd::string::{StringSliceAdditionalSpecFns, StrSliceExecFns};

verus! {

/// Longest path the kernel accepts.
pub const MAXPATH: usize = 128;

pub const O_RDONLY: i32 = 0x000;

pub const O_WRONLY: i32 = 0x001;

pub const O_RDWR: i32 = 0x002;

pub const O_CREATE: i32 = 0x200;

pub const O_TRUNC: i32 = 0x400;

/// An in-memory inode together with the number of its on-disk slot.
#[derive(Debug)]
pub struct FsInode {
    pub inner: Inode,
    pub inum: u32,
}

/// Number of inode slots the inode-table blocks hold.
pub const INODE_SLOTS: u32 = INODE_BLKSZ * 16;

/// The superblock's regions fit on the disk.
pub open spec fn sb_ok(sb: SuperBlock, dev: BlockDev) -> bool {
    &&& 1 < sb.inodestart
    &&& sb.inodestart + INODE_BLKSZ <= dev.blocks@.len()
    &&& sb.bmapstart + BITMAP_BLKSZ <= dev.blocks@.len()
}

/// The inode-table block that holds slot `inum`.
pub open spec fn spec_iblock(sb: SuperBlock, inum: int) -> int {
    (inum - 1) / 16 + sb.inodestart
}

/// The byte offset of slot `inum` inside its block.
pub open spec fn spec_ioff(inum: int) -> int {
    ((inum - 1) % 16) * 64
}

/// The record in inode slot `inum` of the disk has exactly the fields of
/// `ino`.
pub open spec fn inode_slot_matches(dev: BlockDev, sb: SuperBlock, inum: int, ino: Inode) -> bool {
    inode_matches(dev.blocks@[spec_iblock(sb, inum)]@, spec_ioff(inum), ino)
}

/// Inode slot `inum` is free on disk: its type field is zero.
pub open spec fn inode_free_on_disk(dev: BlockDev, sb: SuperBlock, inum: int) -> bool {
    spec_u16_from_le_bytes(
        dev.blocks@[spec_iblock(sb, inum)]@.subrange(spec_ioff(inum), spec_ioff(inum) + 2),
    ) == 0
}

/// A zeroed one-block buffer.
pub fn block_buf() -> (r: Vec<u8>)
    ensures
        r@.len() == BLKSZ,
{
    let mut b: Vec<u8> = Vec::new();
    let mut j: usize = 0;
    while j < BLKSZ
        invariant
            j <= BLKSZ,
            b@.len() == j,
        decreases BLKSZ - j,
    {
        b.push(0);
        j = j + 1;
    }
    b
}

/// Reads the superblock from its fixed location, block 1.
pub fn init(dev: &BlockDev) -> (sb: SuperBlock)
    requires
        dev.wf(),
        dev.blocks@.len() > 1,
    ensures
        crate::fs::superblock_matches(dev.blocks@[1]@, sb),
{
    let mut buf = block_buf();
    bread(dev, 1, &mut buf);
    read_superblock(buf.as_slice())
}

/// Fetches the record of inode `inum` from disk.
pub fn find_inode(dev: &BlockDev, sb: &SuperBlock, inum: u32) -> (r: FsInode)
    requires
        dev.wf(),
        sb_ok(*sb, *dev),
        1 <= inum <= INODE_SLOTS,
    ensures
        r.inum == inum,
        inode_slot_matches(*dev, *sb, inum as int, r.inner),
{
    let block = iblock(sb, inum);
    let mut buf = block_buf();
    bread(dev, block, &mut buf);
    let off: usize = (((inum - 1) % 16) as usize) * 64;
    let inner = read_inode(buf.as_slice(), off);
    FsInode { inner, inum }
}

/// Allocates the lowest free inode slot: finds the first slot whose
/// on-disk type is zero, initializes it with the given identity, persists
/// it, and returns its (1-based) number. Running out of inodes is fatal
/// and excluded here. Never returns inode 0, never returns a slot that
/// was in use, and changes no byte outside the chosen record.
pub fn alloc_inode(dev: &mut BlockDev, sb: &SuperBlock, typ: u16, major: u16, minor: u16, nlink: u16) -> (r: u32)
    requires
        old(dev).wf(),
        sb_ok(*sb, *old(dev)),
        typ != 0,
        exists|i: int| 1 <= i <= INODE_SLOTS && inode_free_on_disk(*old(dev), *sb, i),
    ensures
        final(dev).wf(),
        final(dev).blocks@.len() == old(dev).blocks@.len(),
        1 <= r <= INODE_SLOTS,
        inode_free_on_disk(*old(dev), *sb, r as int),
        forall|i: int| 1 <= i < r ==> !inode_free_on_disk(*old(dev), *sb, i),
        exists|ino: Inode|
            {
                &&& #[trigger] inode_slot_matches(*final(dev), *sb, r as int, ino)
                &&& ino.typ == typ
                &&& ino.major == major
                &&& ino.minor == minor
                &&& ino.nlink == nlink
                &&& ino.size == 0
                &&& ino.indirect == 0
                &&& forall|j: int| 0 <= j < 12 ==> ino.directs@[j] == 0
            },
        forall|b: int|
            0 <= b < old(dev).blocks@.len() && b != spec_iblock(*sb, r as int)
                ==> final(dev).blocks@[b] == old(dev).blocks@[b],
        forall|k: int|
            0 <= k < BLKSZ && !(spec_ioff(r as int) <= k < spec_ioff(r as int) + 64)
                ==> final(dev).blocks@[spec_iblock(*sb, r as int)]@[k] == old(dev).blocks@[
            spec_iblock(*sb, r as int)]@[k],
{
    let mut iblock_no: u32 = 0;
    while iblock_no < INODE_BLKSZ
        invariant
            dev.wf(),
            *dev == *old(dev),
            sb_ok(*sb, *dev),
            typ != 0,
            iblock_no <= INODE_BLKSZ,
            exists|i: int| 1 <= i <= INODE_SLOTS && inode_free_on_disk(*dev, *sb, i),
            forall|i: int|
                1 <= i <= iblock_no * 16 ==> !inode_free_on_disk(*old(dev), *sb, i),
        decreases INODE_BLKSZ - iblock_no,
    {
        let block = sb.inodestart + iblock_no;
        let mut buf = block_buf();
        bread(dev, block, &mut buf);
        let mut i: u32 = 0;
        while i < 16
            invariant
                dev.wf(),
                *dev == *old(dev),
                sb_ok(*sb, *dev),
                typ != 0,
                iblock_no < INODE_BLKSZ,
                block == sb.inodestart + iblock_no,
                buf@ == dev.blocks@[block as int]@,
                buf@.len() == BLKSZ,
                i <= 16,
                forall|t: int|
                    1 <= t <= iblock_no * 16 + i ==> !inode_free_on_disk(*old(dev), *sb, t),
            decreases 16 - i,
        {
            let inum = 1 + i + iblock_no * 16;
            let off: usize = (i as usize) * 64;
            proof {
                assert(spec_iblock(*sb, inum as int) == block);
                assert(spec_ioff(inum as int) == off);
            }
            let ino = read_inode(buf.as_slice(), off);
            if ino.is_free() {
                proof {
                    vstd::bytes::lemma_auto_spec_u16_to_from_le_bytes();
                    assert(inode_free_on_disk(*dev, *sb, inum as int));
                }
                let mut ino2 = ino;
                ino2.init(typ, major, minor, nlink);
                write_inode(&mut buf, off, &ino2);
                bwrite(dev, block, &buf);
                proof {
                    assert(inode_slot_matches(*dev, *sb, inum as int, ino2));
                }
                return inum;
            }
            proof {
                assert(!inode_free_on_disk(*old(dev), *sb, inum as int)) by {
                    vstd::bytes::lemma_auto_spec_u16_to_from_le_bytes();
                }
            }
            i = i + 1;
        }
        iblock_no = iblock_no + 1;
    }
    proof {
        let w = choose|i: int| 1 <= i <= INODE_SLOTS && inode_free_on_disk(*dev, *sb, i);
        assert(!inode_free_on_disk(*old(dev), *sb, w));
        assert(false);
    }
    0
}

/// Block `bn` is free in the on-disk bitmap: its bit is clear.
pub open spec fn block_free(dev: BlockDev, sb: SuperBlock, bn: int) -> bool {
    (dev.blocks@[sb.bmapstart + bn / 8192]@[(bn % 8192) / 8] >> ((bn % 8) as u8)) & 1 == 0
}

/// Allocates the lowest free block: finds the first clear bit of the
/// free bitmap, sets it, persists the bitmap block, and returns the block
/// number. Running out of blocks is fatal and excluded here. Never
/// returns a block whose bit was already set, and flips exactly one bit.
pub fn alloc_block(dev: &mut BlockDev, sb: &SuperBlock) -> (r: u32)
    requires
        old(dev).wf(),
        sb_ok(*sb, *old(dev)),
        exists|bn: int| 0 <= bn < BITMAP_BLKSZ * 8192 && block_free(*old(dev), *sb, bn),
    ensures
        final(dev).wf(),
        final(dev).blocks@.len() == old(dev).blocks@.len(),
        r < BITMAP_BLKSZ * 8192,
        block_free(*old(dev), *sb, r as int),
        forall|bn: int| 0 <= bn < r ==> !block_free(*old(dev), *sb, bn),
        !block_free(*final(dev), *sb, r as int),
        forall|bn: int|
            0 <= bn < BITMAP_BLKSZ * 8192 && bn != r ==> block_free(*final(dev), *sb, bn)
                == block_free(*old(dev), *sb, bn),
        forall|b: int|
            0 <= b < old(dev).blocks@.len() && b != sb.bmapstart + (r as int) / 8192
                ==> final(dev).blocks@[b] == old(dev).blocks@[b],
{
    let mut bmap_no: u32 = 0;
    while bmap_no < BITMAP_BLKSZ
        invariant
            dev.wf(),
            *dev == *old(dev),
            sb_ok(*sb, *dev),
            bmap_no <= BITMAP_BLKSZ,
            exists|bn: int| 0 <= bn < BITMAP_BLKSZ * 8192 && block_free(*dev, *sb, bn),
            forall|bn: int| 0 <= bn < bmap_no * 8192 ==> !block_free(*old(dev), *sb, bn),
        decreases BITMAP_BLKSZ - bmap_no,
    {
        let bmap_block = sb.bmapstart + bmap_no;
        let mut bitmap = block_buf();
        bread(dev, bmap_block, &mut bitmap);
        let mut bit: u32 = 0;
        while bit < 8192
            invariant
                dev.wf(),
                *dev == *old(dev),
                sb_ok(*sb, *dev),
                bmap_no < BITMAP_BLKSZ,
                bmap_block == sb.bmapstart + bmap_no,
                bitmap@ == dev.blocks@[bmap_block as int]@,
                bitmap@.len() == BLKSZ,
                bit <= 8192,
                forall|bn: int|
                    0 <= bn < bmap_no * 8192 + bit ==> !block_free(*old(dev), *sb, bn),
            decreases 8192 - bit,
        {
            let bytes: usize = (bit as usize) / 8;
            let mask: u8 = 1u8 << ((bit % 8) as u8);
            let bn: u32 = bmap_no * 8192 + bit;
            proof {
                let by = bitmap@[bytes as int];
                let k = (bit % 8) as u8;
                assert((by & (1u8 << k) == 0) == ((by >> k) & 1 == 0)) by (bit_vector);
                assert(((bn as int) % 8192) / 8 == bytes && (bn as int) % 8 == k && (bn as int)
                    / 8192 == bmap_no);
            }
            if bitmap[bytes] & mask == 0 {
                proof {
                    assert(block_free(*dev, *sb, bn as int));
                }
                let b0 = bitmap[bytes];
                bitmap[bytes] = b0 | mask;
                proof {
                    let k = (bit % 8) as u8;
                    assert(((b0 | (1u8 << k)) >> k) & 1 == 1) by (bit_vector)
                        requires
                            k < 8,
                    ;
                    assert(forall|j: u8|
                        j < 8 && j != k ==> ((b0 | (1u8 << k)) >> j) & 1 == (b0 >> j) & 1)
                        by (bit_vector)
                        requires
                            k < 8,
                    ;
                }
                bwrite(dev, bmap_block, &bitmap);
                proof {
                    assert(!block_free(*dev, *sb, bn as int));
                    assert forall|bn2: int|
                        0 <= bn2 < BITMAP_BLKSZ * 8192 && bn2 != bn implies block_free(
                        *dev,
                        *sb,
                        bn2,
                    ) == block_free(*old(dev), *sb, bn2) by {
                        if sb.bmapstart + bn2 / 8192 == bmap_block {
                            if (bn2 % 8192) / 8 == bytes {
                                assert((bn2 % 8) as u8 != (bn as int % 8) as u8);
                            }
                        }
                    }
                }
                return bn;
            }
            proof {
                assert(!block_free(*old(dev), *sb, bn as int));
            }
            bit = bit + 1;
        }
        bmap_no = bmap_no + 1;
    }
    proof {
        let w = choose|bn: int| 0 <= bn < BITMAP_BLKSZ * 8192 && block_free(*dev, *sb, bn);
        assert(!block_free(*old(dev), *sb, w));
        assert(false);
    }
    0
}

/// Marks the in-memory inode free; writing the record back to its slot is
/// the caller's duty.
pub fn free_inode(fsinode: &mut FsInode)
    ensures
        final(fsinode).inner.typ == 0,
        final(fsinode).inner.size == old(fsinode).inner.size,
        final(fsinode).inum == old(fsinode).inum,
{
    fsinode.inner.set_free();
}

/// The block number that holds block-offset `bo` of the file: one of the
/// direct pointers, or an entry of the single indirect block; zero when
/// nothing is linked there.
pub open spec fn spec_find_block(dev: BlockDev, ino: Inode, bo: int) -> int {
    if bo < 12 {
        ino.directs@[bo] as int
    } else if ino.indirect == 0 {
        0
    } else {
        spec_u32_from_le_bytes(
            dev.blocks@[ino.indirect as int]@.subrange(4 * (bo - 12), 4 * (bo - 12) + 4),
        ) as int
    }
}

/// Byte `b` of the file's content.
pub open spec fn content_byte(dev: BlockDev, ino: Inode, b: int) -> u8 {
    dev.blocks@[spec_find_block(dev, ino, b / 1024)]@[b % 1024]
}

/// The blocks covering byte range `[lo, hi)` of the file are linked and
/// lie on the disk.
pub open spec fn blocks_ok(dev: BlockDev, ino: Inode, lo: int, hi: int) -> bool {
    forall|bo: int|
        lo / 1024 <= bo <= (hi - 1) / 1024 ==> {
            &&& 0 < #[trigger] spec_find_block(dev, ino, bo) < dev.blocks@.len()
            &&& (bo >= 12 ==> 0 < ino.indirect < dev.blocks@.len())
        }
}

/// The file's linked blocks are all distinct, and none of them is the
/// indirect block: writing one block offset cannot disturb another.
pub open spec fn ino_blocks_distinct(dev: BlockDev, ino: Inode) -> bool {
    &&& forall|b1: int, b2: int|
        0 <= b1 < b2 < 268 && #[trigger] spec_find_block(dev, ino, b1) != 0
            && #[trigger] spec_find_block(dev, ino, b2) != 0 ==> spec_find_block(dev, ino, b1)
            != spec_find_block(dev, ino, b2)
    &&& forall|b1: int|
        0 <= b1 < 268 ==> #[trigger] spec_find_block(dev, ino, b1) != ino.indirect
}

/// Resolves the block that holds byte offset `off` of the file.
pub fn find_block(dev: &BlockDev, inode: &Inode, off: usize) -> (r: u32)
    requires
        dev.wf(),
        off / 1024 < 268,
        off / 1024 >= 12 && inode.indirect != 0 ==> (inode.indirect as int) < dev.blocks@.len(),
    ensures
        r as int == spec_find_block(*dev, *inode, off as int / 1024),
{
    let bo: usize = off / BLKSZ;
    if bo < 12 {
        inode.directs[bo]
    } else if inode.indirect == 0 {
        0
    } else {
        let mut buf = block_buf();
        bread(dev, inode.indirect, &mut buf);
        crate::fs::read_u32(buf.as_slice(), 4 * (bo - 12))
    }
}

/// Resolves the block for byte offset `off`, allocating and linking one
/// (and, beyond the direct range, the indirect block itself) when nothing
/// is linked there yet.
pub fn find_or_alloc_block(
    dev: &mut BlockDev,
    sb: &SuperBlock,
    inode: &mut Inode,
    off: usize,
) -> (r: u32)
    requires
        old(dev).wf(),
        sb_ok(*sb, *old(dev)),
        off / 1024 < 268,
        off / 1024 >= 12 && old(inode).indirect != 0 ==> (old(inode).indirect as int) < old(
            dev,
        ).blocks@.len(),
        spec_find_block(*old(dev), *old(inode), off as int / 1024) != 0 ==> spec_find_block(
            *old(dev),
            *old(inode),
            off as int / 1024,
        ) < old(dev).blocks@.len(),
        forall|b: int|
            0 <= b < sb.bmapstart + BITMAP_BLKSZ ==> !block_free(*old(dev), *sb, b),
        spec_find_block(*old(dev), *old(inode), off as int / 1024) == 0 ==> exists|b1: int, b2: int|
            0 < b1 < b2 < BITMAP_BLKSZ * 8192 && #[trigger] block_free(*old(dev), *sb, b1)
                && #[trigger] block_free(*old(dev), *sb, b2) && b2 < old(dev).blocks@.len(),
    ensures
        final(dev).wf(),
        final(dev).blocks@.len() == old(dev).blocks@.len(),
        r != 0,
        (r as int) < final(dev).blocks@.len(),
        r as int == spec_find_block(*final(dev), *final(inode), off as int / 1024),
        spec_find_block(*old(dev), *old(inode), off as int / 1024) != 0 ==> *final(inode) == *old(
            inode,
        ) && *final(dev) == *old(dev) && r as int == spec_find_block(
            *old(dev),
            *old(inode),
            off as int / 1024,
        ),
{
    let found = find_block(dev, inode, off);
    if found != 0 {
        proof {
            assert((found as int) < dev.blocks@.len());
        }
        return found;
    }
    let bo: usize = off / BLKSZ;
    if bo < 12 {
        proof {
            lemma_pair_gives_free(*dev, *sb);
        }
        let bn = alloc_block(dev, sb);
        proof {
            let (w1, w2) = choose|b1: int, b2: int|
                0 < b1 < b2 < BITMAP_BLKSZ * 8192 && #[trigger] block_free(*old(dev), *sb, b1)
                    && #[trigger] block_free(*old(dev), *sb, b2) && b2 < old(dev).blocks@.len();
            assert(bn as int <= w1);
            assert(!block_free(*old(dev), *sb, 0));
        }
        inode.directs[bo] = bn;
        return bn;
    }
    // Beyond the direct range: make sure the indirect block exists, then
    // link the new data block through it.
    let ghost pre = *dev;
    let ghost (w1, w2) = choose|b1: int, b2: int|
        0 < b1 < b2 < BITMAP_BLKSZ * 8192 && #[trigger] block_free(*old(dev), *sb, b1)
            && #[trigger] block_free(*old(dev), *sb, b2) && b2 < old(dev).blocks@.len();
    if inode.indirect == 0 {
        proof {
            lemma_pair_gives_free(*dev, *sb);
        }
        let ib = alloc_block(dev, sb);
        proof {
            assert(ib as int <= w1);
            assert(ib >= sb.bmapstart + BITMAP_BLKSZ);
            // the still-free second block survives the first allocation
            assert(block_free(*dev, *sb, w2));
        }
        // A fresh indirect block starts with no links at all.
        let zeros = block_buf();
        let ghost mid = *dev;
        bwrite(dev, ib, &zeros);
        proof {
            // zeroing a data block leaves the bitmap blocks alone
            assert forall|b: int|
                0 <= b < BITMAP_BLKSZ * 8192 implies block_free(*dev, *sb, b) == block_free(
                mid,
                *sb,
                b,
            ) by {
                assert(sb.bmapstart + b / 8192 != ib);
            }
            assert(block_free(*dev, *sb, w2));
            assert forall|b: int|
                0 <= b < sb.bmapstart + BITMAP_BLKSZ implies !block_free(*dev, *sb, b) by {
                assert(b != ib as int);
                assert(!block_free(pre, *sb, b));
            }
        }
        inode.indirect = ib;
    }
    proof {
        assert(0 <= w2 < BITMAP_BLKSZ * 8192 && block_free(*dev, *sb, w2));
    }
    let bn = alloc_block(dev, sb);
    proof {
        assert(bn >= sb.bmapstart + BITMAP_BLKSZ);
        assert(bn != 0 && (bn as int) < dev.blocks@.len());
    }
    let mut buf = block_buf();
    bread(dev, inode.indirect, &mut buf);
    crate::fs::write_u32(&mut buf, 4 * (bo - 12), bn);
    bwrite(dev, inode.indirect, &buf);
    bn
}

/// Reads from the file into `dst`: up to `dst.len()` bytes starting at
/// byte offset `off`, clipped at the file's size. Returns `false` — and
/// reads nothing — exactly when `off` lies past the end of the file.
pub fn readi(dev: &BlockDev, fsinode: &FsInode, off: usize, dst: &mut Vec<u8>) -> (r: bool)
    requires
        dev.wf(),
        fsinode.inner.size <= 268 * 1024,
        off <= fsinode.inner.size ==> blocks_ok(
            *dev,
            fsinode.inner,
            off as int,
            off + min_int(old(dst)@.len() as int, fsinode.inner.size - off),
        ),
    ensures
        r == (off <= fsinode.inner.size),
        final(dst)@.len() == old(dst)@.len(),
        r ==> {
            let n = min_int(old(dst)@.len() as int, fsinode.inner.size - off);
            &&& forall|j: int|
                0 <= j < n ==> final(dst)@[j] == content_byte(*dev, fsinode.inner, off + j)
            &&& forall|j: int| n <= j < old(dst)@.len() ==> final(dst)@[j] == old(dst)@[j]
        },
        !r ==> final(dst)@ == old(dst)@,
{
    let inode = &fsinode.inner;
    if off > inode.size as usize {
        return false;
    }
    let mut total: usize = 0;
    let size: usize = if dst.len() < inode.size as usize - off {
        dst.len()
    } else {
        inode.size as usize - off
    };
    let mut buf = block_buf();
    while total < size
        invariant
            dev.wf(),
            fsinode.inner == *inode,
            inode.size <= 268 * 1024,
            off + size <= inode.size || size == dst@.len(),
            off + size <= 268 * 1024,
            size <= dst@.len(),
            total <= size,
            dst@.len() == old(dst)@.len(),
            buf@.len() == BLKSZ,
            blocks_ok(*dev, *inode, off as int, off + size),
            size == min_int(old(dst)@.len() as int, inode.size - off),
            forall|j: int|
                0 <= j < total ==> dst@[j] == content_byte(*dev, *inode, off + j),
            forall|j: int| total <= j < dst@.len() ==> dst@[j] == old(dst)@[j],
        decreases size - total,
    {
        let pos = off + total;
        proof {
            lemma_div_mono(pos as int, 268 * 1024 - 1, 1024);
            lemma_div_mono(off as int, pos as int, 1024);
            lemma_div_mono(pos as int, off + size - 1, 1024);
            assert(0 < spec_find_block(*dev, *inode, pos as int / 1024) < dev.blocks@.len());
            if pos as int / 1024 >= 12 {
                assert(0 < inode.indirect < dev.blocks@.len());
            }
        }
        let block_num = find_block(dev, inode, pos);
        proof {
            assert(0 < (block_num as int) < dev.blocks@.len());
        }
        bread(dev, block_num, &mut buf);
        let in_block = pos % BLKSZ;
        let n: usize = if size - total < BLKSZ - in_block {
            size - total
        } else {
            BLKSZ - in_block
        };
        let mut t: usize = 0;
        while t < n
            invariant
                dev.wf(),
                fsinode.inner == *inode,
                pos == off + total,
                in_block == pos % 1024,
                n <= 1024 - in_block,
                total + n <= size,
                size <= dst@.len(),
                dst@.len() == old(dst)@.len(),
                t <= n,
                buf@ == dev.blocks@[block_num as int]@,
                buf@.len() == BLKSZ,
                block_num as int == spec_find_block(*dev, *inode, pos as int / 1024),
                0 < (block_num as int) < dev.blocks@.len(),
                off + size <= 268 * 1024,
                forall|j: int|
                    0 <= j < total + t ==> dst@[j] == content_byte(*dev, *inode, off + j),
                forall|j: int| total + t <= j < dst@.len() ==> dst@[j] == old(dst)@[j],
            decreases n - t,
        {
            dst[total + t] = buf[in_block + t];
            proof {
                lemma_same_block(pos as int, t as int);
                assert(dst@[total + t] == content_byte(*dev, *inode, off + total + t));
            }
            t = t + 1;
        }
        total = total + n;
    }
    true
}

/// Writes `src` into the file at byte offset `off`, which may lie inside
/// the file or exactly at its end (an append), growing the recorded size
/// past the write. Returns `false` — and writes nothing — exactly when
/// `off` lies past the end or the write would pass the file's last
/// linkable block.
pub fn writei(dev: &mut BlockDev, fsinode: &mut FsInode, off: usize, src: &Vec<u8>) -> (r: bool)
    requires
        old(dev).wf(),
        old(fsinode).inner.size <= 268 * 1024,
        off <= old(fsinode).inner.size && off + src@.len() <= 268 * 1024 ==> {
            &&& blocks_ok(*old(dev), old(fsinode).inner, off as int, off + src@.len())
            &&& ino_blocks_distinct(*old(dev), old(fsinode).inner)
        },
    ensures
        final(dev).wf(),
        final(dev).blocks@.len() == old(dev).blocks@.len(),
        r == (off <= old(fsinode).inner.size && off + src@.len() <= 268 * 1024),
        !r ==> *final(dev) == *old(dev) && *final(fsinode) == *old(fsinode),
        r ==> {
            &&& final(fsinode).inner == (Inode {
                size: if off + src@.len() > old(fsinode).inner.size {
                    (off + src@.len()) as u32
                } else {
                    old(fsinode).inner.size
                },
                ..old(fsinode).inner
            })
            &&& final(fsinode).inum == old(fsinode).inum
            &&& forall|j: int|
                0 <= j < src@.len() ==> content_byte(*final(dev), final(fsinode).inner, off + j)
                    == src@[j]
            &&& forall|b: int|
                0 <= b < old(dev).blocks@.len() && (forall|bo: int|
                    off as int / 1024 <= bo <= (off + src@.len() - 1) / 1024
                        ==> b != #[trigger] spec_find_block(*old(dev), old(fsinode).inner, bo))
                    ==> #[trigger] final(dev).blocks@[b] == old(dev).blocks@[b]
            &&& forall|j: int|
                0 <= j < 268 * 1024 && !(off <= j < off + src@.len()) && off as int / 1024 <= j
                    / 1024 <= (off + src@.len() - 1) / 1024 ==> content_byte(
                    *final(dev),
                    final(fsinode).inner,
                    j,
                ) == content_byte(*old(dev), old(fsinode).inner, j)
        },
{
    let len = src.len();
    if off > fsinode.inner.size as usize {
        return false;
    }
    if len > 268 * 1024 - off {
        return false;
    }
    let ghost ino0 = fsinode.inner;
    let mut total: usize = 0;
    let mut buf = block_buf();
    while total < len
        invariant
            dev.wf(),
            fsinode.inner == ino0,
            fsinode.inum == old(fsinode).inum,
            ino0 == old(fsinode).inner,
            dev.blocks@.len() == old(dev).blocks@.len(),
            off <= ino0.size,
            off + len <= 268 * 1024,
            len == src@.len(),
            total <= len,
            buf@.len() == BLKSZ,
            blocks_ok(*old(dev), ino0, off as int, off + len),
            ino_blocks_distinct(*old(dev), ino0),
            // the linked blocks have not moved: no data block is the
            // indirect block
            forall|bo: int|
                off as int / 1024 <= bo <= (off + len - 1) / 1024 ==> #[trigger] spec_find_block(
                    *dev,
                    ino0,
                    bo,
                ) == spec_find_block(*old(dev), ino0, bo),
            forall|j: int|
                off <= j < off + total ==> #[trigger] content_byte(*dev, ino0, j) == src@[j - off],
            forall|b: int|
                0 <= b < old(dev).blocks@.len() && (forall|bo: int|
                    off as int / 1024 <= bo <= (off + len - 1) / 1024 ==> b
                        != #[trigger] spec_find_block(*old(dev), ino0, bo))
                    ==> #[trigger] dev.blocks@[b] == old(dev).blocks@[b],
            forall|j: int|
                0 <= j < 268 * 1024 && !(off <= j < off + total) && off as int / 1024 <= j / 1024
                    <= (off + len - 1) / 1024 ==> content_byte(*dev, ino0, j) == content_byte(
                    *old(dev),
                    ino0,
                    j,
                ),
        decreases len - total,
    {
        let pos = off + total;
        proof {
            lemma_div_mono(pos as int, 268 * 1024 - 1, 1024);
            lemma_div_mono(off as int, pos as int, 1024);
            lemma_div_mono(pos as int, off + len - 1, 1024);
            assert(0 < spec_find_block(*old(dev), ino0, pos as int / 1024) < dev.blocks@.len());
            if pos as int / 1024 >= 12 {
                assert(0 < ino0.indirect < dev.blocks@.len());
            }
            assert(spec_find_block(*dev, ino0, pos as int / 1024) == spec_find_block(
                *old(dev),
                ino0,
                pos as int / 1024,
            ));
        }
        let block_num = find_block(dev, &fsinode.inner, pos);
        proof {
            assert(0 < (block_num as int) < dev.blocks@.len());
        }
        bread(dev, block_num, &mut buf);
        let in_block = pos % BLKSZ;
        let n: usize = if len - total < BLKSZ - in_block {
            len - total
        } else {
            BLKSZ - in_block
        };
        let ghost dev_iter = *dev;
        let mut t: usize = 0;
        while t < n
            invariant
                pos == off + total,
                in_block == pos % 1024,
                n <= 1024 - in_block,
                total + n <= len,
                len == src@.len(),
                t <= n,
                buf@.len() == BLKSZ,
                forall|k: int| 0 <= k < BLKSZ && !(in_block <= k < in_block + t) ==> buf@[k]
                    == dev_iter.blocks@[block_num as int]@[k],
                forall|k: int| 0 <= k < t ==> #[trigger] buf@[in_block + k] == src@[total + k],
            decreases n - t,
        {
            buf[in_block + t] = src[total + t];
            t = t + 1;
        }
        bwrite(dev, block_num, &buf);
        proof {
            lemma_writei_step(
                dev_iter,
                *dev,
                *old(dev),
                ino0,
                off as int,
                len as int,
                total as int,
                n as int,
                block_num as int,
                src@,
            );
        }
        total = total + n;
    }
    if off + len > fsinode.inner.size as usize {
        fsinode.inner.size = (off + len) as u32;
    }
    proof {
        // The recorded size is not part of the block mapping: the content
        // reads the same through the updated record.
        assert forall|bo: int| true implies #[trigger] spec_find_block(*dev, fsinode.inner, bo)
            == spec_find_block(*dev, ino0, bo) by {}
        assert forall|j: int| 0 <= j < len implies #[trigger] content_byte(
            *dev,
            fsinode.inner,
            off + j,
        ) == src@[j] by {
            assert(content_byte(*dev, ino0, off + j) == src@[off + j - off]);
        }
        assert forall|j: int|
            0 <= j < 268 * 1024 && !(off <= j < off + len) && off as int / 1024 <= j / 1024 <= (off
                + len - 1) / 1024 implies content_byte(*dev, fsinode.inner, j) == content_byte(
            *old(dev),
            old(fsinode).inner,
            j,
        ) by {
            assert(content_byte(*dev, ino0, j) == content_byte(*old(dev), ino0, j));
        }
    }
    true
}

/// The stored inode number of directory entry `k`.
pub open spec fn dirent_inum_at(dev: BlockDev, ino: Inode, k: int) -> u16 {
    spec_u16_from_le_bytes(Seq::new(2, |i: int| content_byte(dev, ino, 16 * k + i)))
}

/// The stored name field of directory entry `k`.
pub open spec fn dirent_name_at(dev: BlockDev, ino: Inode, k: int) -> Seq<u8> {
    Seq::new(14, |i: int| content_byte(dev, ino, 16 * k + 2 + i))
}

/// Index of the first NUL byte of `s`, or its length when none exists.
pub open spec fn first_nul(s: Seq<u8>) -> int
    decreases s.len(),
{
    if s.len() == 0 {
        0
    } else if s[0] == 0 {
        0
    } else {
        1 + first_nul(s.drop_first())
    }
}

/// The NUL-terminated prefix of the stored name field equals `name`.
pub open spec fn stored_matches(stored: Seq<u8>, name: Seq<u8>) -> bool {
    name =~= stored.subrange(0, if first_nul(stored) <= stored.len() {
        first_nul(stored)
    } else {
        stored.len() as int
    })
}

/// Directory entry `k` is live and carries the given name.
pub open spec fn entry_match(dev: BlockDev, ino: Inode, k: int, name: Seq<u8>) -> bool {
    &&& dirent_inum_at(dev, ino, k) != 0
    &&& stored_matches(dirent_name_at(dev, ino, k), name)
}

/// A well-formed directory: directory type, a size that is a whole number
/// of entries within the linkable range, intact blocks, every stored name
/// NUL-terminated, and every stored inode number within the table.
pub open spec fn dir_ok(dev: BlockDev, ino: Inode) -> bool {
    &&& ino.typ == T_DIR
    &&& (ino.size as int) % 16 == 0
    &&& ino.size <= 268 * 1024
    &&& blocks_ok(dev, ino, 0, ino.size as int)
    &&& forall|k: int|
        0 <= k < ino.size as int / 16 ==> first_nul(#[trigger] dirent_name_at(dev, ino, k)) < 14
    &&& forall|k: int|
        0 <= k < ino.size as int / 16 ==> 0 <= (#[trigger] dirent_inum_at(dev, ino, k) as int)
            <= INODE_SLOTS
}

/// The position and byte facts of `first_nul`.
pub proof fn lemma_first_nul(s: Seq<u8>)
    ensures
        0 <= first_nul(s) <= s.len(),
        first_nul(s) < s.len() ==> s[first_nul(s)] == 0,
        forall|i: int| 0 <= i < first_nul(s) ==> s[i] != 0,
    decreases s.len(),
{
    if s.len() > 0 && s[0] != 0 {
        lemma_first_nul(s.drop_first());
        assert forall|i: int| 0 <= i < first_nul(s) implies s[i] != 0 by {
            if i > 0 {
                assert(s.drop_first()[i - 1] != 0);
            }
        }
    }
}

/// Looks `name` up in the directory: scans the entries in order and, at
/// the first live entry whose stored name equals `name`, returns that
/// entry's inode, fetched from disk; `None` when no entry matches.
pub fn dirlookup(dev: &BlockDev, sb: &SuperBlock, fsinode: &FsInode, name: &str) -> (r: Option<
    FsInode,
>)
    requires
        dev.wf(),
        sb_ok(*sb, *dev),
        dir_ok(*dev, fsinode.inner),
        name@.len() <= 14,
        name.is_ascii(),
    ensures
        r matches Some(fi) ==> exists|k: int|
            {
                &&& 0 <= k < fsinode.inner.size as int / 16
                &&& #[trigger] entry_match(*dev, fsinode.inner, k, name.spec_bytes())
                &&& forall|k2: int| 0 <= k2 < k ==> !entry_match(*dev, fsinode.inner, k2, name.spec_bytes())
                &&& fi.inum == dirent_inum_at(*dev, fsinode.inner, k) as u32
                &&& 1 <= fi.inum <= INODE_SLOTS
                &&& inode_slot_matches(*dev, *sb, fi.inum as int, fi.inner)
            },
        r is None ==> forall|k: int|
            0 <= k < fsinode.inner.size as int / 16 ==> !entry_match(
                *dev,
                fsinode.inner,
                k,
                name.spec_bytes(),
            ),
{
    let size = fsinode.inner.size as usize;
    let nb = name.as_bytes();
    proof {
        vstd::string::is_ascii_spec_bytes(name);
    }
    let mut off: usize = 0;
    while off < size
        invariant
            dev.wf(),
            sb_ok(*sb, *dev),
            dir_ok(*dev, fsinode.inner),
            size == fsinode.inner.size,
            size % 16 == 0,
            off % 16 == 0,
            off <= size,
            nb@ == name.spec_bytes(),
            nb@.len() <= 14,
            forall|k2: int|
                0 <= k2 < off as int / 16 ==> !entry_match(
                    *dev,
                    fsinode.inner,
                    k2,
                    name.spec_bytes(),
                ),
        decreases size - off,
    {
        let d = read_entry_at(dev, fsinode, off);
        let ghost k = off as int / 16;
        if d.inum != 0 {
            let m = name_field_matches(&d, nb, Ghost(*dev), Ghost(fsinode.inner), Ghost(k));
            if m {
                proof {
                    assert(entry_match(*dev, fsinode.inner, k, name.spec_bytes()));
                }
                let fi = find_inode(dev, sb, d.inum as u32);
                return Some(fi);
            }
        }
        proof {
            assert(!entry_match(*dev, fsinode.inner, k, name.spec_bytes()));
            assert((off + 16) as int / 16 == k + 1) by {
                lemma_same_block(0, 0);
                vstd::arithmetic::div_mod::lemma_fundamental_div_mod_converse(
                    off + 16,
                    16,
                    k + 1,
                    0,
                );
                vstd::arithmetic::div_mod::lemma_fundamental_div_mod(off as int, 16);
            }
        }
        off = off + 16;
    }
    None
}

/// Reads directory entry `off / 16` through the block layer.
fn read_entry_at(dev: &BlockDev, fsinode: &FsInode, off: usize) -> (d: crate::fs::Dirent)
    requires
        dev.wf(),
        dir_ok(*dev, fsinode.inner),
        off % 16 == 0,
        off < fsinode.inner.size,
    ensures
        d.inum == dirent_inum_at(*dev, fsinode.inner, off as int / 16),
        d.name@ == dirent_name_at(*dev, fsinode.inner, off as int / 16),
{
    let ghost k = off as int / 16;
    proof {
        vstd::arithmetic::div_mod::lemma_fundamental_div_mod(off as int, 16);
        lemma_blocks_ok_sub(*dev, fsinode.inner, off as int, 16, fsinode.inner.size as int);
    }
    let mut buf = block_buf();
    buf.truncate(16);
    let ok = readi(dev, fsinode, off, &mut buf);
    proof {
        assert(ok);
        assert(forall|j: int| 0 <= j < 16 ==> buf@[j] == content_byte(*dev, fsinode.inner, off + j));
    }
    let d = crate::fs::read_dirent(buf.as_slice(), 0);
    proof {
        assert(Seq::new(2, |i: int| content_byte(*dev, fsinode.inner, 16 * k + i)) =~= buf@.subrange(
            0,
            2,
        ));
        assert(Seq::new(14, |i: int| content_byte(*dev, fsinode.inner, 16 * k + 2 + i))
            =~= buf@.subrange(2, 16));
        assert(d.name@ =~= dirent_name_at(*dev, fsinode.inner, k));
    }
    d
}

/// Compares a stored name field against the looked-up name bytes: equal
/// exactly when the bytes before the field's NUL are the name.
fn name_field_matches(
    d: &crate::fs::Dirent,
    nb: &[u8],
    Ghost(dev): Ghost<BlockDev>,
    Ghost(ino): Ghost<Inode>,
    Ghost(k): Ghost<int>,
) -> (m: bool)
    requires
        nb@.len() <= 14,
        d.name@ == dirent_name_at(dev, ino, k),
        first_nul(d.name@) < 14,
    ensures
        m == stored_matches(dirent_name_at(dev, ino, k), nb@),
{
    proof {
        lemma_first_nul(d.name@);
    }
    let mut nul: usize = 0;
    while nul < 14 && d.name[nul as usize] != 0
        invariant
            nul <= 14,
            d.name@.len() == 14,
            d.name@ == dirent_name_at(dev, ino, k),
            first_nul(d.name@) < 14,
            forall|i: int| 0 <= i < nul ==> d.name@[i] != 0,
            nul <= first_nul(d.name@),
        decreases 14 - nul,
    {
        proof {
            lemma_first_nul(d.name@);
            assert(nul + 1 <= first_nul(d.name@)) by {
                if first_nul(d.name@) == nul {
                    assert(d.name@[nul as int] == 0);
                }
            }
        }
        nul = nul + 1;
    }
    proof {
        lemma_first_nul(d.name@);
        assert(nul == first_nul(d.name@));
    }
    if nul != nb.len() {
        proof {
            assert(!stored_matches(d.name@, nb@));
        }
        return false;
    }
    let mut i: usize = 0;
    while i < nul
        invariant
            i <= nul,
            nul == first_nul(d.name@) < 14,
            nul == nb@.len(),
            d.name@.len() == 14,
            d.name@ == dirent_name_at(dev, ino, k),
            forall|j: int| 0 <= j < i ==> d.name@[j] == nb@[j],
        decreases nul - i,
    {
        if d.name[i] != nb[i] {
            proof {
                assert(d.name@.subrange(0, first_nul(d.name@))[i as int] != nb@[i as int]);
                assert(!stored_matches(d.name@, nb@));
            }
            return false;
        }
        i = i + 1;
    }
    proof {
        assert(nb@ =~= d.name@.subrange(0, first_nul(d.name@)));
    }
    true
}

/// Links `name` to inode `inum` in the directory: rejected when an entry
/// with that name already exists; otherwise the new entry lands in the
/// first empty slot, or extends the directory by one entry when every
/// slot is live.
pub fn dirlink(
    dev: &mut BlockDev,
    sb: &SuperBlock,
    fsinode: &mut FsInode,
    name: &str,
    inum: u32,
) -> (r: bool)
    requires
        old(dev).wf(),
        sb_ok(*sb, *old(dev)),
        dir_ok(*old(dev), old(fsinode).inner),
        ino_blocks_distinct(*old(dev), old(fsinode).inner),
        blocks_ok(*old(dev), old(fsinode).inner, 0, old(fsinode).inner.size as int + 16),
        old(fsinode).inner.size + 16 <= 268 * 1024,
        name@.len() < 13,
        name.is_ascii(),
        forall|i: int| 0 <= i < name@.len() ==> name.spec_bytes()[i] != 0,
        1 <= inum <= INODE_SLOTS,
    ensures
        final(dev).wf(),
        final(dev).blocks@.len() == old(dev).blocks@.len(),
        r == !(exists|k: int|
            0 <= k < old(fsinode).inner.size as int / 16 && #[trigger] entry_match(
                *old(dev),
                old(fsinode).inner,
                k,
                name.spec_bytes(),
            )),
        !r ==> *final(dev) == *old(dev) && *final(fsinode) == *old(fsinode),
        r ==> exists|w: int|
            {
                let oldsz = old(fsinode).inner.size as int;
                &&& 0 <= w <= oldsz / 16
                &&& #[trigger] entry_match(*final(dev), final(fsinode).inner, w, name.spec_bytes())
                &&& dirent_inum_at(*final(dev), final(fsinode).inner, w) == inum as u16
                &&& final(fsinode).inner == (Inode {
                    size: if w == oldsz / 16 {
                        (oldsz + 16) as u32
                    } else {
                        old(fsinode).inner.size
                    },
                    ..old(fsinode).inner
                })
                &&& final(fsinode).inum == old(fsinode).inum
                &&& forall|k: int|
                    0 <= k < w ==> !entry_match(
                        *final(dev),
                        final(fsinode).inner,
                        k,
                        name.spec_bytes(),
                    )
            },
{
    let hit = dirlookup(dev, sb, fsinode, name);
    if hit.is_some() {
        return false;
    }
    let size = fsinode.inner.size as usize;
    let mut off: usize = 0;
    while off < size
        invariant_except_break
            dev.wf(),
            dir_ok(*dev, fsinode.inner),
            size == fsinode.inner.size,
            size % 16 == 0,
            off % 16 == 0,
            off <= size,
            forall|k: int|
                0 <= k < off as int / 16 ==> dirent_inum_at(*dev, fsinode.inner, k) != 0,
        ensures
            off % 16 == 0,
            off <= size,
            forall|k: int|
                0 <= k < off as int / 16 ==> dirent_inum_at(*dev, fsinode.inner, k) != 0,
        decreases size - off,
    {
        let d = read_entry_at(dev, fsinode, off);
        if d.inum == 0 {
            break ;
        }
        proof {
            vstd::arithmetic::div_mod::lemma_fundamental_div_mod(off as int, 16);
            vstd::arithmetic::div_mod::lemma_fundamental_div_mod_converse(
                off + 16,
                16,
                off as int / 16 + 1,
                0,
            );
        }
        off = off + 16;
    }
    let ghost w = off as int / 16;
    let ghost pre_dev = *dev;
    let ghost pre_ino = fsinode.inner;
    proof {
        vstd::arithmetic::div_mod::lemma_fundamental_div_mod(off as int, 16);
        assert(off == 16 * w);
    }
    let mut d = crate::fs::Dirent { inum: 0, name: [0u8; 14] };
    d.update(inum, name);
    let mut ebuf = block_buf();
    ebuf.truncate(16);
    crate::fs::write_dirent(&mut ebuf, 0, &d);
    proof {
        lemma_blocks_ok_sub(*dev, fsinode.inner, off as int, 16, fsinode.inner.size as int + 16);
    }
    let ok = writei(dev, fsinode, off, &ebuf);
    proof {
        assert(ok);
        lemma_dirlink_effect(
            pre_dev,
            *dev,
            pre_ino,
            fsinode.inner,
            w,
            ebuf@,
            d.inum,
            d.name@,
            name.spec_bytes(),
        );
        assert(fsinode.inner.size == if w == pre_ino.size as int / 16 {
            (pre_ino.size + 16) as u32
        } else {
            pre_ino.size
        }) by {
            if off < size {
                assert(off + 16 <= size);
            } else {
                assert(off == size);
            }
        }
    }
    true
}

/// The effect of writing one serialized directory entry at slot `w`: the
/// slot carries the new name and inode number, and every earlier entry
/// reads exactly as before.
#[verifier::rlimit(100)]
#[verifier::spinoff_prover]
proof fn lemma_dirlink_effect(
    pre: BlockDev,
    post: BlockDev,
    ino0: Inode,
    ino1: Inode,
    w: int,
    ebuf: Seq<u8>,
    dinum: u16,
    dname: Seq<u8>,
    name: Seq<u8>,
)
    requires
        pre.wf(),
        post.wf(),
        0 <= w,
        16 * w <= ino0.size,
        ino0.size + 16 <= 268 * 1024,
        (ino0.size as int) % 16 == 0,
        blocks_ok(pre, ino0, 0, ino0.size as int + 16),
        ino_blocks_distinct(pre, ino0),
        ino1 == (Inode {
            size: if 16 * w + 16 > ino0.size {
                (16 * w + 16) as u32
            } else {
                ino0.size
            },
            ..ino0
        }),
        ebuf.len() == 16,
        crate::fs::dirent_matches(ebuf, 0, dinum, dname),
        dinum != 0,
        name.len() < 13,
        dname.subrange(0, name.len() as int) == name,
        dname[name.len() as int] == 0,
        forall|i: int| 0 <= i < name.len() ==> name[i] != 0,
        post.blocks@.len() == pre.blocks@.len(),
        // writei's effect
        forall|j: int|
            0 <= j < 16 ==> content_byte(post, ino1, 16 * w + j) == ebuf[j],
        forall|b: int|
            0 <= b < pre.blocks@.len() && (forall|bo: int|
                (16 * w) / 1024 <= bo <= (16 * w + 15) / 1024 ==> b != #[trigger] spec_find_block(
                    pre,
                    ino0,
                    bo,
                )) ==> #[trigger] post.blocks@[b] == pre.blocks@[b],
        forall|j: int|
            0 <= j < 268 * 1024 && !(16 * w <= j < 16 * w + 16) && (16 * w) / 1024 <= j / 1024 <= (
            16 * w + 15) / 1024 ==> content_byte(post, ino1, j) == content_byte(pre, ino0, j),
    ensures
        entry_match(post, ino1, w, name),
        dirent_inum_at(post, ino1, w) == dinum,
        forall|k: int|
            0 <= k < w ==> dirent_inum_at(post, ino1, k) == dirent_inum_at(pre, ino0, k)
                && dirent_name_at(post, ino1, k) == dirent_name_at(pre, ino0, k),
        forall|k: int, nm: Seq<u8>|
            0 <= k < w ==> #[trigger] entry_match(post, ino1, k, nm) == entry_match(
                pre,
                ino0,
                k,
                nm,
            ),
{
    // Every byte of an earlier entry reads as before.
    assert forall|j: int| 0 <= j < 16 * w implies content_byte(post, ino1, j) == content_byte(
        pre,
        ino0,
        j,
    ) by {
        lemma_div_mono(0, j, 1024);
        lemma_div_mono(j, 16 * w - 1, 1024);
        lemma_div_mono(j, ino0.size as int + 15, 1024);
        if (16 * w) / 1024 <= j / 1024 {
            assert(content_byte(post, ino1, j) == content_byte(pre, ino0, j));
        } else {
            // an earlier, untouched block
            let b = spec_find_block(pre, ino0, j / 1024);
            assert(0 < b < pre.blocks@.len());
            assert(spec_find_block(post, ino1, j / 1024) == b) by {
                if j / 1024 >= 12 {
                    lemma_div_mono(16 * w, ino0.size as int + 15, 1024);
                    assert(0 < spec_find_block(pre, ino0, (16 * w) / 1024) < pre.blocks@.len());
                    assert(spec_find_block(pre, ino0, (16 * w) / 1024) != ino0.indirect);
                    assert(post.blocks@[ino0.indirect as int] == pre.blocks@[ino0.indirect as int])
                        by {
                        assert forall|bo: int|
                            (16 * w) / 1024 <= bo <= (16 * w + 15) / 1024 implies ino0.indirect
                                as int != spec_find_block(pre, ino0, bo) by {
                            lemma_div_mono(bo * 1024, ino0.size as int + 15, 1024);
                            assert(0 <= bo < 268);
                            assert(spec_find_block(pre, ino0, bo) != ino0.indirect);
                        }
                    }
                }
            }
            assert(post.blocks@[b] == pre.blocks@[b]) by {
                assert forall|bo: int|
                    (16 * w) / 1024 <= bo <= (16 * w + 15) / 1024 implies b
                        != spec_find_block(pre, ino0, bo) by {
                    assert(0 <= j / 1024 < 268);
                    assert(0 <= bo < 268) by {
                        lemma_div_mono(0, 16 * w, 1024);
                        lemma_div_mono(16 * w + 15, ino0.size as int + 15, 1024);
                    }
                    assert(j / 1024 < bo);
                    assert(spec_find_block(pre, ino0, j / 1024) != spec_find_block(pre, ino0, bo));
                }
            }
        }
    }
    assert forall|k: int| 0 <= k < w implies dirent_inum_at(post, ino1, k) == dirent_inum_at(
        pre,
        ino0,
        k,
    ) && dirent_name_at(post, ino1, k) == dirent_name_at(pre, ino0, k) by {
        assert(Seq::new(2, |i: int| content_byte(post, ino1, 16 * k + i)) =~= Seq::new(
            2,
            |i: int| content_byte(pre, ino0, 16 * k + i),
        ));
        assert(Seq::new(14, |i: int| content_byte(post, ino1, 16 * k + 2 + i)) =~= Seq::new(
            14,
            |i: int| content_byte(pre, ino0, 16 * k + 2 + i),
        ));
    }
    assert forall|k: int, nm: Seq<u8>|
        0 <= k < w implies #[trigger] entry_match(post, ino1, k, nm) == entry_match(
        pre,
        ino0,
        k,
        nm,
    ) by {
        assert(dirent_name_at(post, ino1, k) == dirent_name_at(pre, ino0, k));
    }
    // The new slot itself.
    assert(Seq::new(2, |i: int| content_byte(post, ino1, 16 * w + i)) =~= ebuf.subrange(0, 2));
    assert(dirent_inum_at(post, ino1, w) == dinum);
    assert(Seq::new(14, |i: int| content_byte(post, ino1, 16 * w + 2 + i)) =~= ebuf.subrange(
        2,
        16,
    ));
    assert(dirent_name_at(post, ino1, w) == dname);
    lemma_first_nul(dname);
    assert(first_nul(dname) == name.len()) by {
        if first_nul(dname) < name.len() {
            assert(dname[first_nul(dname)] == 0);
            assert(dname.subrange(0, name.len() as int)[first_nul(dname)] != 0);
        }
        if first_nul(dname) > name.len() {
            assert(dname[name.len() as int] != 0);
        }
    }
    assert(name =~= dname.subrange(0, first_nul(dname)));
    assert(stored_matches(dirent_name_at(post, ino1, w), name));
}

/// The path separators and blanks the parser strips.
pub open spec fn is_space_char(c: char) -> bool {
    c == ' ' || c == '\t' || c == '\n' || c == '\r'
}

/// Number of leading blanks of `s`.
pub open spec fn trim_lo(s: Seq<char>) -> int
    decreases s.len(),
{
    if s.len() == 0 {
        0
    } else if is_space_char(s[0]) {
        1 + trim_lo(s.drop_first())
    } else {
        0
    }
}

/// One past the last non-blank of `s`.
pub open spec fn trim_hi(s: Seq<char>) -> int
    decreases s.len(),
{
    if s.len() == 0 {
        0
    } else if is_space_char(s.last()) {
        trim_hi(s.drop_last())
    } else {
        s.len() as int
    }
}

/// `s` with leading and trailing blanks stripped.
pub open spec fn trimmed(s: Seq<char>) -> Seq<char> {
    if trim_lo(s) >= trim_hi(s) {
        Seq::empty()
    } else {
        s.subrange(trim_lo(s), trim_hi(s))
    }
}

/// Index of the first separator of `s`.
pub open spec fn first_slash(s: Seq<char>) -> int
    decreases s.len(),
{
    if s.len() == 0 {
        0
    } else if s[0] == '/' {
        0
    } else {
        1 + first_slash(s.drop_first())
    }
}

/// Facts about `trim_lo`: it points at the first non-blank.
pub proof fn lemma_trim_lo(s: Seq<char>)
    ensures
        0 <= trim_lo(s) <= s.len(),
        forall|i: int| 0 <= i < trim_lo(s) ==> is_space_char(s[i]),
        trim_lo(s) < s.len() ==> !is_space_char(s[trim_lo(s)]),
    decreases s.len(),
{
    if s.len() > 0 && is_space_char(s[0]) {
        lemma_trim_lo(s.drop_first());
        assert forall|i: int| 0 <= i < trim_lo(s) implies is_space_char(s[i]) by {
            if i > 0 {
                assert(is_space_char(s.drop_first()[i - 1]));
            }
        }
    }
}

/// Facts about `trim_hi`: it points one past the last non-blank.
pub proof fn lemma_trim_hi(s: Seq<char>)
    ensures
        0 <= trim_hi(s) <= s.len(),
        forall|i: int| trim_hi(s) <= i < s.len() ==> is_space_char(s[i]),
        trim_hi(s) > 0 ==> !is_space_char(s[trim_hi(s) - 1]),
    decreases s.len(),
{
    if s.len() > 0 && is_space_char(s.last()) {
        lemma_trim_hi(s.drop_last());
        assert forall|i: int| trim_hi(s) <= i < s.len() implies is_space_char(s[i]) by {
            if i < s.len() - 1 {
                assert(is_space_char(s.drop_last()[i]));
            }
        }
    }
}

/// Facts about `first_slash`: it points at the first separator.
pub proof fn lemma_first_slash(s: Seq<char>)
    ensures
        0 <= first_slash(s) <= s.len(),
        forall|i: int| 0 <= i < first_slash(s) ==> s[i] != '/',
        first_slash(s) < s.len() ==> s[first_slash(s)] == '/',
    decreases s.len(),
{
    if s.len() > 0 && s[0] != '/' {
        lemma_first_slash(s.drop_first());
        assert forall|i: int| 0 <= i < first_slash(s) implies s[i] != '/' by {
            if i > 0 {
                assert(s.drop_first()[i - 1] != '/');
            }
        }
    }
}

/// Splits the first component off a path: `None` for the empty path;
/// otherwise the text (blank-stripped) before the first separator, and
/// everything after it — the whole text and an empty rest when no
/// separator occurs.
pub fn parse_path(path: &str) -> (r: Option<(String, String)>)
    ensures
        path@.len() == 0 ==> r is None,
        path@.len() > 0 ==> r is Some,
        r matches Some(ht) ==> {
            let w = trimmed(path@);
            if first_slash(w) < w.len() {
                ht.0@ == w.subrange(0, first_slash(w)) && ht.1@ == w.subrange(
                    first_slash(w) + 1,
                    w.len() as int,
                )
            } else {
                ht.0@ == w && ht.1@ =~= Seq::<char>::empty()
            }
        },
{
    let n = path.unicode_len();
    if n == 0 {
        return None;
    }
    proof {
        lemma_trim_lo(path@);
        lemma_trim_hi(path@);
    }
    let mut lo: usize = 0;
    while lo < n && is_space_exec(path.get_char(lo))
        invariant
            n == path@.len(),
            lo <= n,
            forall|i: int| 0 <= i < lo ==> is_space_char(path@[i]),
            lo <= trim_lo(path@),
        decreases n - lo,
    {
        proof {
            lemma_trim_lo(path@);
            if trim_lo(path@) == lo {
                assert(!is_space_char(path@[lo as int]));
            }
        }
        lo = lo + 1;
    }
    proof {
        lemma_trim_lo(path@);
        assert(lo == trim_lo(path@));
    }
    let mut hi: usize = n;
    while hi > lo && is_space_exec(path.get_char(hi - 1))
        invariant
            n == path@.len(),
            lo <= hi <= n,
            lo == trim_lo(path@),
            forall|i: int| hi <= i < n ==> is_space_char(path@[i]),
            trim_hi(path@) <= hi || trim_hi(path@) <= lo,
        decreases hi,
    {
        proof {
            lemma_trim_hi(path@);
            if trim_hi(path@) == hi {
                assert(!is_space_char(path@[hi - 1]));
            }
        }
        hi = hi - 1;
    }
    proof {
        lemma_trim_hi(path@);
        lemma_trim_lo(path@);
        if hi > lo {
            assert(!is_space_char(path@[hi - 1]));
            assert(hi == trim_hi(path@)) by {
                if trim_hi(path@) < hi {
                    assert(is_space_char(path@[hi - 1]));
                }
                if trim_hi(path@) > hi {
                    assert(is_space_char(path@[trim_hi(path@) - 1]));
                }
            }
        }
    }
    let w = path.substring_char(lo, hi);
    proof {
        if hi > lo {
            assert(w@ == trimmed(path@));
        } else {
            assert(trim_lo(path@) >= trim_hi(path@)) by {
                lemma_trim_hi(path@);
                if trim_hi(path@) > lo {
                    assert(is_space_char(path@[trim_hi(path@) - 1]));
                }
            }
            assert(w@ =~= trimmed(path@));
        }
        lemma_first_slash(w@);
    }
    let wn = hi - lo;
    let mut i: usize = 0;
    while i < wn && w.get_char(i) != '/'
        invariant
            wn == w@.len(),
            i <= wn,
            forall|j: int| 0 <= j < i ==> w@[j] != '/',
            i <= first_slash(w@),
        decreases wn - i,
    {
        proof {
            lemma_first_slash(w@);
            if first_slash(w@) == i {
                assert(w@[i as int] == '/');
            }
        }
        i = i + 1;
    }
    proof {
        lemma_first_slash(w@);
        assert(i == first_slash(w@));
    }
    if i < wn {
        let head = w.substring_char(0, i);
        let tail = w.substring_char(i + 1, wn);
        Some((head.to_owned(), tail.to_owned()))
    } else {
        let empty = w.substring_char(wn, wn);
        proof {
            assert(empty@ =~= Seq::<char>::empty());
            assert(w@.subrange(0, wn as int) =~= w@);
        }
        Some((w.substring_char(0, wn).to_owned(), empty.to_owned()))
    }
}

/// The blank test, executably.
fn is_space_exec(c: char) -> (r: bool)
    ensures
        r == is_space_char(c),
{
    c == ' ' || c == '\t' || c == '\n' || c == '\r'
}

/// Inode allocation exclusivity: a slot holding a record with a nonzero
/// type is not free, so a second `alloc_inode` — which only returns free
/// slots — returns a different number than the one just initialized.
pub proof fn lemma_inode_alloc_exclusive(dev: BlockDev, sb: SuperBlock, r: int, r2: int)
    requires
        exists|ino: Inode|
            #[trigger] inode_slot_matches(dev, sb, r, ino) && ino.typ != 0,
        inode_free_on_disk(dev, sb, r2),
    ensures
        r2 != r,
{
    let ino = choose|ino: Inode| #[trigger] inode_slot_matches(dev, sb, r, ino) && ino.typ != 0;
    if r2 == r {
        assert(ino.typ == spec_u16_from_le_bytes(
            dev.blocks@[spec_iblock(sb, r)]@.subrange(spec_ioff(r), spec_ioff(r) + 2),
        ));
    }
}

/// Directory round trip: after `dirlink` placed `name` in slot `w` with
/// no earlier entry matching, the first matching entry — the one
/// `dirlookup` returns, by its contract — is slot `w` itself, so the
/// lookup yields exactly the linked inode number. A name never linked
/// matches no slot, so `dirlookup` returns nothing for it.
pub proof fn lemma_dir_round_trip(dev: BlockDev, ino: Inode, w: int, name: Seq<u8>, k: int)
    requires
        0 <= w < ino.size as int / 16,
        entry_match(dev, ino, w, name),
        forall|k2: int| 0 <= k2 < w ==> !entry_match(dev, ino, k2, name),
        0 <= k < ino.size as int / 16,
        entry_match(dev, ino, k, name),
        forall|k2: int| 0 <= k2 < k ==> !entry_match(dev, ino, k2, name),
    ensures
        k == w,
        dirent_inum_at(dev, ino, k) == dirent_inum_at(dev, ino, w),
{
    if k < w {
        assert(!entry_match(dev, ino, k, name));
    } else if w < k {
        assert(!entry_match(dev, ino, w, name));
    }
}

/// The blocks of a sub-range of an intact range are intact.
proof fn lemma_blocks_ok_sub(dev: BlockDev, ino: Inode, off: int, n: int, size: int)
    requires
        blocks_ok(dev, ino, 0, size),
        0 <= off,
        n >= 1,
        off + n <= size,
    ensures
        blocks_ok(dev, ino, off, off + n),
    decreases size,
{
    assert forall|bo: int|
        off / 1024 <= bo <= (off + n - 1) / 1024 implies {
        &&& 0 < #[trigger] spec_find_block(dev, ino, bo) < dev.blocks@.len()
        &&& (bo >= 12 ==> 0 < ino.indirect < dev.blocks@.len())
    } by {
        lemma_div_mono(0, off, 1024);
        lemma_div_mono(off + n - 1, size - 1, 1024);
        assert(0 <= bo <= (size - 1) / 1024);
    }
}

/// The smaller of two integers.
pub open spec fn min_int(a: int, b: int) -> int {
    if a < b {
        a
    } else {
        b
    }
}

/// Bytes at offsets `pos` to `pos + t` inside one block share the block
/// and advance the in-block offset by `t`.
pub proof fn lemma_same_block_pub(pos: int, t: int)
    requires
        0 <= pos,
        0 <= t,
        pos % 1024 + t < 1024,
    ensures
        (pos + t) / 1024 == pos / 1024,
        (pos + t) % 1024 == pos % 1024 + t,
{
    lemma_same_block(pos, t);
}

/// The private form of the same fact, used throughout this module.
proof fn lemma_same_block(pos: int, t: int)
    requires
        0 <= pos,
        0 <= t,
        pos % 1024 + t < 1024,
    ensures
        (pos + t) / 1024 == pos / 1024,
        (pos + t) % 1024 == pos % 1024 + t,
{
    vstd::arithmetic::div_mod::lemma_fundamental_div_mod(pos, 1024);
    vstd::arithmetic::div_mod::lemma_fundamental_div_mod_converse(
        pos + t,
        1024,
        pos / 1024,
        pos % 1024 + t,
    );
}

/// One block-sized step of `writei` extends the written prefix and keeps
/// every untouched byte: the rewritten block carries the new bytes at its
/// written span and the old bytes elsewhere, and no other block moves.
#[verifier::rlimit(60)]
#[verifier::spinoff_prover]
proof fn lemma_writei_step(
    pre: BlockDev,
    post: BlockDev,
    dev0: BlockDev,
    ino: Inode,
    off: int,
    len: int,
    total: int,
    n: int,
    bnum: int,
    src: Seq<u8>,
)
    requires
        pre.wf(),
        post.wf(),
        src.len() == len,
        0 <= off,
        0 <= total,
        total + n <= len,
        off + len <= 268 * 1024,
        n <= 1024 - (off + total) % 1024,
        1 <= n,
        post.blocks@.len() == pre.blocks@.len() == dev0.blocks@.len(),
        blocks_ok(dev0, ino, off, off + len),
        ino_blocks_distinct(dev0, ino),
        bnum == spec_find_block(dev0, ino, (off + total) / 1024),
        0 < bnum < pre.blocks@.len(),
        // the bytes written into the block
        post.blocks@[bnum]@.len() == 1024,
        forall|k: int|
            0 <= k < 1024 && !((off + total) % 1024 <= k < (off + total) % 1024 + n)
                ==> post.blocks@[bnum]@[k] == pre.blocks@[bnum]@[k],
        forall|k: int|
            0 <= k < n ==> #[trigger] post.blocks@[bnum]@[(off + total) % 1024 + k] == src[total
                + k],
        forall|b: int|
            0 <= b < pre.blocks@.len() && b != bnum ==> post.blocks@[b] == pre.blocks@[b],
        // the state reached so far
        forall|bo: int|
            off / 1024 <= bo <= (off + len - 1) / 1024 ==> #[trigger] spec_find_block(pre, ino, bo)
                == spec_find_block(dev0, ino, bo),
        forall|j: int|
            off <= j < off + total ==> #[trigger] content_byte(pre, ino, j) == src[j - off],
        forall|b: int|
            0 <= b < dev0.blocks@.len() && (forall|bo: int|
                off / 1024 <= bo <= (off + len - 1) / 1024 ==> b != #[trigger] spec_find_block(
                    dev0,
                    ino,
                    bo,
                )) ==> #[trigger] pre.blocks@[b] == dev0.blocks@[b],
        forall|j: int|
            0 <= j < 268 * 1024 && !(off <= j < off + total) && off / 1024 <= j / 1024 <= (off + len
                - 1) / 1024 ==> content_byte(pre, ino, j) == content_byte(dev0, ino, j),
    ensures
        forall|bo: int|
            off / 1024 <= bo <= (off + len - 1) / 1024 ==> #[trigger] spec_find_block(
                post,
                ino,
                bo,
            ) == spec_find_block(dev0, ino, bo),
        forall|j: int|
            off <= j < off + total + n ==> #[trigger] content_byte(post, ino, j) == src[j - off],
        forall|b: int|
            0 <= b < dev0.blocks@.len() && (forall|bo: int|
                off / 1024 <= bo <= (off + len - 1) / 1024 ==> b != #[trigger] spec_find_block(
                    dev0,
                    ino,
                    bo,
                )) ==> #[trigger] post.blocks@[b] == dev0.blocks@[b],
        forall|j: int|
            0 <= j < 268 * 1024 && !(off <= j < off + total + n) && off / 1024 <= j / 1024 <= (off
                + len - 1) / 1024 ==> content_byte(post, ino, j) == content_byte(dev0, ino, j),
{
    let pos = off + total;
    let bo0 = pos / 1024;
    vstd::arithmetic::div_mod::lemma_fundamental_div_mod(pos, 1024);
    assert(off / 1024 <= bo0 <= (off + len - 1) / 1024) by {
        lemma_div_mono(off, pos, 1024);
        lemma_div_mono(pos, off + len - 1, 1024);
    }
    // The indirect block is not the rewritten data block, so every link
    // stays put.
    assert forall|bo: int|
        off / 1024 <= bo <= (off + len - 1) / 1024 implies #[trigger] spec_find_block(
        post,
        ino,
        bo,
    ) == spec_find_block(dev0, ino, bo) by {
        if bo >= 12 {
            assert(0 < spec_find_block(dev0, ino, bo) < dev0.blocks@.len());
            assert(0 < ino.indirect < dev0.blocks@.len());
            assert(0 <= bo0 < 268) by {
                lemma_div_mono(0, pos, 1024);
                lemma_div_mono(pos, 268 * 1024 - 1, 1024);
            }
            assert(spec_find_block(dev0, ino, bo0) != ino.indirect);
            assert(ino.indirect as int != bnum);
            assert(post.blocks@[ino.indirect as int] == pre.blocks@[ino.indirect as int]);
        }
    }
    // Bytes of the new span.
    assert forall|j: int| off <= j < off + total + n implies #[trigger] content_byte(post, ino, j)
        == src[j - off] by {
        let bo = j / 1024;
        lemma_div_mono(off, j, 1024);
        lemma_div_mono(j, off + len - 1, 1024);
        assert(spec_find_block(post, ino, bo) == spec_find_block(dev0, ino, bo));
        if j < pos {
            // previously written bytes: their block is either the block
            // just rewritten (outside the new span) or untouched
            let b = spec_find_block(dev0, ino, bo);
            if b == bnum {
                assert(bo == bo0) by {
                    if bo < bo0 {
                        assert(spec_find_block(dev0, ino, bo) != spec_find_block(dev0, ino, bo0));
                    } else if bo > bo0 {
                        assert(spec_find_block(dev0, ino, bo0) != spec_find_block(dev0, ino, bo));
                    }
                }
                assert(j % 1024 < pos % 1024) by {
                    vstd::arithmetic::div_mod::lemma_fundamental_div_mod(j, 1024);
                }
                assert(content_byte(post, ino, j) == post.blocks@[bnum]@[j % 1024]);
                assert(post.blocks@[bnum]@[j % 1024] == pre.blocks@[bnum]@[j % 1024]);
                assert(content_byte(pre, ino, j) == src[j - off]);
            } else {
                assert(post.blocks@[b] == pre.blocks@[b]);
                assert(content_byte(pre, ino, j) == src[j - off]);
            }
        } else {
            // the bytes this step wrote
            lemma_same_block(pos, j - pos);
            assert(bo == bo0);
            assert(content_byte(post, ino, j) == post.blocks@[bnum]@[pos % 1024 + (j - pos)]);
            assert(post.blocks@[bnum]@[pos % 1024 + (j - pos)] == src[total + (j - pos)]);
        }
    }
    // Untouched blocks stay untouched.
    assert forall|b: int|
        0 <= b < dev0.blocks@.len() && (forall|bo: int|
            off / 1024 <= bo <= (off + len - 1) / 1024 ==> b != #[trigger] spec_find_block(
                dev0,
                ino,
                bo,
            )) implies #[trigger] post.blocks@[b] == dev0.blocks@[b] by {
        assert(b != bnum);
        assert(post.blocks@[b] == pre.blocks@[b]);
    }
    // Untouched bytes of the touched blocks stay readable as before.
    assert forall|j: int|
        0 <= j < 268 * 1024 && !(off <= j < off + total + n) && off / 1024 <= j / 1024 <= (off + len
            - 1) / 1024 implies content_byte(post, ino, j) == content_byte(dev0, ino, j) by {
        let bo = j / 1024;
        assert(spec_find_block(post, ino, bo) == spec_find_block(dev0, ino, bo));
        assert(spec_find_block(pre, ino, bo) == spec_find_block(dev0, ino, bo));
        let b = spec_find_block(dev0, ino, bo);
        if b == bnum {
            assert(bo == bo0) by {
                if bo < bo0 {
                    assert(spec_find_block(dev0, ino, bo) != spec_find_block(dev0, ino, bo0));
                } else if bo > bo0 {
                    assert(spec_find_block(dev0, ino, bo0) != spec_find_block(dev0, ino, bo));
                }
            }
            assert(!(pos % 1024 <= j % 1024 < pos % 1024 + n)) by {
                vstd::arithmetic::div_mod::lemma_fundamental_div_mod(j, 1024);
            }
            assert(content_byte(post, ino, j) == post.blocks@[bnum]@[j % 1024]);
            assert(post.blocks@[bnum]@[j % 1024] == pre.blocks@[bnum]@[j % 1024]);
            assert(content_byte(pre, ino, j) == content_byte(dev0, ino, j));
        } else {
            assert(post.blocks@[b] == pre.blocks@[b]);
        }
    }
}

/// Division by a positive constant is monotone.
proof fn lemma_div_mono(a: int, b: int, d: int)
    requires
        a <= b,
        d > 0,
    ensures
        a / d <= b / d,
{
    vstd::arithmetic::div_mod::lemma_div_is_ordered(a, b, d);
}

/// A pair of free blocks gives at least one free block.
proof fn lemma_pair_gives_free(dev: BlockDev, sb: SuperBlock)
    requires
        exists|b1: int, b2: int|
            0 < b1 < b2 < BITMAP_BLKSZ * 8192 && #[trigger] block_free(dev, sb, b1)
                && #[trigger] block_free(dev, sb, b2) && b2 < dev.blocks@.len(),
    ensures
        exists|bn: int| 0 <= bn < BITMAP_BLKSZ * 8192 && block_free(dev, sb, bn),
{
    let (w1, w2) = choose|b1: int, b2: int|
        0 < b1 < b2 < BITMAP_BLKSZ * 8192 && #[trigger] block_free(dev, sb, b1)
            && #[trigger] block_free(dev, sb, b2) && b2 < dev.blocks@.len();
    assert(0 <= w1 < BITMAP_BLKSZ * 8192 && block_free(dev, sb, w1));
}

} // verus!
