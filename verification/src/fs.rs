//! The on-disk filesystem format: superblock, inodes, directory entries,
//! and the little-endian byte layout they occupy inside 1024-byte blocks.
//!
//! Block 0 is the (unused) boot block and block 1 holds the superblock;
//! then come the log, inode-table and free-bitmap regions, and the rest
//! are data blocks. Inode number 0 is never used; a free inode has type 0.

use vstd::prelude::*;

use vstd::bytes::{spec_u16_from_le_bytes, spec_u32_from_le_bytes, u16_from_le_bytes,
    u16_to_le_bytes, u32_from_le_bytes, u32_to_le_bytes};
use vstd::string::{StringSliceAdditionalSpecFns, StrSliceExecFns};

verus! {

/// Block size in bytes.
pub const BLKSZ: usize = 1024;

/// Most blocks any filesystem operation writes.
pub const MAXOPBLOCKS: usize = 10;

/// Bytes of one on-disk inode record.
pub const INODE_SIZE: usize = 64;

/// Inode records per block.
pub const INODES_PER_BLK: usize = BLKSZ / INODE_SIZE;

/// Bitmap bits per block.
pub const BIT_PER_BLK: usize = BLKSZ * 8;

/// Number of inodes in the table.
pub const NINODES: u32 = 200;

/// Size of the filesystem image in blocks.
pub const FS_BLKSZ: u32 = 2000;

/// Size of the (reserved) log region in blocks.
pub const LOG_BLKSZ: u32 = 30;

/// Size of the inode table in blocks.
pub const INODE_BLKSZ: u32 = (NINODES + 15) / 16;

/// Size of the free bitmap in blocks.
pub const BITMAP_BLKSZ: u32 = (FS_BLKSZ + 8191) / 8192;

/// Inode number of the root directory.
pub const ROOTINO: u32 = 1;

/// The superblock's magic number.
pub const MAGIC: u32 = 0x52696B6F;

/// Directory file type.
pub const T_DIR: u16 = 1;

/// Regular file type.
pub const T_FILE: u16 = 2;

/// Device file type.
pub const T_DEVICE: u16 = 3;

/// Directly linked blocks per inode.
pub const NDIRECT: usize = 12;

/// Block pointers held by the single indirect block.
pub const NINDIRECT: usize = BLKSZ / 4;

/// Largest number of blocks one file can link.
pub const FILE_MAX_LINK: usize = NDIRECT + NINDIRECT;

/// Bytes of a directory entry: a 2-byte inode number and a fixed-size,
/// NUL-terminated name.
pub const DIRENT_SIZE: usize = 16;

/// Usable name bytes of a directory entry.
pub const DIRSIZ: usize = 14;

/// The fixed-location description of the filesystem's layout.
#[derive(Debug, Clone, Copy, PartialEq, Eq, Structural)]
pub struct SuperBlock {
    pub magic: u32,
    pub fs_blksz: u32,
    pub nblocks: u32,
    pub ninodes: u32,
    pub nlog: u32,
    pub logstart: u32,
    pub inodestart: u32,
    pub bmapstart: u32,
}

/// One on-disk inode record.
#[derive(Debug, Clone, Copy)]
pub struct Inode {
    pub typ: u16,
    pub major: u16,
    pub minor: u16,
    pub nlink: u16,
    pub size: u32,
    pub directs: [u32; 12],
    pub indirect: u32,
}

impl Inode {
    /// Initializes the record for a fresh allocation: the given identity,
    /// no content, no block pointers.
    pub fn init(&mut self, typ: u16, major: u16, minor: u16, nlink: u16)
        ensures
            final(self).typ == typ,
            final(self).major == major,
            final(self).minor == minor,
            final(self).nlink == nlink,
            final(self).size == 0,
            forall|j: int| 0 <= j < 12 ==> final(self).directs@[j] == 0,
            final(self).indirect == 0,
    {
        *self = Inode { typ, major, minor, nlink, size: 0, directs: [0u32; 12], indirect: 0 };
    }

    /// Marks the record free: type 0 means an unused inode.
    pub fn set_free(&mut self)
        ensures
            *final(self) == (Inode { typ: 0, ..*old(self) }),
    {
        self.typ = 0;
    }

    /// The record is free.
    pub fn is_free(&self) -> (r: bool)
        ensures
            r == (self.typ == 0),
    {
        self.typ == 0
    }
}

/// One directory entry.
#[derive(Debug, Clone, Copy)]
pub struct Dirent {
    pub inum: u16,
    pub name: [u8; 14],
}

impl Dirent {
    /// Points the entry at inode `inum` under the given name, which is
    /// stored NUL-terminated in the fixed-size name field.
    pub fn update(&mut self, inum: u32, s: &str)
        requires
            s@.len() < 13,
            s.is_ascii(),
        ensures
            final(self).inum == inum as u16,
            final(self).name@.subrange(0, s@.len() as int) == s.spec_bytes(),
            final(self).name@[s@.len() as int] == 0,
    {
        let slen = s.unicode_len();
        self.inum = inum as u16;
        let bytes = s.as_bytes();
        proof {
            vstd::string::is_ascii_spec_bytes(s);
        }
        let mut i: usize = 0;
        while i < slen
            invariant
                slen == s@.len() < 13,
                bytes@ == s.spec_bytes(),
                bytes@.len() == slen,
                i <= slen,
                self.name@.len() == 14,
                forall|j: int| 0 <= j < i ==> self.name@[j] == s.spec_bytes()[j],
                self.inum == inum as u16,
            decreases slen - i,
        {
            self.name[i] = bytes[i];
            i = i + 1;
        }
        self.name[slen] = 0;
        proof {
            assert(self.name@.subrange(0, s@.len() as int) =~= s.spec_bytes());
        }
    }
}

/// The block of the inode table that holds inode `inum`.
pub fn iblock(sb: &SuperBlock, inum: u32) -> (r: u32)
    requires
        inum != 0,
        (inum - 1) / 16 + sb.inodestart <= u32::MAX,
    ensures
        r == (inum - 1) as u32 / 16 + sb.inodestart,
{
    (inum - 1) / 16 + sb.inodestart
}

/// The bitmap block that tracks block `block_no`.
pub fn block_bmap(sb: &SuperBlock, block_no: u32) -> (r: u32)
    requires
        block_no / 8192 + sb.bmapstart <= u32::MAX,
    ensures
        r == block_no / 8192 + sb.bmapstart,
{
    block_no / 8192 + sb.bmapstart
}

/// The inode record stored at byte offset `off` of `s` has exactly these
/// fields.
pub open spec fn inode_matches(s: Seq<u8>, off: int, ino: Inode) -> bool {
    &&& ino.typ == spec_u16_from_le_bytes(s.subrange(off, off + 2))
    &&& ino.major == spec_u16_from_le_bytes(s.subrange(off + 2, off + 4))
    &&& ino.minor == spec_u16_from_le_bytes(s.subrange(off + 4, off + 6))
    &&& ino.nlink == spec_u16_from_le_bytes(s.subrange(off + 6, off + 8))
    &&& ino.size == spec_u32_from_le_bytes(s.subrange(off + 8, off + 12))
    &&& forall|j: int|
        0 <= j < 12 ==> ino.directs@[j] == spec_u32_from_le_bytes(
            s.subrange(off + 12 + 4 * j, off + 16 + 4 * j),
        )
    &&& ino.indirect == spec_u32_from_le_bytes(s.subrange(off + 60, off + 64))
}

/// Reads the inode record at byte offset `off` of a block's bytes.
pub fn read_inode(buf: &[u8], off: usize) -> (r: Inode)
    requires
        off + 64 <= buf@.len(),
        buf@.len() <= usize::MAX - 64,
    ensures
        inode_matches(buf@, off as int, r),
{
    let typ = read_u16(buf, off);
    let major = read_u16(buf, off + 2);
    let minor = read_u16(buf, off + 4);
    let nlink = read_u16(buf, off + 6);
    let size = read_u32(buf, off + 8);
    let mut directs: [u32; 12] = [0u32; 12];
    let mut j: usize = 0;
    while j < 12
        invariant
            off + 64 <= buf@.len(),
            buf@.len() <= usize::MAX - 64,
            j <= 12,
            forall|k: int|
                0 <= k < j ==> directs@[k] == spec_u32_from_le_bytes(
                    buf@.subrange(off + 12 + 4 * k, off + 16 + 4 * k),
                ),
        decreases 12 - j,
    {
        directs[j] = read_u32(buf, off + 12 + 4 * j);
        j = j + 1;
    }
    let indirect = read_u32(buf, off + 60);
    Inode { typ, major, minor, nlink, size, directs, indirect }
}

/// Writes the inode record at byte offset `off` of a block's bytes,
/// leaving every byte outside the record unchanged.
pub fn write_inode(buf: &mut Vec<u8>, off: usize, ino: &Inode)
    requires
        off + 64 <= old(buf)@.len(),
        old(buf)@.len() <= usize::MAX - 64,
    ensures
        final(buf)@.len() == old(buf)@.len(),
        inode_matches(final(buf)@, off as int, *ino),
        forall|k: int| 0 <= k < old(buf)@.len() && !(off <= k < off + 64) ==> final(buf)@[k] == old(
            buf,
        )@[k],
{
    write_u16(buf, off, ino.typ);
    let ghost g0 = buf@;
    write_u16(buf, off + 2, ino.major);
    let ghost g1 = buf@;
    write_u16(buf, off + 4, ino.minor);
    let ghost g2 = buf@;
    write_u16(buf, off + 6, ino.nlink);
    let ghost g3 = buf@;
    write_u32(buf, off + 8, ino.size);
    let ghost pre = buf@;
    let mut j: usize = 0;
    while j < 12
        invariant
            off + 64 <= buf@.len(),
            buf@.len() <= usize::MAX - 64,
            buf@.len() == pre.len(),
            j <= 12,
            forall|k: int| 0 <= k < buf@.len() && !(off + 12 <= k < off + 12 + 4 * j) ==> buf@[k]
                == pre[k],
            forall|k: int|
                0 <= k < j ==> ino.directs@[k] == spec_u32_from_le_bytes(
                    buf@.subrange(off + 12 + 4 * k, off + 16 + 4 * k),
                ),
        decreases 12 - j,
    {
        let ghost mid = buf@;
        write_u32(buf, off + 12 + 4 * j, ino.directs[j]);
        proof {
            assert forall|k: int|
                0 <= k < j implies ino.directs@[k] == spec_u32_from_le_bytes(
                buf@.subrange(off + 12 + 4 * k, off + 16 + 4 * k),
            ) by {
                assert(buf@.subrange(off + 12 + 4 * k, off + 16 + 4 * k) =~= mid.subrange(
                    off + 12 + 4 * k,
                    off + 16 + 4 * k,
                ));
            }
        }
        j = j + 1;
    }
    let ghost mid2 = buf@;
    write_u32(buf, off + 60, ino.indirect);
    proof {
        assert forall|k: int|
            0 <= k < 12 implies ino.directs@[k] == spec_u32_from_le_bytes(
            final(buf)@.subrange(off + 12 + 4 * k, off + 16 + 4 * k),
        ) by {
            assert(buf@.subrange(off + 12 + 4 * k, off + 16 + 4 * k) =~= mid2.subrange(
                off + 12 + 4 * k,
                off + 16 + 4 * k,
            ));
        }
        assert(buf@.subrange(off as int, off + 2) =~= g0.subrange(off as int, off + 2));
        assert(buf@.subrange(off + 2, off + 4) =~= g1.subrange(off + 2, off + 4));
        assert(buf@.subrange(off + 4, off + 6) =~= g2.subrange(off + 4, off + 6));
        assert(buf@.subrange(off + 6, off + 8) =~= g3.subrange(off + 6, off + 8));
        assert(buf@.subrange(off + 8, off + 12) =~= pre.subrange(off + 8, off + 12));
    }
}

/// The directory entry stored at byte offset `off` of the directory's
/// content has this inode number and name field.
pub open spec fn dirent_matches(s: Seq<u8>, off: int, inum: u16, name: Seq<u8>) -> bool {
    &&& inum == spec_u16_from_le_bytes(s.subrange(off, off + 2))
    &&& name =~= s.subrange(off + 2, off + 16)
}

/// Reads the directory entry at byte offset `off` of a buffer.
pub fn read_dirent(buf: &[u8], off: usize) -> (r: Dirent)
    requires
        off + 16 <= buf@.len(),
        buf@.len() <= usize::MAX,
    ensures
        dirent_matches(buf@, off as int, r.inum, r.name@),
{
    let inum = read_u16(buf, off);
    let mut name: [u8; 14] = [0u8; 14];
    let mut j: usize = 0;
    while j < 14
        invariant
            off + 16 <= buf@.len(),
            buf@.len() <= usize::MAX,
            j <= 14,
            forall|k: int| 0 <= k < j ==> name@[k] == buf@[off + 2 + k],
        decreases 14 - j,
    {
        name[j] = buf[off + 2 + j];
        j = j + 1;
    }
    proof {
        assert(name@ =~= buf@.subrange(off + 2, off + 16));
    }
    Dirent { inum, name }
}

/// Writes the directory entry at byte offset `off` of a buffer, leaving
/// every byte outside the entry unchanged.
pub fn write_dirent(buf: &mut Vec<u8>, off: usize, d: &Dirent)
    requires
        off + 16 <= old(buf)@.len(),
        old(buf)@.len() <= usize::MAX - 16,
    ensures
        final(buf)@.len() == old(buf)@.len(),
        dirent_matches(final(buf)@, off as int, d.inum, d.name@),
        forall|k: int| 0 <= k < old(buf)@.len() && !(off <= k < off + 16) ==> final(buf)@[k] == old(
            buf,
        )@[k],
{
    write_u16(buf, off, d.inum);
    let ghost mid = buf@;
    let mut j: usize = 0;
    while j < 14
        invariant
            off + 16 <= buf@.len(),
            buf@.len() <= usize::MAX,
            buf@.len() == mid.len(),
            j <= 14,
            forall|k: int| 0 <= k < buf@.len() && !(off + 2 <= k < off + 2 + j) ==> buf@[k]
                == mid[k],
            forall|k: int| 0 <= k < j ==> buf@[off + 2 + k] == d.name@[k],
        decreases 14 - j,
    {
        buf[off + 2 + j] = d.name[j];
        j = j + 1;
    }
    proof {
        assert(d.name@ =~= final(buf)@.subrange(off + 2, off + 16));
        assert(final(buf)@.subrange(off as int, off + 2) =~= mid.subrange(off as int, off + 2));
    }
}

/// The superblock stored at the start of `s` has exactly these fields.
pub open spec fn superblock_matches(s: Seq<u8>, sb: SuperBlock) -> bool {
    &&& sb.magic == spec_u32_from_le_bytes(s.subrange(0, 4))
    &&& sb.fs_blksz == spec_u32_from_le_bytes(s.subrange(4, 8))
    &&& sb.nblocks == spec_u32_from_le_bytes(s.subrange(8, 12))
    &&& sb.ninodes == spec_u32_from_le_bytes(s.subrange(12, 16))
    &&& sb.nlog == spec_u32_from_le_bytes(s.subrange(16, 20))
    &&& sb.logstart == spec_u32_from_le_bytes(s.subrange(20, 24))
    &&& sb.inodestart == spec_u32_from_le_bytes(s.subrange(24, 28))
    &&& sb.bmapstart == spec_u32_from_le_bytes(s.subrange(28, 32))
}

/// Reads the superblock from the front of a block's bytes.
pub fn read_superblock(buf: &[u8]) -> (r: SuperBlock)
    requires
        32 <= buf@.len() <= usize::MAX,
    ensures
        superblock_matches(buf@, r),
{
    SuperBlock {
        magic: read_u32(buf, 0),
        fs_blksz: read_u32(buf, 4),
        nblocks: read_u32(buf, 8),
        ninodes: read_u32(buf, 12),
        nlog: read_u32(buf, 16),
        logstart: read_u32(buf, 20),
        inodestart: read_u32(buf, 24),
        bmapstart: read_u32(buf, 28),
    }
}

/// Writes the superblock to the front of a block's bytes.
pub fn write_superblock(buf: &mut Vec<u8>, sb: &SuperBlock)
    requires
        old(buf)@.len() >= 32,
        old(buf)@.len() <= usize::MAX - 64,
    ensures
        final(buf)@.len() == old(buf)@.len(),
        superblock_matches(final(buf)@, *sb),
        forall|k: int| 32 <= k < old(buf)@.len() ==> final(buf)@[k] == old(buf)@[k],
{
    write_u32(buf, 0, sb.magic);
    let ghost g0 = buf@;
    write_u32(buf, 4, sb.fs_blksz);
    let ghost g1 = buf@;
    write_u32(buf, 8, sb.nblocks);
    let ghost g2 = buf@;
    write_u32(buf, 12, sb.ninodes);
    let ghost g3 = buf@;
    write_u32(buf, 16, sb.nlog);
    let ghost g4 = buf@;
    write_u32(buf, 20, sb.logstart);
    let ghost g5 = buf@;
    write_u32(buf, 24, sb.inodestart);
    let ghost g6 = buf@;
    write_u32(buf, 28, sb.bmapstart);
    proof {
        assert(buf@.subrange(0, 4) =~= g0.subrange(0, 4));
        assert(buf@.subrange(4, 8) =~= g1.subrange(4, 8));
        assert(buf@.subrange(8, 12) =~= g2.subrange(8, 12));
        assert(buf@.subrange(12, 16) =~= g3.subrange(12, 16));
        assert(buf@.subrange(16, 20) =~= g4.subrange(16, 20));
        assert(buf@.subrange(20, 24) =~= g5.subrange(20, 24));
        assert(buf@.subrange(24, 28) =~= g6.subrange(24, 28));
    }
}

/// Reads a little-endian `u16` at byte offset `off`.
pub fn read_u16(buf: &[u8], off: usize) -> (r: u16)
    requires
        off + 2 <= buf@.len(),
        buf@.len() <= usize::MAX,
    ensures
        r == spec_u16_from_le_bytes(buf@.subrange(off as int, off + 2)),
{
    let pair: [u8; 2] = [buf[off], buf[off + 1]];
    proof {
        assert(pair@ =~= buf@.subrange(off as int, off + 2));
    }
    u16_from_le_bytes(pair.as_slice())
}

/// Reads a little-endian `u32` at byte offset `off`.
pub fn read_u32(buf: &[u8], off: usize) -> (r: u32)
    requires
        off + 4 <= buf@.len(),
        buf@.len() <= usize::MAX,
    ensures
        r == spec_u32_from_le_bytes(buf@.subrange(off as int, off + 4)),
{
    let quad: [u8; 4] = [buf[off], buf[off + 1], buf[off + 2], buf[off + 3]];
    proof {
        assert(quad@ =~= buf@.subrange(off as int, off + 4));
    }
    u32_from_le_bytes(quad.as_slice())
}

/// Writes a little-endian `u16` at byte offset `off`, leaving the rest
/// of the buffer unchanged.
pub fn write_u16(buf: &mut Vec<u8>, off: usize, v: u16)
    requires
        off + 2 <= old(buf)@.len(),
        old(buf)@.len() <= usize::MAX,
    ensures
        final(buf)@.len() == old(buf)@.len(),
        spec_u16_from_le_bytes(final(buf)@.subrange(off as int, off + 2)) == v,
        forall|k: int| 0 <= k < old(buf)@.len() && !(off <= k < off + 2) ==> final(buf)@[k] == old(
            buf,
        )@[k],
{
    let bytes = u16_to_le_bytes(v);
    buf[off] = bytes[0];
    buf[off + 1] = bytes[1];
    proof {
        vstd::bytes::lemma_auto_spec_u16_to_from_le_bytes();
        assert(final(buf)@.subrange(off as int, off + 2) =~= vstd::bytes::spec_u16_to_le_bytes(v));
    }
}

/// Writes a little-endian `u32` at byte offset `off`, leaving the rest
/// of the buffer unchanged.
pub fn write_u32(buf: &mut Vec<u8>, off: usize, v: u32)
    requires
        off + 4 <= old(buf)@.len(),
        old(buf)@.len() <= usize::MAX,
    ensures
        final(buf)@.len() == old(buf)@.len(),
        spec_u32_from_le_bytes(final(buf)@.subrange(off as int, off + 4)) == v,
        forall|k: int| 0 <= k < old(buf)@.len() && !(off <= k < off + 4) ==> final(buf)@[k] == old(
            buf,
        )@[k],
{
    let bytes = u32_to_le_bytes(v);
    buf[off] = bytes[0];
    buf[off + 1] = bytes[1];
    buf[off + 2] = bytes[2];
    buf[off + 3] = bytes[3];
    proof {
        vstd::bytes::lemma_auto_spec_u32_to_from_le_bytes();
        assert(final(buf)@.subrange(off as int, off + 4) =~= vstd::bytes::spec_u32_to_le_bytes(v));
    }
}

} // verus!
