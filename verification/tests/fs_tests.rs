//! Filesystem behaviour: record codecs, allocation exclusivity, block
//! reads and writes, and directory round trips.

use rvos::bio::{bread, bwrite, BlockDev};
use rvos::fs::{iblock, block_bmap, read_dirent, read_inode, read_superblock, write_dirent,
    write_inode, Dirent, Inode, SuperBlock, BLKSZ, MAGIC, T_DIR, T_FILE};
use rvos::fsops::{alloc_block, alloc_inode, block_buf, dirlink, dirlookup, find_block,
    find_or_alloc_block, find_inode, free_inode, init, parse_path, readi, writei, FsInode};
use rvos::mkfs::{create_dent, iappend, rinode, winode};
use rvos::syscall::proc::path_to_parent_file;
use rvos::syscall::types::{MAJOR, MINOR};
use rvos::utils::cstr::buf2cstr;

fn test_superblock() -> SuperBlock {
    SuperBlock {
        magic: MAGIC,
        fs_blksz: 64,
        nblocks: 48,
        ninodes: 200,
        nlog: 0,
        logstart: 2,
        inodestart: 2,
        bmapstart: 15,
    }
}

/// A small image: superblock in block 1, inode table in blocks 2..15,
/// bitmap in block 15, data from block 16.
fn test_image() -> (BlockDev, SuperBlock) {
    let mut dev = BlockDev::new(64);
    let sb = test_superblock();
    let mut buf = block_buf();
    rvos::fs::write_superblock(&mut buf, &sb);
    bwrite(&mut dev, 1, &buf);
    // mark the metadata blocks used in the bitmap: blocks 0..16
    let mut bitmap = block_buf();
    for i in 0..16 {
        bitmap[i / 8] |= 1 << (i % 8);
    }
    bwrite(&mut dev, 15, &bitmap);
    (dev, sb)
}

#[test]
fn superblock_codec_round_trip() {
    let (dev, sb) = test_image();
    let read = init(&dev);
    assert_eq!(read, sb);
    assert_eq!(read.magic, 0x52696B6F);
}

#[test]
fn inode_codec_round_trip() {
    let mut buf = block_buf();
    let mut ino = Inode {
        typ: T_FILE,
        major: 3,
        minor: 7,
        nlink: 2,
        size: 12345,
        directs: [9; 12],
        indirect: 77,
    };
    ino.directs[5] = 1234;
    write_inode(&mut buf, 128, &ino);
    let back = read_inode(&buf, 128);
    assert_eq!(back.typ, T_FILE);
    assert_eq!(back.major, 3);
    assert_eq!(back.minor, 7);
    assert_eq!(back.nlink, 2);
    assert_eq!(back.size, 12345);
    assert_eq!(back.directs, ino.directs);
    assert_eq!(back.indirect, 77);
}

#[test]
fn dirent_codec_round_trip() {
    let mut buf = block_buf();
    let mut d = Dirent { inum: 0, name: [0; 14] };
    d.update(42, "console");
    assert_eq!(d.inum, 42);
    write_dirent(&mut buf, 32, &d);
    let back = read_dirent(&buf, 32);
    assert_eq!(back.inum, 42);
    assert_eq!(&back.name[0..7], b"console");
    assert_eq!(back.name[7], 0);
}

#[test]
fn inode_block_helpers() {
    let sb = test_superblock();
    assert_eq!(iblock(&sb, 1), 2);
    assert_eq!(iblock(&sb, 16), 2);
    assert_eq!(iblock(&sb, 17), 3);
    assert_eq!(block_bmap(&sb, 100), 15);
}

#[test]
fn alloc_inode_never_zero_and_distinct() {
    let (mut dev, sb) = test_image();
    let a = alloc_inode(&mut dev, &sb, T_DIR, 0, 0, 1);
    let b = alloc_inode(&mut dev, &sb, T_FILE, 1, 2, 1);
    // never inode 0, first-free order, distinct without intervening frees
    assert_eq!(a, 1);
    assert_eq!(b, 2);
    assert_ne!(a, 0);
    assert_ne!(b, 0);
    assert_ne!(a, b);
    let fa = find_inode(&dev, &sb, a);
    assert_eq!(fa.inner.typ, T_DIR);
    assert_eq!(fa.inner.size, 0);
    let fb = find_inode(&dev, &sb, b);
    assert_eq!(fb.inner.typ, T_FILE);
    assert_eq!(fb.inner.major, 1);
    assert_eq!(fb.inner.minor, 2);
    // freeing is an in-memory mark
    let mut fa = fa;
    free_inode(&mut fa);
    assert_eq!(fa.inner.typ, 0);
}

#[test]
fn alloc_block_sets_fresh_bits() {
    let (mut dev, sb) = test_image();
    let a = alloc_block(&mut dev, &sb);
    let b = alloc_block(&mut dev, &sb);
    // the metadata blocks were marked used, so data blocks follow them
    assert_eq!(a, 16);
    assert_eq!(b, 17);
    assert_ne!(a, b);
}

#[test]
fn readi_writei_round_trip() {
    let (mut dev, sb) = test_image();
    let inum = alloc_inode(&mut dev, &sb, T_FILE, 0, 0, 1);
    let mut fi = find_inode(&dev, &sb, inum);
    // link two data blocks by hand
    fi.inner.directs[0] = 20;
    fi.inner.directs[1] = 21;
    let data: Vec<u8> = (0..=255).collect();
    assert!(writei(&mut dev, &mut fi, 0, &data));
    assert_eq!(fi.inner.size, 256);
    // appending past the end grows the size; overwriting does not
    assert!(writei(&mut dev, &mut fi, 100, &data));
    assert_eq!(fi.inner.size, 356);
    // offsets past the end are rejected
    assert!(!writei(&mut dev, &mut fi, 1000, &data));
    assert_eq!(fi.inner.size, 356);

    let mut back = vec![0u8; 100];
    assert!(readi(&dev, &fi, 0, &mut back));
    assert_eq!(&back[..], &data[..100]);
    let mut tail = vec![0u8; 256];
    assert!(readi(&dev, &fi, 100, &mut tail));
    assert_eq!(&tail[..], &data[..]);
    // reading past the end is rejected
    assert!(!readi(&dev, &fi, 400, &mut tail));

    // a write crossing the block boundary lands intact
    let big = vec![5u8; 1100];
    assert!(writei(&mut dev, &mut fi, 0, &big));
    assert_eq!(fi.inner.size, 1100);
    let mark = vec![7u8, 8, 9];
    assert!(writei(&mut dev, &mut fi, 1023, &mark));
    let mut readback = vec![0u8; 3];
    assert!(readi(&dev, &fi, 1023, &mut readback));
    assert_eq!(readback, mark);
}

#[test]
fn find_block_direct_and_indirect() {
    let (mut dev, sb) = test_image();
    let mut ino = Inode {
        typ: T_FILE,
        major: 0,
        minor: 0,
        nlink: 1,
        size: 0,
        directs: [0; 12],
        indirect: 0,
    };
    ino.directs[0] = 20;
    assert_eq!(find_block(&dev, &ino, 0), 20);
    assert_eq!(find_block(&dev, &ino, 1023), 20);
    assert_eq!(find_block(&dev, &ino, 1024), 0);
    // an offset past the direct range allocates the indirect block and a
    // data block through it
    let bn = find_or_alloc_block(&mut dev, &sb, &mut ino, 13 * 1024);
    assert_ne!(bn, 0);
    assert_ne!(ino.indirect, 0);
    assert_eq!(find_block(&dev, &ino, 13 * 1024), bn);
    // a direct hole gets one fresh block
    let b1 = find_or_alloc_block(&mut dev, &sb, &mut ino, 1024);
    assert_eq!(ino.directs[1], b1);
    assert_eq!(find_or_alloc_block(&mut dev, &sb, &mut ino, 1024), b1);
}

#[test]
fn directory_round_trip() {
    let (mut dev, sb) = test_image();
    let dnum = alloc_inode(&mut dev, &sb, T_DIR, 0, 0, 1);
    let fnum = alloc_inode(&mut dev, &sb, T_FILE, 0, 0, 1);
    assert_eq!(fnum, 2);
    let mut dir = find_inode(&dev, &sb, dnum);
    dir.inner.directs[0] = 20;

    // a name never linked resolves to nothing
    assert!(dirlookup(&dev, &sb, &dir, "foo").is_none());

    assert!(dirlink(&mut dev, &sb, &mut dir, "foo", 42));
    assert_eq!(dir.inner.size, 16);
    let hit = dirlookup(&dev, &sb, &dir, "foo").unwrap();
    assert_eq!(hit.inum, 42);

    // linking the same name again is rejected and changes nothing
    assert!(!dirlink(&mut dev, &sb, &mut dir, "foo", 7));
    assert_eq!(dir.inner.size, 16);
    assert_eq!(dirlookup(&dev, &sb, &dir, "foo").unwrap().inum, 42);

    // a second name lands in the next slot and resolves independently
    assert!(dirlink(&mut dev, &sb, &mut dir, "bar", dnum));
    assert_eq!(dirlookup(&dev, &sb, &dir, "bar").unwrap().inum, dnum);
    assert!(dirlookup(&dev, &sb, &dir, "baz").is_none());
}

#[test]
fn image_builder_appends_root_entries() {
    let (mut dev, sb) = test_image();
    let root = alloc_inode(&mut dev, &sb, T_DIR, 0, 0, 1);
    assert_eq!(root, 1);
    let mut cursor: u32 = 16;
    let n1 = create_dent(&mut dev, &sb, root, ".", &mut cursor);
    assert_eq!(n1, 16);
    let n2 = create_dent(&mut dev, &sb, root, "..", &mut cursor);
    assert_eq!(n2, 32);
    // the first append allocated block 16 from the cursor
    assert_eq!(cursor, 17);
    let ino = rinode(&dev, &sb, root);
    assert_eq!(ino.size, 32);
    assert_eq!(ino.directs[0], 16);
    // the entries read back as a directory
    let fi = FsInode { inner: ino, inum: root };
    assert_eq!(dirlookup(&dev, &sb, &fi, ".").unwrap().inum, root);
    assert_eq!(dirlookup(&dev, &sb, &fi, "..").unwrap().inum, root);
    // winode and rinode agree
    let mut ino2 = ino;
    ino2.nlink = 5;
    winode(&mut dev, &sb, root, &ino2);
    assert_eq!(rinode(&dev, &sb, root).nlink, 5);
    // iappend reports the grown size
    let data = vec![1u8; 16];
    assert_eq!(iappend(&mut dev, &sb, root, &data, &mut cursor), 48);
}

#[test]
fn path_parsing() {
    assert!(parse_path("").is_none());
    let (h, t) = parse_path("usr/bin").unwrap();
    assert_eq!(h, "usr");
    assert_eq!(t, "bin");
    let (h, t) = parse_path("console").unwrap();
    assert_eq!(h, "console");
    assert_eq!(t, "");
    let (h, t) = parse_path("  a/b/c  ").unwrap();
    assert_eq!(h, "a");
    assert_eq!(t, "b/c");

    assert!(path_to_parent_file("").is_none());
    let (p, f) = path_to_parent_file("/console").unwrap();
    assert_eq!(p, "/");
    assert_eq!(f, "console");
    let (p, f) = path_to_parent_file("/usr/bin/cc").unwrap();
    assert_eq!(p, "/usr/bin");
    assert_eq!(f, "cc");
    let (p, f) = path_to_parent_file("file").unwrap();
    assert_eq!(p, "");
    assert_eq!(f, "file");
}

#[test]
fn cstr_and_device_numbers() {
    let s = buf2cstr(vec![b'h', b'i', 0, b'x']);
    assert_eq!(s, "hi");
    let s2 = buf2cstr(vec![0]);
    assert_eq!(s2, "");
    let dev = (5 << 20) | 9;
    assert_eq!(MAJOR(dev), 5);
    assert_eq!(MINOR(dev), 9);
}
