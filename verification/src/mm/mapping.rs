//! Sv39 virtual-memory mapper.
//!
//! A `Mapping` owns a three-level radix tree of page tables. Each table is
//! one frame of 512 entries; a page-table entry is a 64-bit word with the
//! flag bits in its low byte and the physical page number in bits 10..54.
//! A valid entry with neither the read nor the execute bit set links to a
//! next-level table; any other valid entry is a leaf. The mapper builds
//! only leaf entries at the last level, allocating intermediate tables on
//! demand; each table frame carries the physical page number the frame
//! allocator gave it, and the tree is navigated by looking frames up by
//! that number.

use vstd::prelude::*;

verus! {

/// Entry is present.
pub const PTE_VALID: u8 = 1;

/// Readable leaf.
pub const PTE_READ: u8 = 2;

/// Writable leaf.
pub const PTE_WRITE: u8 = 4;

/// Executable leaf.
pub const PTE_EXECUTE: u8 = 8;

/// Accessible from user mode.
pub const PTE_USER: u8 = 16;

/// Global mapping.
pub const PTE_GLOBAL: u8 = 32;

/// Accessed bit.
pub const PTE_ACCESS: u8 = 64;

/// Dirty bit.
pub const PTE_DIRTY: u8 = 128;

/// The entry is present.
pub open spec fn pte_is_valid(e: u64) -> bool {
    e & (PTE_VALID as u64) != 0
}

/// A valid entry with neither read nor execute permission links to the
/// next-level table.
pub open spec fn pte_is_link(e: u64) -> bool {
    &&& pte_is_valid(e)
    &&& e & (PTE_READ as u64) == 0
    &&& e & (PTE_EXECUTE as u64) == 0
}

/// A valid entry with read or execute permission terminates the walk.
pub open spec fn pte_is_leaf(e: u64) -> bool {
    pte_is_valid(e) && !pte_is_link(e)
}

/// The physical page number held in bits 10..54 of an entry.
pub open spec fn pte_ppn(e: u64) -> u64 {
    (e & 0x003f_ffff_ffff_fc00) >> 10u64
}

/// The 9-bit table index that `va` selects at the given level.
pub open spec fn vpn_slot(va: u64, level: int) -> int {
    if level == 2 {
        ((va >> 30u64) & 0x1ff) as int
    } else if level == 1 {
        ((va >> 21u64) & 0x1ff) as int
    } else {
        ((va >> 12u64) & 0x1ff) as int
    }
}

/// The page-offset bits of `va` left untranslated at the given level.
pub open spec fn offset_in(va: u64, level: int) -> u64 {
    if level == 2 {
        va & 0x3fff_ffff
    } else if level == 1 {
        va & 0x1f_ffff
    } else {
        va & 0xfff
    }
}

/// One page-table frame: its own physical page number, its level in the
/// tree (2 = root, 0 = last), and 512 entries.
pub struct PageTable {
    pub ppn: u64,
    pub level: u8,
    pub entries: Vec<u64>,
}

/// A contiguous mapping request: `len` bytes from `vaddr` to `paddr` with
/// the given leaf permissions. Consumed by `Mapping::map`.
pub struct Segment {
    pub vaddr: u64,
    pub paddr: u64,
    pub len: u64,
    pub flags: u8,
}

/// An address space: the owned chain of page-table frames, rooted at
/// `tables[0]`. `next_ppn` is the next frame number the arena hands out.
pub struct Mapping {
    pub tables: Vec<PageTable>,
    pub next_ppn: u64,
}

impl Mapping {
    /// The arena index of the table frame with the given physical page
    /// number.
    pub open spec fn table_index(self, ppn: u64) -> int {
        choose|j: int| 0 <= j < self.tables@.len() && self.tables@[j].ppn == ppn
    }

    /// Structural invariant of the radix tree: the root is table 0 at
    /// level 2; frame numbers are distinct and below the arena's next
    /// one; every link points at an existing frame one level down; two
    /// different link entries never share a target; and tables above the
    /// last level hold only links.
    pub open spec fn wf(self) -> bool {
        &&& self.tables@.len() >= 1
        &&& forall|i: int|
            0 <= i < self.tables@.len() ==> (#[trigger] self.tables@[i]).entries@.len() == 512
        &&& self.tables@[0].level == 2
        &&& forall|i: int| 1 <= i < self.tables@.len() ==> (#[trigger] self.tables@[i]).level < 2
        &&& forall|i: int|
            0 <= i < self.tables@.len() ==> (#[trigger] self.tables@[i]).ppn < self.next_ppn
        &&& forall|i: int, j: int|
            0 <= i < j < self.tables@.len() ==> (#[trigger] self.tables@[i]).ppn != (
            #[trigger] self.tables@[j]).ppn
        &&& forall|i: int, k: int|
            0 <= i < self.tables@.len() && 0 <= k < 512 && pte_is_link(
                #[trigger] self.tables@[i].entries@[k],
            ) ==> {
                &&& self.tables@[i].level >= 1
                &&& exists|j: int|
                    1 <= j < self.tables@.len() && (#[trigger] self.tables@[j]).ppn == pte_ppn(
                        self.tables@[i].entries@[k],
                    ) && self.tables@[j].level == self.tables@[i].level - 1
            }
        &&& forall|i: int, k: int, i2: int, k2: int|
            0 <= i < self.tables@.len() && 0 <= k < 512 && 0 <= i2 < self.tables@.len() && 0 <= k2
                < 512 && !(i == i2 && k == k2) && pte_is_link(
                #[trigger] self.tables@[i].entries@[k],
            ) && pte_is_link(#[trigger] self.tables@[i2].entries@[k2]) ==> pte_ppn(
                self.tables@[i].entries@[k],
            ) != pte_ppn(self.tables@[i2].entries@[k2])
        &&& forall|i: int, k: int|
            0 <= i < self.tables@.len() && 0 <= k < 512 && self.tables@[i].level >= 1
                && pte_is_valid(#[trigger] self.tables@[i].entries@[k]) ==> pte_is_link(
                self.tables@[i].entries@[k],
            )
    }

    /// Where the walk from table `t` (at its level) sends `va`: the
    /// translated physical address, or `None` when the path dies out.
    pub open spec fn translate_from(self, t: int, level: int, va: u64) -> Option<u64>
        decreases level,
    {
        if level < 0 {
            None
        } else {
            let e = self.tables@[t].entries@[vpn_slot(va, level)];
            if !pte_is_valid(e) {
                None
            } else if pte_is_link(e) {
                if level == 0 {
                    None
                } else {
                    self.translate_from(self.table_index(pte_ppn(e)), level - 1, va)
                }
            } else {
                Some((((pte_ppn(e) << 12u64) as u64) + offset_in(va, level)) as u64)
            }
        }
    }

    /// The physical address that the whole tree assigns to `va`.
    pub open spec fn translate(self, va: u64) -> Option<u64> {
        self.translate_from(0, 2, va)
    }

    /// A fresh address space: one zeroed root frame, mapping nothing.
    pub fn new(root_ppn: u64) -> (m: Mapping)
        requires
            root_ppn < 0x1000_0000_0000,
        ensures
            m.wf(),
            m.tables@.len() == 1,
            m.tables@[0].ppn == root_ppn,
            m.next_ppn == root_ppn + 1,
            forall|va: u64| m.translate(va) is None,
    {
        let entries = zeroed_entries();
        let root = PageTable { ppn: root_ppn, level: 2, entries };
        let mut tables: Vec<PageTable> = Vec::new();
        tables.push(root);
        let m = Mapping { tables, next_ppn: root_ppn + 1 };
        proof {
            lemma_va_bits(0);
            assert forall|va: u64| m.translate(va) is None by {
                lemma_va_bits(va);
                assert(m.tables@[0].entries@[vpn_slot(va, 2)] == 0);
                assert(!pte_is_valid(m.tables@[0].entries@[vpn_slot(va, 2)]));
            }
        }
        m
    }

    /// The value for the hardware page-table-base register: mode 8 (Sv39)
    /// plus the root frame number.
    pub fn satp(&self) -> (r: u64)
        requires
            self.wf(),
        ensures
            r == self.tables@[0].ppn | (8u64 << 60u64),
    {
        self.tables[0].ppn | (8u64 << 60u64)
    }

    /// The arena index of the frame numbered `ppn`, which must exist.
    fn find_table(&self, ppn: u64) -> (r: usize)
        requires
            self.wf(),
            exists|j: int|
                0 <= j < self.tables@.len() && (#[trigger] self.tables@[j]).ppn == ppn,
        ensures
            r < self.tables@.len(),
            self.tables@[r as int].ppn == ppn,
            r as int == self.table_index(ppn),
    {
        let mut i: usize = 0;
        let len = self.tables.len();
        while i < len
            invariant
                self.wf(),
                len == self.tables@.len(),
                i <= len,
                exists|j: int|
                    0 <= j < self.tables@.len() && (#[trigger] self.tables@[j]).ppn == ppn,
                forall|j: int| 0 <= j < i ==> (#[trigger] self.tables@[j]).ppn != ppn,
            decreases len - i,
        {
            if self.tables[i].ppn == ppn {
                proof {
                    let c = self.table_index(ppn);
                    if c != i {
                        assert(self.tables@[c].ppn == self.tables@[i as int].ppn);
                        assert(false);
                    }
                }
                return i;
            }
            i = i + 1;
        }
        proof {
            assert(false);
        }
        0
    }

    /// Overwrites one entry of one table frame.
    fn set_entry(&mut self, t: usize, slot: usize, v: u64)
        requires
            t < old(self).tables@.len(),
            slot < 512,
            old(self).tables@[t as int].entries@.len() == 512,
        ensures
            final(self).tables@.len() == old(self).tables@.len(),
            final(self).next_ppn == old(self).next_ppn,
            final(self).tables@[t as int].ppn == old(self).tables@[t as int].ppn,
            final(self).tables@[t as int].level == old(self).tables@[t as int].level,
            final(self).tables@[t as int].entries@ == old(self).tables@[t as int].entries@.update(
                slot as int,
                v,
            ),
            forall|j: int|
                0 <= j < old(self).tables@.len() && j != t ==> final(self).tables@[j] == old(
                    self,
                ).tables@[j],
    {
        let tr = &mut self.tables[t];
        tr.entries[slot] = v;
    }

    /// Appends a fresh zeroed table frame at the given level, numbering it
    /// from the arena.
    fn push_table(&mut self, level: u8) -> (t: usize)
        requires
            old(self).next_ppn < u64::MAX,
        ensures
            t == old(self).tables@.len(),
            final(self).tables@.len() == old(self).tables@.len() + 1,
            final(self).next_ppn == old(self).next_ppn + 1,
            final(self).tables@[t as int].ppn == old(self).next_ppn,
            final(self).tables@[t as int].level == level,
            final(self).tables@[t as int].entries@.len() == 512,
            forall|k: int| 0 <= k < 512 ==> final(self).tables@[t as int].entries@[k] == 0,
            forall|j: int|
                0 <= j < old(self).tables@.len() ==> final(self).tables@[j] == old(self).tables@[j],
    {
        let t = self.tables.len();
        let entries = zeroed_entries();
        self.tables.push(PageTable { ppn: self.next_ppn, level, entries });
        self.next_ppn = self.next_ppn + 1;
        t
    }

    /// Installs the translation for one page: after the call, every
    /// address on the page of `vaddr` translates to the matching address
    /// on the page of `paddr`, and every other canonical address
    /// translates exactly as before. Intermediate tables are created on
    /// demand; an existing translation for the page is overwritten.
    pub fn map_one(&mut self, vaddr: u64, paddr: u64, flags: u8)
        requires
            old(self).wf(),
            vaddr & 0xfff == 0,
            vaddr <= crate::config::MAX_VA,
            paddr & 0xfff == 0,
            paddr < 0x100_0000_0000_0000,
            flags & PTE_VALID != 0,
            flags & (PTE_READ | PTE_EXECUTE) != 0,
            old(self).next_ppn + 2 <= 0x1000_0000_0000,
        ensures
            final(self).wf(),
            final(self).tables@[0].ppn == old(self).tables@[0].ppn,
            old(self).next_ppn <= final(self).next_ppn <= old(self).next_ppn + 2,
            forall|va2: u64|
                va2 <= crate::config::MAX_VA ==> #[trigger] final(self).translate(va2) == (
                if va2 >> 12u64 == vaddr >> 12u64 {
                    Some((paddr + (va2 & 0xfff)) as u64)
                } else {
                    old(self).translate(va2)
                }),
    {
        let ghost pre = *old(self);
        proof {
            lemma_va_bits(vaddr);
        }
        let s2: usize = ((vaddr >> 30u64) & 0x1ff) as usize;
        let s1: usize = ((vaddr >> 21u64) & 0x1ff) as usize;
        let s0: usize = ((vaddr >> 12u64) & 0x1ff) as usize;
        proof {
            lemma_va_bits(0);
        }
        let e2 = read_entry(&self.tables[0], vaddr, 2);
        let created2: bool;
        let t1: usize;
        if !pte_valid_exec(e2) {
            let child = self.next_ppn;
            let nt = self.push_table(1);
            self.set_entry(0, s2, (child << 10u64) | (PTE_VALID as u64));
            t1 = nt;
            created2 = true;
        } else {
            proof {
                assert(pte_is_link(pre.tables@[0].entries@[s2 as int]));
            }
            t1 = self.find_table(pte_ppn_exec(e2));
            created2 = false;
        }
        let e1 = read_entry(&self.tables[t1], vaddr, 1);
        let created1: bool;
        let t0: usize;
        if !pte_valid_exec(e1) {
            let child = self.next_ppn;
            let nt = self.push_table(0);
            self.set_entry(t1, s1, (child << 10u64) | (PTE_VALID as u64));
            t0 = nt;
            created1 = true;
        } else {
            proof {
                assert(!created2);
                assert(pte_is_link(pre.tables@[t1 as int].entries@[s1 as int]));
            }
            t0 = self.find_table(pte_ppn_exec(e1));
            created1 = false;
        }
        self.set_entry(t0, s0, ((paddr >> 12u64) << 10u64) | (flags as u64));
        proof {
            let leafv = ((paddr >> 12u64) << 10u64) | (flags as u64);
            if created2 {
                assert(self.tables@[0].entries@ =~= pre.tables@[0].entries@.update(
                    s2 as int,
                    ((pre.next_ppn << 10u64) | 1u64) as u64,
                ));
                assert(self.tables@[t1 as int].entries@ =~= zero_entries_seq().update(
                    s1 as int,
                    ((((pre.next_ppn + 1) as u64) << 10u64) | 1u64) as u64,
                ));
                assert(self.tables@[t0 as int].entries@ =~= zero_entries_seq().update(
                    s0 as int,
                    leafv,
                ));
            } else if created1 {
                assert(pte_is_link(pre.tables@[0].entries@[s2 as int]));
                assert(self.tables@[t1 as int].entries@ =~= pre.tables@[
                    t1 as int
                ].entries@.update(s1 as int, ((pre.next_ppn << 10u64) | 1u64) as u64));
                assert(self.tables@[t0 as int].entries@ =~= zero_entries_seq().update(
                    s0 as int,
                    leafv,
                ));
            } else {
                assert(pte_is_link(pre.tables@[0].entries@[s2 as int]));
                assert(pte_is_link(pre.tables@[t1 as int].entries@[s1 as int]));
                assert(self.tables@[t0 as int].entries@ =~= pre.tables@[
                    t0 as int
                ].entries@.update(s0 as int, leafv));
            }
            assert(map_one_shape(
                pre,
                *self,
                vaddr,
                paddr,
                flags,
                created2,
                created1,
                t1 as int,
                t0 as int,
            ));
            lemma_map_one_effect(
                pre,
                *self,
                vaddr,
                paddr,
                flags,
                created2,
                created1,
                t1 as int,
                t0 as int,
            );
        }
    }

    /// Installs leaf translations for a whole segment, page by page:
    /// `len` bytes (rounded up to whole pages) from `segment.vaddr` map to
    /// `segment.paddr` with the segment's permissions. Addresses outside
    /// the segment translate exactly as before.
    pub fn map(&mut self, segment: Segment)
        requires
            old(self).wf(),
            segment.vaddr & 0xfff == 0,
            segment.paddr & 0xfff == 0,
            segment.flags & (PTE_READ | PTE_EXECUTE) != 0,
            segment.vaddr + page_count(segment.len) * 4096 <= crate::config::MAX_VA + 1,
            segment.paddr + page_count(segment.len) * 4096 <= 0x100_0000_0000_0000,
            old(self).next_ppn + 2 * page_count(segment.len) <= 0x1000_0000_0000,
        ensures
            final(self).wf(),
            final(self).tables@[0].ppn == old(self).tables@[0].ppn,
            final(self).next_ppn <= old(self).next_ppn + 2 * page_count(segment.len),
            forall|va2: u64|
                va2 <= crate::config::MAX_VA ==> #[trigger] final(self).translate(va2) == (
                if segment.vaddr <= va2 < segment.vaddr + page_count(segment.len) * 4096 {
                    Some((segment.paddr + (va2 - segment.vaddr)) as u64)
                } else {
                    old(self).translate(va2)
                }),
    {
        let ghost pre = *old(self);
        let npages: u64 = (segment.len / 4096) + (if segment.len % 4096 == 0 {
            0
        } else {
            1
        });
        proof {
            assert(npages == page_count(segment.len));
        }
        let flags: u8 = segment.flags | PTE_VALID;
        proof {
            let f = segment.flags;
            assert((f | PTE_VALID) & PTE_VALID != 0 && ((f & (PTE_READ | PTE_EXECUTE) != 0) ==> ((f
                | PTE_VALID) & (PTE_READ | PTE_EXECUTE) != 0))) by (bit_vector);
        }
        let mut i: u64 = 0;
        let mut va_cur: u64 = segment.vaddr;
        let mut pa_cur: u64 = segment.paddr;
        while i < npages
            invariant
                pre == *old(self),
                self.wf(),
                pre.wf(),
                i <= npages,
                va_cur == segment.vaddr + i * 4096,
                pa_cur == segment.paddr + i * 4096,
                va_cur & 0xfff == 0,
                pa_cur & 0xfff == 0,
                flags & PTE_VALID != 0,
                flags & (PTE_READ | PTE_EXECUTE) != 0,
                segment.vaddr + npages * 4096 <= crate::config::MAX_VA + 1,
                segment.paddr + npages * 4096 <= 0x100_0000_0000_0000,
                self.next_ppn + 2 * (npages - i) <= 0x1000_0000_0000,
                self.next_ppn <= pre.next_ppn + 2 * i,
                self.tables@[0].ppn == pre.tables@[0].ppn,
                forall|va2: u64|
                    va2 <= crate::config::MAX_VA ==> #[trigger] self.translate(va2) == (
                    if segment.vaddr <= va2 < segment.vaddr + i * 4096 {
                        Some((segment.paddr + (va2 - segment.vaddr)) as u64)
                    } else {
                        pre.translate(va2)
                    }),
            decreases npages - i,
        {
            let ghost mid = *self;
            self.map_one(va_cur, pa_cur, flags);
            proof {
                assert forall|va2: u64| va2 <= crate::config::MAX_VA implies #[trigger] self.translate(
                    va2,
                ) == (if segment.vaddr <= va2 < segment.vaddr + (i + 1) * 4096 {
                    Some((segment.paddr + (va2 - segment.vaddr)) as u64)
                } else {
                    pre.translate(va2)
                }) by {
                    lemma_same_page(va_cur, va2);
                    if va2 >> 12u64 == va_cur >> 12u64 {
                        assert(va2 == va_cur + (va2 & 0xfff));
                        assert(self.translate(va2) == Some((pa_cur + (va2 & 0xfff)) as u64));
                    } else {
                        assert(self.translate(va2) == mid.translate(va2));
                        assert(!(va_cur <= va2 < va_cur + 4096));
                    }
                }
            }
            let ghost vc0 = va_cur;
            let ghost pc0 = pa_cur;
            i = i + 1;
            va_cur = va_cur + 4096;
            pa_cur = pa_cur + 4096;
            proof {
                assert((vc0 & 0xfff == 0 && vc0 + 4096 <= u64::MAX) ==> (((vc0 + 4096) as u64)
                    & 0xfff == 0)) by (bit_vector);
                assert((pc0 & 0xfff == 0 && pc0 + 4096 <= u64::MAX) ==> (((pc0 + 4096) as u64)
                    & 0xfff == 0)) by (bit_vector);
            }
        }
    }

    /// Resolves `va` through the live tree, as the hardware would:
    /// descends while entries link onward, stops at a leaf, and returns
    /// `None` as soon as the path is invalid. The result is exactly what
    /// the tree's translation relation assigns to the page of `va`.
    pub fn walk(&mut self, vaddr: u64) -> (r: Option<u64>)
        requires
            old(self).wf(),
        ensures
            *final(self) == *old(self),
            r == old(self).translate((vaddr & 0xffff_ffff_ffff_f000) as u64),
    {
        let va = vaddr & 0xffff_ffff_ffff_f000;
        proof {
            reveal_with_fuel(Mapping::translate_from, 4);
            lemma_va_bits(va);

        }
        let e2 = read_entry(&self.tables[0], va, 2);
        if !pte_valid_exec(e2) {
            return None;
        }
        if !pte_link_exec(e2) {
            proof {
                lemma_ppn_shift(e2);
            }
            return Some((pte_ppn_exec(e2) << 12u64) + (va & 0x3fff_ffff));
        }
        proof {
            assert(pte_is_link(self.tables@[0].entries@[vpn_slot(va as u64, 2)]));
        }
        let t1 = self.find_table(pte_ppn_exec(e2));
        let e1 = read_entry(&self.tables[t1], va, 1);
        if !pte_valid_exec(e1) {
            return None;
        }
        if !pte_link_exec(e1) {
            proof {
                lemma_ppn_shift(e1);
            }
            return Some((pte_ppn_exec(e1) << 12u64) + (va & 0x1f_ffff));
        }
        proof {
            assert(pte_is_link(self.tables@[t1 as int].entries@[vpn_slot(va as u64, 1)]));
        }
        let t0 = self.find_table(pte_ppn_exec(e1));
        let e0 = read_entry(&self.tables[t0], va, 0);
        if !pte_valid_exec(e0) {
            return None;
        }
        if pte_link_exec(e0) {
            return None;
        }
        proof {
            lemma_ppn_shift(e0);
        }
        Some((pte_ppn_exec(e0) << 12u64) + (va & 0xfff))
    }
}

/// The slot and offset fields of an address, and the null entry, as
/// plain bit facts.
proof fn lemma_va_bits(va: u64)
    by (bit_vector)
    ensures
        (va >> 30u64) & 0x1ff < 512,
        (va >> 21u64) & 0x1ff < 512,
        (va >> 12u64) & 0x1ff < 512,
        (va & 0xfff) <= 0xfff,
        (va & 0x1f_ffff) <= 0x1f_ffff,
        (va & 0x3fff_ffff) <= 0x3fff_ffff,
        0u64 & (PTE_VALID as u64) == 0,
        0u64 & 1u64 == 0,
        (va & 0xffff_ffff_ffff_f000) & 0xfff == 0,
{
}

/// A link entry to the table frame numbered `p`: the frame number in
/// bits 10..54 and only the valid bit set.
proof fn lemma_link_value(p: u64)
    by (bit_vector)
    requires
        p < 0x1000_0000_0000,
    ensures
        ((p << 10u64) | 1u64) & 1u64 != 0,
        ((p << 10u64) | 1u64) & 2u64 == 0,
        ((p << 10u64) | 1u64) & 8u64 == 0,
        (((p << 10u64) | 1u64) & 0x003f_ffff_ffff_fc00) >> 10u64 == p,
{
}

/// A leaf entry built from an aligned physical address and flag byte:
/// valid, readable or executable, and holding the address's page number.
proof fn lemma_leaf_value(paddr: u64, flags: u64)
    by (bit_vector)
    requires
        paddr < 0x100_0000_0000_0000,
        paddr & 0xfff == 0,
        flags < 256,
        flags & 1u64 != 0,
        flags & 10u64 != 0,
    ensures
        (((paddr >> 12u64) << 10u64) | flags) & 1u64 != 0,
        ((((paddr >> 12u64) << 10u64) | flags) & 2u64 != 0) || ((((paddr >> 12u64) << 10u64)
            | flags) & 8u64 != 0),
        ((((paddr >> 12u64) << 10u64) | flags) & 0x003f_ffff_ffff_fc00) >> 10u64 == paddr
            >> 12u64,
        ((paddr >> 12u64) << 12u64) == paddr,
{
}

/// Number of whole pages that cover `len` bytes.
pub open spec fn page_count(len: u64) -> int {
    len as int / 4096 + (if len as int % 4096 == 0 {
        0int
    } else {
        1int
    })
}

/// For a page-aligned base, an address lies on the base's page exactly
/// when it lies in the base's 4096-byte range, and then it is the base
/// plus its own page offset.
proof fn lemma_same_page(a: u64, va: u64)
    by (bit_vector)
    requires
        a & 0xfff == 0,
        a <= 0xffff_ffff_ffff_f000,
    ensures
        (va >> 12u64 == a >> 12u64) == (a <= va < a + 4096),
        (va >> 12u64 == a >> 12u64) ==> va == a + (va & 0xfff),
{
}

/// The flag tests on the byte carry over to the widened entry value.
proof fn lemma_flags_bridge(f: u8)
    by (bit_vector)
    ensures
        (f & (PTE_VALID as u8) != 0) == ((f as u64) & 1u64 != 0),
        (f & ((PTE_READ | PTE_EXECUTE) as u8) != 0) == ((f as u64) & 10u64 != 0),
{
}

/// Two canonical Sv39 addresses lie on the same page exactly when they
/// select the same slot at every level.
proof fn lemma_page_eq(a: u64, b: u64)
    by (bit_vector)
    requires
        a <= 0x7f_ffff_ffff,
        b <= 0x7f_ffff_ffff,
    ensures
        (a >> 12u64 == b >> 12u64) == ((a >> 30u64) & 0x1ff == (b >> 30u64) & 0x1ff && (a
            >> 21u64) & 0x1ff == (b >> 21u64) & 0x1ff && (a >> 12u64) & 0x1ff == (b >> 12u64)
            & 0x1ff),
{
}

/// With distinct frame numbers, looking a frame's own number up yields
/// its index.
proof fn lemma_table_index_of(m: Mapping, j: int)
    requires
        forall|i: int, j2: int|
            0 <= i < j2 < m.tables@.len() ==> (#[trigger] m.tables@[i]).ppn != (
            #[trigger] m.tables@[j2]).ppn,
        0 <= j < m.tables@.len(),
    ensures
        m.table_index(m.tables@[j].ppn) == j,
{
    let p = m.tables@[j].ppn;
    assert(0 <= j < m.tables@.len() && m.tables@[j].ppn == p);
    let c = m.table_index(p);
    assert(0 <= c < m.tables@.len() && m.tables@[c].ppn == p);
    if c < j {
        assert(m.tables@[c].ppn != m.tables@[j].ppn);
    } else if j < c {
        assert(m.tables@[j].ppn != m.tables@[c].ppn);
    }
}

/// The shape of the mutation `map_one` performs: which path tables were
/// created, where they sit, and exactly which entries changed.
pub open spec fn map_one_shape(
    pre: Mapping,
    post: Mapping,
    vaddr: u64,
    paddr: u64,
    flags: u8,
    created2: bool,
    created1: bool,
    t1: int,
    t0: int,
) -> bool {
    &&& pre.wf()
    &&& vaddr & 0xfff == 0
    &&& vaddr <= crate::config::MAX_VA
    &&& paddr & 0xfff == 0
    &&& paddr < 0x100_0000_0000_0000
    &&& flags & PTE_VALID != 0
    &&& flags & (PTE_READ | PTE_EXECUTE) != 0
    &&& pre.next_ppn + 2 <= 0x1000_0000_0000
    &&& post.tables@[0].ppn == pre.tables@[0].ppn
    &&& post.tables@[0].level == 2
    &&& (created2 ==> created1)
    &&& ({
        let li = pre.tables@.len() as int;
        let s2 = vpn_slot(vaddr, 2);
        let s1 = vpn_slot(vaddr, 1);
        let s0 = vpn_slot(vaddr, 0);
        let leafv = ((paddr >> 12u64) << 10u64) | (flags as u64);
        if created2 {
            &&& t1 == li
            &&& t0 == li + 1
            &&& post.tables@.len() == li + 2
            &&& post.next_ppn == pre.next_ppn + 2
            &&& !pte_is_valid(pre.tables@[0].entries@[s2])
            &&& forall|j: int|
                0 <= j < li ==> (#[trigger] post.tables@[j]).ppn == pre.tables@[j].ppn
                    && post.tables@[j].level == pre.tables@[j].level
            &&& forall|j: int|
                1 <= j < li ==> (#[trigger] post.tables@[j]).entries@ == pre.tables@[j].entries@
            &&& post.tables@[0].entries@ == pre.tables@[0].entries@.update(
                s2,
                ((pre.next_ppn << 10u64) | 1u64) as u64,
            )
            &&& post.tables@[t1].ppn == pre.next_ppn
            &&& post.tables@[t1].level == 1
            &&& post.tables@[t1].entries@ == zero_entries_seq().update(
                s1,
                ((((pre.next_ppn + 1) as u64) << 10u64) | 1u64) as u64,
            )
            &&& post.tables@[t0].ppn == pre.next_ppn + 1
            &&& post.tables@[t0].level == 0
            &&& post.tables@[t0].entries@ == zero_entries_seq().update(s0, leafv)
        } else if created1 {
            &&& 1 <= t1 < li
            &&& t0 == li
            &&& post.tables@.len() == li + 1
            &&& post.next_ppn == pre.next_ppn + 1
            &&& pte_is_link(pre.tables@[0].entries@[s2])
            &&& pte_ppn(pre.tables@[0].entries@[s2]) == pre.tables@[t1].ppn
            &&& !pte_is_valid(pre.tables@[t1].entries@[s1])
            &&& forall|j: int|
                0 <= j < li ==> (#[trigger] post.tables@[j]).ppn == pre.tables@[j].ppn
                    && post.tables@[j].level == pre.tables@[j].level
            &&& forall|j: int|
                0 <= j < li && j != t1 ==> (#[trigger] post.tables@[j]).entries@
                    == pre.tables@[j].entries@
            &&& post.tables@[t1].entries@ == pre.tables@[t1].entries@.update(
                s1,
                ((pre.next_ppn << 10u64) | 1u64) as u64,
            )
            &&& post.tables@[t0].ppn == pre.next_ppn
            &&& post.tables@[t0].level == 0
            &&& post.tables@[t0].entries@ == zero_entries_seq().update(s0, leafv)
        } else {
            &&& 1 <= t1 < li
            &&& 1 <= t0 < li
            &&& post.tables@.len() == li
            &&& post.next_ppn == pre.next_ppn
            &&& pte_is_link(pre.tables@[0].entries@[s2])
            &&& pte_ppn(pre.tables@[0].entries@[s2]) == pre.tables@[t1].ppn
            &&& pte_is_link(pre.tables@[t1].entries@[s1])
            &&& pte_ppn(pre.tables@[t1].entries@[s1]) == pre.tables@[t0].ppn
            &&& forall|j: int|
                0 <= j < li ==> (#[trigger] post.tables@[j]).ppn == pre.tables@[j].ppn
                    && post.tables@[j].level == pre.tables@[j].level
            &&& forall|j: int|
                0 <= j < li && j != t0 ==> (#[trigger] post.tables@[j]).entries@
                    == pre.tables@[j].entries@
            &&& post.tables@[t0].entries@ == pre.tables@[t0].entries@.update(s0, leafv)
        }
    })
}

/// A table frame's worth of zeroes.
pub open spec fn zero_entries_seq() -> Seq<u64> {
    Seq::new(512, |k: int| 0u64)
}

/// The exact effect of `map_one` on the tree: from the shape of the
/// mutation — which path tables were created and which entries written —
/// the invariant is preserved, the target page now translates to the
/// target frame, and every other canonical address translates as before.
#[verifier::rlimit(100)]
#[verifier::spinoff_prover]
proof fn lemma_map_one_effect(
    pre: Mapping,
    post: Mapping,
    vaddr: u64,
    paddr: u64,
    flags: u8,
    created2: bool,
    created1: bool,
    t1: int,
    t0: int,
)
    requires
        map_one_shape(pre, post, vaddr, paddr, flags, created2, created1, t1, t0),
    ensures
        post.wf(),
        forall|va2: u64|
            va2 <= crate::config::MAX_VA ==> #[trigger] post.translate(va2) == (
            if va2 >> 12u64 == vaddr >> 12u64 {
                Some((paddr + (va2 & 0xfff)) as u64)
            } else {
                pre.translate(va2)
            }),
{
    reveal_with_fuel(Mapping::translate_from, 4);
    let li = pre.tables@.len() as int;
    let s2 = vpn_slot(vaddr, 2);
    let s1 = vpn_slot(vaddr, 1);
    let s0 = vpn_slot(vaddr, 0);
    let leafv = ((paddr >> 12u64) << 10u64) | (flags as u64);
    let p1 = post.tables@[t1].ppn;
    let p0 = post.tables@[t0].ppn;
    lemma_va_bits(vaddr);
    lemma_flags_bridge(flags);
    lemma_leaf_value(paddr, flags as u64);
    assert(p1 < 0x1000_0000_0000 && p0 < 0x1000_0000_0000);
    lemma_link_value(p1);
    lemma_link_value(p0);
    let link1 = ((p1 << 10u64) | 1u64) as u64;
    let link0 = ((p0 << 10u64) | 1u64) as u64;
    assert(pte_is_link(link1) && pte_ppn(link1) == p1);
    assert(pte_is_link(link0) && pte_ppn(link0) == p0);
    assert(pte_is_leaf(leafv) && pte_ppn(leafv) == paddr >> 12u64);
    // The final contents of the path tables, uniformly over the cases.
    assert(post.tables@[0].entries@ =~= if created2 {
        pre.tables@[0].entries@.update(s2, link1)
    } else {
        pre.tables@[0].entries@
    });
    assert(pte_is_link(post.tables@[0].entries@[s2]) && pte_ppn(post.tables@[0].entries@[s2])
        == p1);
    assert(pte_is_link(post.tables@[t1].entries@[s1]) && pte_ppn(post.tables@[t1].entries@[s1])
        == p0);
    assert(post.tables@[t0].entries@[s0] == leafv);
    assert(post.tables@[t1].level == 1 && post.tables@[t0].level == 0);
    // Frame numbers remain distinct, so the invariant's lookup clauses
    // keep working.
    assert(forall|j: int|
        0 <= j < li ==> (#[trigger] pre.tables@[j]).ppn < pre.next_ppn);
    assert forall|i: int, j: int|
        0 <= i < j < post.tables@.len() implies (#[trigger] post.tables@[i]).ppn != (
        #[trigger] post.tables@[j]).ppn by {
        if i < li && j < li {
            assert(pre.tables@[i].ppn != pre.tables@[j].ppn);
        }
    }
    assert(post.wf()) by {
        assert(forall|i: int|
            0 <= i < post.tables@.len() ==> (#[trigger] post.tables@[i]).entries@.len() == 512);
        assert(forall|i: int|
            1 <= i < post.tables@.len() ==> (#[trigger] post.tables@[i]).level < 2);
        assert(forall|i: int|
            0 <= i < post.tables@.len() ==> (#[trigger] post.tables@[i]).ppn < post.next_ppn);
        // Links reach existing frames one level down.
        assert forall|i: int, k: int|
            0 <= i < post.tables@.len() && 0 <= k < 512 && pte_is_link(
                #[trigger] post.tables@[i].entries@[k],
            ) implies {
            &&& post.tables@[i].level >= 1
            &&& exists|j: int|
                1 <= j < post.tables@.len() && (#[trigger] post.tables@[j]).ppn == pte_ppn(
                    post.tables@[i].entries@[k],
                ) && post.tables@[j].level == post.tables@[i].level - 1
        } by {
            if i == 0 && k == s2 {
                assert(1 <= t1 < post.tables@.len() && post.tables@[t1].ppn == pte_ppn(
                    post.tables@[0].entries@[s2],
                ) && post.tables@[t1].level == 1);
            } else if i == t1 && k == s1 {
                assert(1 <= t0 < post.tables@.len() && post.tables@[t0].ppn == pte_ppn(
                    post.tables@[t1].entries@[k],
                ) && post.tables@[t0].level == 0);
            } else if i == t0 && k == s0 {
                assert(!pte_is_link(leafv));
                assert(false);
            } else {
                if i >= li {
                    // remaining entries of a fresh table are zero
                    assert(post.tables@[i].entries@[k] == 0);
                    lemma_va_bits(0);
                    assert(false);
                }
                // an untouched entry of a pre-existing table
                assert(post.tables@[i].entries@[k] == pre.tables@[i].entries@[k]);
                let e = pre.tables@[i].entries@[k];
                assert(pte_is_link(e));
                let j = choose|j: int|
                    1 <= j < pre.tables@.len() && (#[trigger] pre.tables@[j]).ppn == pte_ppn(e)
                        && pre.tables@[j].level == pre.tables@[i].level - 1;
                assert(1 <= j < post.tables@.len() && post.tables@[j].ppn == pte_ppn(e)
                    && post.tables@[j].level == post.tables@[i].level - 1);
            }
        }
        // No two links share a target.
        assert forall|i: int, k: int, i2: int, k2: int|
            0 <= i < post.tables@.len() && 0 <= k < 512 && 0 <= i2 < post.tables@.len() && 0 <= k2
                < 512 && !(i == i2 && k == k2) && pte_is_link(
                #[trigger] post.tables@[i].entries@[k],
            ) && pte_is_link(#[trigger] post.tables@[i2].entries@[k2]) implies pte_ppn(
            post.tables@[i].entries@[k],
        ) != pte_ppn(post.tables@[i2].entries@[k2]) by {
            lemma_map_one_link_targets(
                pre,
                post,
                vaddr,
                paddr,
                flags,
                created2,
                created1,
                t1,
                t0,
                i,
                k,
            );
            lemma_map_one_link_targets(
                pre,
                post,
                vaddr,
                paddr,
                flags,
                created2,
                created1,
                t1,
                t0,
                i2,
                k2,
            );
        }
        // Tables above the last level hold only links.
        assert forall|i: int, k: int|
            0 <= i < post.tables@.len() && 0 <= k < 512 && post.tables@[i].level >= 1
                && pte_is_valid(#[trigger] post.tables@[i].entries@[k]) implies pte_is_link(
            post.tables@[i].entries@[k],
        ) by {
            if i == 0 && k == s2 {
            } else if i == t1 && k == s1 {
            } else if i == t0 && k == s0 {
                assert(post.tables@[t0].level == 0);
            } else if i < li {
                assert(post.tables@[i].entries@[k] == pre.tables@[i].entries@[k]);
            } else {
                assert(post.tables@[i].entries@[k] == 0);
                lemma_va_bits(0);
            }
        }
    }
    lemma_table_index_of(post, t1);
    lemma_table_index_of(post, t0);
    // Finally, the translation relation point by point.
    assert forall|va2: u64| va2 <= crate::config::MAX_VA implies #[trigger] post.translate(va2)
        == (if va2 >> 12u64 == vaddr >> 12u64 {
        Some((paddr + (va2 & 0xfff)) as u64)
    } else {
        pre.translate(va2)
    }) by {
        lemma_map_one_translate(pre, post, vaddr, paddr, flags, created2, created1, t1, t0, va2);
    }
}

/// What a list of segment requests, applied in order to an empty address
/// space, assigns to `va`: the translation of the last segment covering
/// it, or nothing.
pub open spec fn segments_translate(segs: Seq<Segment>, va: u64) -> Option<u64>
    decreases segs.len(),
{
    if segs.len() == 0 {
        None
    } else {
        let s = segs.last();
        if s.vaddr <= va < s.vaddr + page_count(s.len) * 4096 {
            Some((s.paddr + (va - s.vaddr)) as u64)
        } else {
            segments_translate(segs.drop_last(), va)
        }
    }
}

/// A segment request the mapper accepts: aligned bases, a readable or
/// executable leaf, and ranges inside the canonical address spaces.
pub open spec fn segment_ok(s: Segment) -> bool {
    &&& s.vaddr & 0xfff == 0
    &&& s.paddr & 0xfff == 0
    &&& s.flags & (PTE_READ | PTE_EXECUTE) != 0
    &&& s.vaddr + page_count(s.len) * 4096 <= crate::config::MAX_VA + 1
    &&& s.paddr + page_count(s.len) * 4096 <= 0x100_0000_0000_0000
}

/// Total page budget of a list of segment requests.
pub open spec fn total_pages(segs: Seq<Segment>) -> int
    decreases segs.len(),
{
    if segs.len() == 0 {
        0
    } else {
        total_pages(segs.drop_last()) + page_count(segs.last().len)
    }
}

/// Builds the boot address space: a fresh tree into which every given
/// segment is mapped, in order. Afterwards each canonical address
/// translates to what the covering segment assigns it — for the kernel's
/// identity segments, to itself.
pub fn init(root_ppn: u64, segments: Vec<Segment>) -> (m: Mapping)
    requires
        root_ppn < 0x1000_0000_0000,
        root_ppn + 1 + 2 * total_pages(segments@) <= 0x1000_0000_0000,
        forall|i: int| 0 <= i < segments@.len() ==> segment_ok(#[trigger] segments@[i]),
        forall|i: int| 0 <= i < segments@.len() ==> page_count((#[trigger] segments@[i]).len) >= 0,
    ensures
        m.wf(),
        m.tables@[0].ppn == root_ppn,
        forall|va2: u64|
            va2 <= crate::config::MAX_VA ==> #[trigger] m.translate(va2) == segments_translate(
                segments@,
                va2,
            ),
{
    let mut m = Mapping::new(root_ppn);
    let mut i: usize = 0;
    proof {
        assert(segments@.subrange(0, 0) =~= Seq::<Segment>::empty());
        assert(total_pages(Seq::<Segment>::empty()) == 0);
    }
    while i < segments.len()
        invariant
            m.wf(),
            i <= segments@.len(),
            m.tables@[0].ppn == root_ppn,
            forall|j: int| 0 <= j < segments@.len() ==> segment_ok(#[trigger] segments@[j]),
            m.next_ppn + 2 * (total_pages(segments@) - total_pages(segments@.subrange(0, i as int)))
                <= 0x1000_0000_0000,
            forall|va2: u64|
                va2 <= crate::config::MAX_VA ==> #[trigger] m.translate(va2) == segments_translate(
                    segments@.subrange(0, i as int),
                    va2,
                ),
        decreases segments@.len() - i,
    {
        proof {
            lemma_total_pages_prefix(segments@, i as int);
            lemma_page_count_nonneg(segments@[i as int].len);
        }
        let ghost mpre = m;
        let s = Segment {
            vaddr: segments[i].vaddr,
            paddr: segments[i].paddr,
            len: segments[i].len,
            flags: segments[i].flags,
        };
        m.map(s);
        proof {
            let segs1 = segments@.subrange(0, i as int + 1);
            assert(segs1.drop_last() =~= segments@.subrange(0, i as int));
            assert(segs1.last() == segments@[i as int]);
            assert forall|va2: u64|
                va2 <= crate::config::MAX_VA implies #[trigger] m.translate(va2)
                == segments_translate(segs1, va2) by {
                assert(mpre.translate(va2) == segments_translate(
                    segments@.subrange(0, i as int),
                    va2,
                ));
            }
        }
        i = i + 1;
    }
    proof {
        assert(segments@.subrange(0, segments@.len() as int) =~= segments@);
    }
    m
}

/// The kernel's boot segments: the kernel image and the rest of RAM,
/// identity-mapped with the appropriate permissions; the MMIO windows of
/// the UART, CLINT, PLIC and virtio devices, identity-mapped
/// read-and-write; and the trampoline page, mapped at its fixed virtual
/// address on top of the address space.
pub fn kernel_segments(
    text_start: u64,
    rodata_start: u64,
    data_start: u64,
    bss_start: u64,
    kernel_end: u64,
    trampoline_paddr: u64,
) -> (segs: Vec<Segment>)
    requires
        text_start & 0xfff == 0,
        rodata_start & 0xfff == 0,
        data_start & 0xfff == 0,
        bss_start & 0xfff == 0,
        kernel_end & 0xfff == 0,
        trampoline_paddr & 0xfff == 0,
        trampoline_paddr <= crate::config::HIGH_MEMORY,
        crate::config::DRAM_BASE <= text_start <= rodata_start <= data_start <= bss_start
            <= kernel_end <= crate::config::HIGH_MEMORY,
    ensures
        segs@.len() == 10,
        forall|i: int| 0 <= i < segs@.len() ==> segment_ok(#[trigger] segs@[i]),
        segs@[0] == (Segment {
            vaddr: text_start,
            paddr: text_start,
            len: (rodata_start - text_start) as u64,
            flags: PTE_EXECUTE | PTE_READ,
        }),
        segs@[9] == (Segment {
            vaddr: crate::config::TRAMPOLINE_VA,
            paddr: trampoline_paddr,
            len: crate::config::PAGE_SIZE,
            flags: PTE_EXECUTE | PTE_READ,
        }),
        total_pages(segs@) <= 0x60000,
    {
    let rx: u8 = PTE_EXECUTE | PTE_READ;
    let ro: u8 = PTE_READ;
    let rw: u8 = PTE_READ | PTE_WRITE;
    proof {
        assert(((PTE_EXECUTE | PTE_READ) & (PTE_READ | PTE_EXECUTE)) != 0 && (PTE_READ & (PTE_READ
            | PTE_EXECUTE)) != 0 && ((PTE_READ | PTE_WRITE) & (PTE_READ | PTE_EXECUTE)) != 0)
            by (bit_vector);
        assert(0x1000_0000u64 & 0xfff == 0 && 0x200_0000u64 & 0xfff == 0 && 0xc00_0000u64 & 0xfff
            == 0 && 0x1000_1000u64 & 0xfff == 0 && 0x7f_ffff_f000u64 & 0xfff == 0)
            by (bit_vector);
        assert(page_count(4096u64) == 1 && page_count(100u64) == 1 && page_count(0x10000u64)
            == 0x10 && page_count(0x21_6000u64) == 0x216 && page_count(0x1000u64) == 1);
    }
    let mut segs: Vec<Segment> = Vec::new();
    segs.push(
        Segment {
            vaddr: text_start,
            paddr: text_start,
            len: rodata_start - text_start,
            flags: rx,
        },
    );
    segs.push(
        Segment {
            vaddr: rodata_start,
            paddr: rodata_start,
            len: data_start - rodata_start,
            flags: ro,
        },
    );
    segs.push(
        Segment { vaddr: data_start, paddr: data_start, len: bss_start - data_start, flags: rw },
    );
    segs.push(
        Segment { vaddr: bss_start, paddr: bss_start, len: kernel_end - bss_start, flags: rw },
    );
    segs.push(
        Segment {
            vaddr: kernel_end,
            paddr: kernel_end,
            len: crate::config::HIGH_MEMORY - kernel_end,
            flags: rw,
        },
    );
    segs.push(
        Segment {
            vaddr: crate::config::UART_BASE,
            paddr: crate::config::UART_BASE,
            len: 100,
            flags: rw,
        },
    );
    segs.push(
        Segment {
            vaddr: crate::config::CLINT_BASE,
            paddr: crate::config::CLINT_BASE,
            len: crate::config::CLINT_SIZE,
            flags: rw,
        },
    );
    segs.push(
        Segment {
            vaddr: crate::config::PLIC_BASE,
            paddr: crate::config::PLIC_BASE,
            len: crate::config::PLIC_SIZE,
            flags: rw,
        },
    );
    segs.push(
        Segment {
            vaddr: crate::config::VIRTIO_BASE,
            paddr: crate::config::VIRTIO_BASE,
            len: crate::config::VIRTIO_SIZE,
            flags: rw,
        },
    );
    segs.push(
        Segment {
            vaddr: crate::config::TRAMPOLINE_VA,
            paddr: trampoline_paddr,
            len: crate::config::PAGE_SIZE,
            flags: rx,
        },
    );
    proof {
        lemma_page_count_bound(segs@[0].len);
        assert(segment_ok(segs@[0]));
        lemma_page_count_bound(segs@[1].len);
        assert(segment_ok(segs@[1]));
        lemma_page_count_bound(segs@[2].len);
        assert(segment_ok(segs@[2]));
        lemma_page_count_bound(segs@[3].len);
        assert(segment_ok(segs@[3]));
        lemma_page_count_bound(segs@[4].len);
        assert(segment_ok(segs@[4]));
        lemma_page_count_bound(segs@[5].len);
        assert(segment_ok(segs@[5]));
        lemma_page_count_bound(segs@[6].len);
        assert(segment_ok(segs@[6]));
        lemma_page_count_bound(segs@[7].len);
        assert(segment_ok(segs@[7]));
        lemma_page_count_bound(segs@[8].len);
        assert(segment_ok(segs@[8]));
        lemma_page_count_bound(segs@[9].len);
        assert(segment_ok(segs@[9]));
        assert forall|i: int| 0 <= i < segs@.len() implies segment_ok(#[trigger] segs@[i]) by {
            lemma_page_count_bound(segs@[i].len);
        }
        lemma_total_pages_10(segs@);
    }
    segs
}

/// Checks that the live tree really implements an identity translation at
/// one probe address inside RAM, by walking it.
pub fn test(m: &mut Mapping)
    requires
        old(m).wf(),
        old(m).translate((crate::config::DRAM_BASE + 0x2000) as u64) == Some(
            (crate::config::DRAM_BASE + 0x2000) as u64,
        ),
    ensures
        *final(m) == *old(m),
{
    let vaddr: u64 = crate::config::DRAM_BASE + 0x2000;
    proof {
        assert((0x8000_2000u64 & 0xffff_ffff_ffff_f000) == 0x8000_2000u64) by (bit_vector);
    }
    let r = m.walk(vaddr);
    proof {
        assert(r == Some(vaddr));
    }
}

/// Page-table walk correctness over an identity-mapped region: when the
/// boot segments identity-map a range, every canonical address of the
/// range — in particular every page-aligned one — walks to itself, and an
/// address no segment covers walks to nothing.
pub proof fn lemma_identity_walk(segs: Seq<Segment>, m: Mapping, va: u64)
    requires
        forall|va2: u64|
            va2 <= crate::config::MAX_VA ==> #[trigger] m.translate(va2) == segments_translate(
                segs,
                va2,
            ),
        forall|i: int|
            0 <= i < segs.len() ==> (#[trigger] segs[i]).vaddr == segs[i].paddr,
        va <= crate::config::MAX_VA,
    ensures
        (exists|i: int|
            0 <= i < segs.len() && (#[trigger] segs[i]).vaddr <= va < segs[i].vaddr + page_count(
                segs[i].len,
            ) * 4096) ==> m.translate(va) == Some(va),
        (forall|i: int|
            0 <= i < segs.len() ==> !((#[trigger] segs[i]).vaddr <= va < segs[i].vaddr
                + page_count(segs[i].len) * 4096)) ==> m.translate(va) is None,
{
    lemma_segments_translate_identity(segs, va);
}

/// Identity segments translate to the address itself or to nothing.
proof fn lemma_segments_translate_identity(segs: Seq<Segment>, va: u64)
    requires
        forall|i: int| 0 <= i < segs.len() ==> (#[trigger] segs[i]).vaddr == segs[i].paddr,
    ensures
        (exists|i: int|
            0 <= i < segs.len() && (#[trigger] segs[i]).vaddr <= va < segs[i].vaddr + page_count(
                segs[i].len,
            ) * 4096) ==> segments_translate(segs, va) == Some(va),
        (forall|i: int|
            0 <= i < segs.len() ==> !((#[trigger] segs[i]).vaddr <= va < segs[i].vaddr
                + page_count(segs[i].len) * 4096)) ==> segments_translate(segs, va) is None,
    decreases segs.len(),
{
    if segs.len() > 0 {
        lemma_segments_translate_identity(segs.drop_last(), va);
        let s = segs.last();
        if s.vaddr <= va < s.vaddr + page_count(s.len) * 4096 {
        } else {
            assert forall|i: int|
                0 <= i < segs.drop_last().len() && (#[trigger] segs.drop_last()[i]).vaddr <= va
                    < segs.drop_last()[i].vaddr + page_count(segs.drop_last()[i].len)
                    * 4096 implies segments_translate(segs, va) == Some(va) by {
                assert(segs.drop_last()[i] == segs[i]);
            }
            if exists|i: int|
                0 <= i < segs.len() && (#[trigger] segs[i]).vaddr <= va < segs[i].vaddr
                    + page_count(segs[i].len) * 4096 {
                let i = choose|i: int|
                    0 <= i < segs.len() && (#[trigger] segs[i]).vaddr <= va < segs[i].vaddr
                        + page_count(segs[i].len) * 4096;
                assert(i < segs.len() - 1);
                assert(segs.drop_last()[i] == segs[i]);
            }
        }
    }
}

/// `page_count` really covers the length and never overshoots by a page.
proof fn lemma_page_count_bound(len: u64)
    ensures
        len <= page_count(len) * 4096 <= len + 4095,
        page_count(len) >= 0,
{
    vstd::arithmetic::div_mod::lemma_fundamental_div_mod(len as int, 4096);
}

/// Page counts are never negative.
proof fn lemma_page_count_nonneg(len: u64)
    ensures
        page_count(len) >= 0,
{
    vstd::arithmetic::div_mod::lemma_fundamental_div_mod(len as int, 4096);
}

/// Splitting the budget of a segment list at a prefix.
proof fn lemma_total_pages_prefix(segs: Seq<Segment>, i: int)
    requires
        0 <= i < segs.len(),
    ensures
        total_pages(segs.subrange(0, i + 1)) == total_pages(segs.subrange(0, i)) + page_count(
            segs[i].len,
        ),
        total_pages(segs.subrange(0, i + 1)) <= total_pages(segs),
    decreases segs.len() - i,
{
    let a = segs.subrange(0, i + 1);
    assert(a.drop_last() =~= segs.subrange(0, i));
    if i + 1 == segs.len() {
        assert(segs.subrange(0, i + 1) =~= segs);
    } else {
        lemma_total_pages_prefix(segs, i + 1);
        lemma_page_count_nonneg(segs[i + 1].len);
    }
}

/// The concrete budget of the ten boot segments.
proof fn lemma_total_pages_10(segs: Seq<Segment>)
    requires
        segs.len() == 10,
        forall|i: int| 0 <= i < 10 ==> (#[trigger] segs[i]).len <= 0x800_0000,
    ensures
        total_pages(segs) <= 0x60000,
{
    assert forall|i: int| 0 <= i < 10 implies page_count((#[trigger] segs[i]).len) <= 0x8001 by {
        lemma_page_count_bound(segs[i].len);
    }
    assert(segs.subrange(0, 0) =~= Seq::<Segment>::empty());
    assert(total_pages(segs.subrange(0, 0)) == 0);
    assert(segs.subrange(0, 1).drop_last() =~= segs.subrange(0, 0));
    assert(segs.subrange(0, 1).last() == segs[0]);
    assert(total_pages(segs.subrange(0, 1)) <= 1 * 0x8001);
    assert(segs.subrange(0, 2).drop_last() =~= segs.subrange(0, 1));
    assert(segs.subrange(0, 2).last() == segs[1]);
    assert(total_pages(segs.subrange(0, 2)) <= 2 * 0x8001);
    assert(segs.subrange(0, 3).drop_last() =~= segs.subrange(0, 2));
    assert(segs.subrange(0, 3).last() == segs[2]);
    assert(total_pages(segs.subrange(0, 3)) <= 3 * 0x8001);
    assert(segs.subrange(0, 4).drop_last() =~= segs.subrange(0, 3));
    assert(segs.subrange(0, 4).last() == segs[3]);
    assert(total_pages(segs.subrange(0, 4)) <= 4 * 0x8001);
    assert(segs.subrange(0, 5).drop_last() =~= segs.subrange(0, 4));
    assert(segs.subrange(0, 5).last() == segs[4]);
    assert(total_pages(segs.subrange(0, 5)) <= 5 * 0x8001);
    assert(segs.subrange(0, 6).drop_last() =~= segs.subrange(0, 5));
    assert(segs.subrange(0, 6).last() == segs[5]);
    assert(total_pages(segs.subrange(0, 6)) <= 6 * 0x8001);
    assert(segs.subrange(0, 7).drop_last() =~= segs.subrange(0, 6));
    assert(segs.subrange(0, 7).last() == segs[6]);
    assert(total_pages(segs.subrange(0, 7)) <= 7 * 0x8001);
    assert(segs.subrange(0, 8).drop_last() =~= segs.subrange(0, 7));
    assert(segs.subrange(0, 8).last() == segs[7]);
    assert(total_pages(segs.subrange(0, 8)) <= 8 * 0x8001);
    assert(segs.subrange(0, 9).drop_last() =~= segs.subrange(0, 8));
    assert(segs.subrange(0, 9).last() == segs[8]);
    assert(total_pages(segs.subrange(0, 9)) <= 9 * 0x8001);
    assert(segs.subrange(0, 10).drop_last() =~= segs.subrange(0, 9));
    assert(segs.subrange(0, 10).last() == segs[9]);
    assert(total_pages(segs.subrange(0, 10)) <= 10 * 0x8001);
    assert(segs.subrange(0, 10) =~= segs);
}

/// A table frame's 512 zeroed entries.
fn zeroed_entries() -> (r: Vec<u64>)
    ensures
        r@.len() == 512,
        forall|k: int| 0 <= k < 512 ==> r@[k] == 0,
{
    let mut v: Vec<u64> = Vec::new();
    let mut i: usize = 0;
    while i < 512
        invariant
            i <= 512,
            v@.len() == i,
            forall|k: int| 0 <= k < i ==> v@[k] == 0,
        decreases 512 - i,
    {
        v.push(0);
        i = i + 1;
    }
    v
}

/// Reads the entry that `va` selects in this table at the given level.
fn read_entry(t: &PageTable, va: u64, level: u8) -> (e: u64)
    requires
        t.entries@.len() == 512,
        level <= 2,
    ensures
        e == t.entries@[vpn_slot(va, level as int)],
{
    let slot: usize = if level == 2 {
        (((va >> 30u64) & 0x1ff) as usize)
    } else if level == 1 {
        (((va >> 21u64) & 0x1ff) as usize)
    } else {
        (((va >> 12u64) & 0x1ff) as usize)
    };
    proof {
        assert((va >> 30u64) & 0x1ff < 512 && (va >> 21u64) & 0x1ff < 512 && (va >> 12u64) & 0x1ff
            < 512) by (bit_vector);
    }
    t.entries[slot]
}

/// The valid bit, executably.
fn pte_valid_exec(e: u64) -> (r: bool)
    ensures
        r == pte_is_valid(e),
{
    e & (PTE_VALID as u64) != 0
}

/// The link test, executably.
fn pte_link_exec(e: u64) -> (r: bool)
    ensures
        pte_is_valid(e) ==> r == pte_is_link(e),
        !pte_is_valid(e) ==> r == (e & (PTE_READ as u64) == 0 && e & (PTE_EXECUTE as u64) == 0),
{
    e & (PTE_READ as u64) == 0 && e & (PTE_EXECUTE as u64) == 0
}

/// The stored page number, executably.
fn pte_ppn_exec(e: u64) -> (r: u64)
    ensures
        r == pte_ppn(e),
{
    (e & 0x003f_ffff_ffff_fc00) >> 10u64
}

/// Facts about the flag bits as plain numbers.
proof fn lemma_pte_bits()
    by (bit_vector)
    ensures
        forall|e: u64| #[trigger] (e & 1u64) == e & (PTE_VALID as u64),
{
}

/// A stored page number fits in 44 bits, so shifting it to a frame
/// address cannot overflow, and adding a sub-frame offset stays in range.
proof fn lemma_ppn_shift(e: u64)
    by (bit_vector)
    ensures
        ((e & 0x003f_ffff_ffff_fc00) >> 10u64) < 0x1_0000_0000_0000,
        (((e & 0x003f_ffff_ffff_fc00) >> 10u64) << 12u64) <= 0x0fff_ffff_ffff_f000,
        (((e & 0x003f_ffff_ffff_fc00) >> 10u64) << 12u64) + 0x3fff_ffff <= u64::MAX,
{
}


/// Where each link of the post state points: the two path slots hold the
/// fresh or pre-existing path frames, every other link is an untouched
/// entry of the pre state, whose target number stays below the old
/// arena bound.
proof fn lemma_map_one_link_targets(
    pre: Mapping,
    post: Mapping,
    vaddr: u64,
    paddr: u64,
    flags: u8,
    created2: bool,
    created1: bool,
    t1: int,
    t0: int,
    i: int,
    k: int,
)
    requires
        map_one_shape(pre, post, vaddr, paddr, flags, created2, created1, t1, t0),
        0 <= i < post.tables@.len(),
        0 <= k < 512,
        pte_is_link(post.tables@[i].entries@[k]),
    ensures
        (i == 0 && k == vpn_slot(vaddr, 2) && created2) ==> pte_ppn(post.tables@[i].entries@[k])
            == pre.next_ppn,
        (i == t1 && k == vpn_slot(vaddr, 1) && created1) ==> pte_ppn(post.tables@[i].entries@[k])
            == (if created2 {
            (pre.next_ppn + 1) as u64
        } else {
            pre.next_ppn
        }),
        !((i == 0 && k == vpn_slot(vaddr, 2) && created2) || (i == t1 && k == vpn_slot(vaddr, 1)
            && created1)) ==> {
            &&& i < pre.tables@.len()
            &&& post.tables@[i].entries@[k] == pre.tables@[i].entries@[k]
            &&& pte_is_link(pre.tables@[i].entries@[k])
            &&& pte_ppn(post.tables@[i].entries@[k]) < pre.next_ppn
        },
{
    let li = pre.tables@.len() as int;
    let s2 = vpn_slot(vaddr, 2);
    let s1 = vpn_slot(vaddr, 1);
    let s0 = vpn_slot(vaddr, 0);
    let leafv = ((paddr >> 12u64) << 10u64) | (flags as u64);
    lemma_va_bits(vaddr);
    lemma_flags_bridge(flags);
    lemma_leaf_value(paddr, flags as u64);
    if created2 {
        lemma_link_value(pre.next_ppn);
        lemma_link_value((pre.next_ppn + 1) as u64);
    } else if created1 {
        lemma_link_value(pre.next_ppn);
    }
    lemma_va_bits(0);
    if i == 0 && k == s2 && created2 {
    } else if i == t1 && k == s1 && created1 {
    } else if i == t0 && k == s0 {
        // the leaf slot holds no link
        assert(post.tables@[i].entries@[k] == leafv);
        assert(false);
    } else {
        if i >= li {
            // a fresh table's other entries are zero, hence not links
            assert(post.tables@[i].entries@[k] == 0);
            assert(false);
        }
        assert(post.tables@[i].entries@[k] == pre.tables@[i].entries@[k]);
        let e = pre.tables@[i].entries@[k];
        let j = choose|j: int|
            1 <= j < pre.tables@.len() && (#[trigger] pre.tables@[j]).ppn == pte_ppn(e)
                && pre.tables@[j].level == pre.tables@[i].level - 1;
        assert(pre.tables@[j].ppn < pre.next_ppn);
    }
}

/// The translation of a single canonical address after `map_one`: the
/// target page goes to the target frame, every other address exactly as
/// before.
#[verifier::rlimit(100)]
#[verifier::spinoff_prover]
proof fn lemma_map_one_translate(
    pre: Mapping,
    post: Mapping,
    vaddr: u64,
    paddr: u64,
    flags: u8,
    created2: bool,
    created1: bool,
    t1: int,
    t0: int,
    va2: u64,
)
    requires
        map_one_shape(pre, post, vaddr, paddr, flags, created2, created1, t1, t0),
        post.wf(),
        va2 <= crate::config::MAX_VA,
    ensures
        post.translate(va2) == (if va2 >> 12u64 == vaddr >> 12u64 {
            Some((paddr + (va2 & 0xfff)) as u64)
        } else {
            pre.translate(va2)
        }),
{
    reveal_with_fuel(Mapping::translate_from, 4);
    let li = pre.tables@.len() as int;
    let s2 = vpn_slot(vaddr, 2);
    let s1 = vpn_slot(vaddr, 1);
    let s0 = vpn_slot(vaddr, 0);
    let r2 = vpn_slot(va2, 2);
    let r1 = vpn_slot(va2, 1);
    let r0 = vpn_slot(va2, 0);
    let leafv = ((paddr >> 12u64) << 10u64) | (flags as u64);
    let p1 = post.tables@[t1].ppn;
    let p0 = post.tables@[t0].ppn;
    lemma_va_bits(vaddr);
    assert((va2 >> 30u64) & 0x1ff < 512 && (va2 >> 21u64) & 0x1ff < 512 && (va2 >> 12u64) & 0x1ff
        < 512) by (bit_vector);
    
    lemma_page_eq(va2, vaddr);
    lemma_flags_bridge(flags);
    lemma_leaf_value(paddr, flags as u64);
    assert(p1 < 0x1000_0000_0000 && p0 < 0x1000_0000_0000);
    lemma_link_value(p1);
    lemma_link_value(p0);
    lemma_va_bits(0);
    // The path entries of the post state.
    assert(pte_is_link(post.tables@[0].entries@[s2]) && pte_ppn(post.tables@[0].entries@[s2])
        == p1);
    assert(pte_is_link(post.tables@[t1].entries@[s1]) && pte_ppn(post.tables@[t1].entries@[s1])
        == p0);
    assert(post.tables@[t0].entries@[s0] == leafv);
    lemma_table_index_of(post, t1);
    lemma_table_index_of(post, t0);
    if !created2 {
        lemma_table_index_of(pre, t1);
    }
    if !created1 {
        lemma_table_index_of(pre, t0);
    }
    if r2 == s2 && r1 == s1 && r0 == s0 {
        // The target page itself.
        assert(va2 >> 12u64 == vaddr >> 12u64);
        assert(post.translate(va2) == Some((((pte_ppn(leafv) << 12u64) as u64) + offset_in(va2, 0))
            as u64));
        assert(post.translate(va2) == Some((paddr + (va2 & 0xfff)) as u64));
    } else if r2 != s2 {
        assert(va2 >> 12u64 != vaddr >> 12u64);
        let e2 = pre.tables@[0].entries@[r2];
        assert(post.tables@[0].entries@[r2] == e2);
        if !pte_is_valid(e2) {
            assert(post.translate(va2) is None && pre.translate(va2) is None);
        } else {
            assert(pte_is_link(e2));
            let j = choose|j: int|
                1 <= j < pre.tables@.len() && (#[trigger] pre.tables@[j]).ppn == pte_ppn(e2)
                    && pre.tables@[j].level == pre.tables@[0].level - 1;
            lemma_table_index_of(pre, j);
            lemma_map_one_other_path(
                pre,
                post,
                vaddr,
                paddr,
                flags,
                created2,
                created1,
                t1,
                t0,
                va2,
                j,
                0,
                r2,
            );
            assert(post.tables@[j].ppn == pre.tables@[j].ppn && post.tables@[j].entries@
                == pre.tables@[j].entries@);
            lemma_table_index_of(post, j);
            lemma_map_one_lower_levels(
                pre,
                post,
                vaddr,
                paddr,
                flags,
                created2,
                created1,
                t1,
                t0,
                va2,
                j,
            );
        }
    } else if r1 != s1 {
        assert(va2 >> 12u64 != vaddr >> 12u64);
        // The walk shares the root entry, then diverges inside t1.
        if created2 {
            assert(post.tables@[t1].entries@[r1] == zero_entries_seq()[r1]);
            assert(!pte_is_valid(post.tables@[t1].entries@[r1]));
            assert(post.translate(va2) is None);
            assert(!pte_is_valid(pre.tables@[0].entries@[s2]));
            assert(pre.translate(va2) is None);
        } else {
            assert(pte_is_link(pre.tables@[0].entries@[s2]) && pte_ppn(
                pre.tables@[0].entries@[s2],
            ) == p1);
            let e1 = pre.tables@[t1].entries@[r1];
            assert(post.tables@[t1].entries@[r1] == e1);
            if !pte_is_valid(e1) {
                assert(post.translate(va2) is None && pre.translate(va2) is None);
            } else {
                assert(pre.tables@[t1].level == 1);
                assert(pte_is_link(e1));
                let j0 = choose|j: int|
                    1 <= j < pre.tables@.len() && (#[trigger] pre.tables@[j]).ppn == pte_ppn(e1)
                        && pre.tables@[j].level == pre.tables@[t1].level - 1;
                lemma_table_index_of(pre, j0);
                lemma_map_one_other_path(
                    pre,
                    post,
                    vaddr,
                    paddr,
                    flags,
                    created2,
                    created1,
                    t1,
                    t0,
                    va2,
                    j0,
                    t1,
                    r1,
                );
                assert(post.tables@[j0].ppn == pre.tables@[j0].ppn && post.tables@[j0].entries@
                    == pre.tables@[j0].entries@);
                lemma_table_index_of(post, j0);
                assert(post.translate_from(j0, 0, va2) == pre.translate_from(j0, 0, va2));
            }
        }
    } else {
        // Same root slot and same middle slot, different last slot.
        assert(r0 != s0);
        assert(va2 >> 12u64 != vaddr >> 12u64);
        if created2 {
            assert(post.tables@[t0].entries@[r0] == zero_entries_seq()[r0]);
            assert(!pte_is_valid(post.tables@[t0].entries@[r0]));
            assert(post.translate(va2) is None);
            assert(!pte_is_valid(pre.tables@[0].entries@[s2]));
            assert(pre.translate(va2) is None);
        } else if created1 {
            assert(post.tables@[t0].entries@[r0] == zero_entries_seq()[r0]);
            assert(!pte_is_valid(post.tables@[t0].entries@[r0]));
            assert(post.translate(va2) is None);
            assert(!pte_is_valid(pre.tables@[t1].entries@[s1]));
            assert(pre.translate(va2) is None);
        } else {
            let e0 = pre.tables@[t0].entries@[r0];
            assert(post.tables@[t0].entries@[r0] == e0);
            assert(pre.tables@[t0].level == 0);
            if !pte_is_valid(e0) {
                assert(post.translate(va2) is None && pre.translate(va2) is None);
            } else if pte_is_link(e0) {
                assert(post.translate(va2) is None && pre.translate(va2) is None);
            } else {
                assert(post.translate(va2) == pre.translate(va2));
            }
        }
    }
}

/// A table reached by a link off the mapped path is untouched: it is not
/// one of the path frames, because link targets are unique.
proof fn lemma_map_one_other_path(
    pre: Mapping,
    post: Mapping,
    vaddr: u64,
    paddr: u64,
    flags: u8,
    created2: bool,
    created1: bool,
    t1: int,
    t0: int,
    va2: u64,
    j: int,
    src: int,
    slot: int,
)
    requires
        map_one_shape(pre, post, vaddr, paddr, flags, created2, created1, t1, t0),
        1 <= j < pre.tables@.len(),
        0 <= src < pre.tables@.len(),
        0 <= slot < 512,
        pte_is_link(pre.tables@[src].entries@[slot]),
        pte_ppn(pre.tables@[src].entries@[slot]) == pre.tables@[j].ppn,
        !(src == 0 && slot == vpn_slot(vaddr, 2)),
        !(src == t1 && slot == vpn_slot(vaddr, 1) && !created2),
    ensures
        j != t1 || created2,
        j != t0 || created1,
        post.tables@[j].ppn == pre.tables@[j].ppn,
        post.tables@[j].level == pre.tables@[j].level,
        post.tables@[j].entries@ == pre.tables@[j].entries@,
{
    let li = pre.tables@.len() as int;
    let s2 = vpn_slot(vaddr, 2);
    let s1 = vpn_slot(vaddr, 1);
    lemma_va_bits(vaddr);
    // j is the target of the pre link at (src, slot). The path frames are
    // either fresh (numbered at or past the old arena bound) or targets
    // of the pre links at (0, s2) and (t1, s1), which are different link
    // slots.
    if !created2 {
        if j == t1 {
            assert(pte_ppn(pre.tables@[src].entries@[slot]) == pte_ppn(
                pre.tables@[0].entries@[s2],
            ));
            assert(false);
        }
    }
    if !created1 {
        if j == t0 {
            assert(pte_ppn(pre.tables@[src].entries@[slot]) == pte_ppn(
                pre.tables@[t1].entries@[s1],
            ));
            assert(false);
        }
    }
}

/// Below a shared, untouched level-1 table the walks of the two states
/// agree: its level-0 targets are untouched too.
proof fn lemma_map_one_lower_levels(
    pre: Mapping,
    post: Mapping,
    vaddr: u64,
    paddr: u64,
    flags: u8,
    created2: bool,
    created1: bool,
    t1: int,
    t0: int,
    va2: u64,
    j: int,
)
    requires
        map_one_shape(pre, post, vaddr, paddr, flags, created2, created1, t1, t0),
        post.wf(),
        1 <= j < pre.tables@.len(),
        j != t1,
        j != t0,
        pre.tables@[j].level == 1,
        post.tables@[j].ppn == pre.tables@[j].ppn,
        post.tables@[j].level == pre.tables@[j].level,
        post.tables@[j].entries@ == pre.tables@[j].entries@,
        post.table_index(pre.tables@[j].ppn) == j,
        pre.table_index(pre.tables@[j].ppn) == j,
    ensures
        post.translate_from(j, 1, va2) == pre.translate_from(j, 1, va2),
{
    reveal_with_fuel(Mapping::translate_from, 4);
    let r1 = vpn_slot(va2, 1);
    lemma_va_bits(va2);
    let e1 = pre.tables@[j].entries@[r1];
    if pte_is_valid(e1) {
        assert(pte_is_link(e1));
        let j0 = choose|j0: int|
            1 <= j0 < pre.tables@.len() && (#[trigger] pre.tables@[j0]).ppn == pte_ppn(e1)
                && pre.tables@[j0].level == pre.tables@[j].level - 1;
        lemma_table_index_of(pre, j0);
        lemma_map_one_other_path(
            pre,
            post,
            vaddr,
            paddr,
            flags,
            created2,
            created1,
            t1,
            t0,
            va2,
            j0,
            j,
            r1,
        );
        assert(post.tables@[j0].ppn == pre.tables@[j0].ppn && post.tables@[j0].entries@
            == pre.tables@[j0].entries@);
        lemma_table_index_of(post, j0);
        assert(post.translate_from(j0, 0, va2) == pre.translate_from(j0, 0, va2));
    }
}

} // verus!
