//! Kernel heap allocator: a first-fit free list with coalescing.
//!
//! The free list is kept sorted by address, and two free regions are never
//! left exactly adjacent: freeing a region that touches its neighbours
//! merges them into one node. Together with the sorted order this makes
//! the list the unique decomposition of the free byte set into maximal
//! contiguous regions, so the contracts below speak of the set of free
//! bytes (`covered`) and of well-formedness, which determine the list
//! exactly.

use vstd::prelude::*;

verus! {

/// Minimal region size: a free region must be able to hold a list node
/// (two 8-byte words) inside its own memory.
pub const NODE_SIZE: u64 = 16;

/// Alignment of a list node, and so of every free region.
pub const NODE_ALIGN: u64 = 8;

/// One free region of the kernel heap.
#[derive(Debug, Clone, Copy, PartialEq, Eq, Structural)]
pub struct ListNode {
    pub addr: u64,
    pub size: u64,
}

impl ListNode {
    /// A region of `size` bytes at `addr`.
    pub fn new(addr: u64, size: u64) -> (r: ListNode)
        ensures
            r.addr == addr && r.size == size,
    {
        ListNode { addr, size }
    }

    /// First byte address of the region.
    pub fn start_addr(&self) -> (r: u64)
        ensures
            r == self.addr,
    {
        self.addr
    }

    /// One past the last byte address of the region.
    pub fn end_addr(&self) -> (r: u64)
        requires
            self.addr + self.size <= u64::MAX,
        ensures
            r == self.addr + self.size,
    {
        self.addr + self.size
    }
}

/// The byte addresses of the block `[addr, addr + size)`.
pub open spec fn block_range(addr: u64, size: u64) -> Set<int> {
    Set::new(|b: int| addr <= b < addr + size)
}

/// Byte `b` lies inside the region `r`.
pub open spec fn in_region(r: ListNode, b: int) -> bool {
    r.addr <= b < r.addr + r.size
}

/// First-fit free-list allocator over a fixed heap range.
pub struct LinkedListAllocator {
    pub regions: Vec<ListNode>,
}

impl LinkedListAllocator {
    /// Byte `b` lies inside region `i`.
    pub open spec fn region_contains(self, i: int, b: int) -> bool {
        &&& 0 <= i < self.regions@.len()
        &&& self.regions@[i].addr <= b < self.regions@[i].addr + self.regions@[i].size
    }

    /// The set of free byte addresses.
    pub open spec fn covered(self) -> Set<int> {
        Set::new(|b: int| exists|i: int| #[trigger] self.region_contains(i, b))
    }

    /// Well-formed free list: every region is node-aligned, large enough
    /// to hold a node, and does not wrap; regions are sorted by address
    /// and strictly separated (adjacent free regions have been merged).
    pub open spec fn wf(self) -> bool {
        &&& forall|i: int|
            0 <= i < self.regions@.len() ==> {
                &&& (#[trigger] self.regions@[i]).size >= NODE_SIZE
                &&& (self.regions@[i].addr as int) % (NODE_ALIGN as int) == 0
                &&& (self.regions@[i].size as int) % (NODE_ALIGN as int) == 0
                &&& self.regions@[i].addr + self.regions@[i].size <= u64::MAX
            }
        &&& forall|i: int|
            0 <= i < self.regions@.len() - 1 ==> (#[trigger] self.regions@[i]).addr
                + self.regions@[i].size < self.regions@[i + 1].addr
    }

    /// An empty free list: no free bytes at all.
    pub fn new() -> (r: Self)
        ensures
            r.wf(),
            r.regions@.len() == 0,
            r.covered() == Set::<int>::empty(),
    {
        let r = LinkedListAllocator { regions: Vec::new() };
        proof {
            assert(r.covered() =~= Set::<int>::empty());
        }
        r
    }

    /// Seeds the allocator with the whole heap as one free region.
    pub fn init(&mut self, heap_start: u64, heap_size: u64)
        requires
            old(self).regions@.len() == 0,
            heap_start % 8 == 0,
            heap_size % 8 == 0,
            heap_size >= 16,
            heap_start + heap_size <= u64::MAX,
        ensures
            final(self).wf(),
            final(self).covered() == block_range(heap_start, heap_size),
            final(self).regions@.len() == 1,
    {
        self.regions.push(ListNode { addr: heap_start, size: heap_size });
        proof {
            assert forall|b: int|
                block_range(heap_start, heap_size).contains(b) implies self.covered().contains(
                b,
            ) by {
                assert(self.region_contains(0, b));
            }
            assert(self.covered() =~= block_range(heap_start, heap_size));
        }
    }

    /// Returns the region `[addr, addr + size)` to the free list, merging
    /// it with the immediately preceding and/or following free region when
    /// the addresses are exactly adjacent. The freed range must not
    /// overlap any range that is already free: such an overlap is a double
    /// free.
    #[verifier::rlimit(40)]
    pub fn add_free_region(&mut self, addr: u64, size: u64)
        requires
            old(self).wf(),
            addr % 8 == 0,
            size % 8 == 0,
            size >= 16,
            addr + size <= u64::MAX,
            forall|i: int|
                0 <= i < old(self).regions@.len() ==> (addr + size <= (#[trigger] old(
                    self,
                ).regions@[i]).addr || old(self).regions@[i].addr + old(self).regions@[i].size
                    <= addr),
        ensures
            final(self).wf(),
            final(self).covered() == old(self).covered().union(block_range(addr, size)),
    {
        let ghost pre = *old(self);
        let len = self.regions.len();
        // Find the insertion slot: the first region that starts past the
        // freed range.
        let mut idx: usize = 0;
        while idx < len && self.regions[idx].addr < addr
            invariant
                *self == pre,
                pre.wf(),
                len == pre.regions@.len(),
                idx <= len,
                forall|j: int| 0 <= j < idx ==> (#[trigger] pre.regions@[j]).addr < addr,
            decreases len - idx,
        {
            idx = idx + 1;
        }
        proof {
            // No region starts exactly at `addr`: it would overlap.
            if idx < len {
                assert(pre.regions@[idx as int].addr > addr);
            }
            if idx > 0 {
                assert(pre.regions@[idx as int - 1].addr + pre.regions@[idx as int - 1].size
                    <= addr);
            }
        }
        let merge_pred = idx > 0 && self.regions[idx - 1].addr + self.regions[idx - 1].size
            == addr;
        let merge_succ = idx < len && addr + size == self.regions[idx].addr;
        if merge_pred && merge_succ {
            // The freed range exactly bridges its two neighbours.
            let p = self.regions[idx - 1];
            let s = self.regions[idx];
            proof {
                assert(pre.regions@[idx as int].addr + pre.regions@[idx as int].size <= u64::MAX);
            }
            self.regions[idx - 1] = ListNode { addr: p.addr, size: p.size + size + s.size };
            self.regions.remove(idx);
            proof {
                assert(self.regions@ =~= pre.regions@.subrange(0, idx - 1).push(
                    self.regions@[idx - 1],
                ) + pre.regions@.subrange(idx + 1, pre.regions@.len() as int));
                lemma_add_splice(pre, *self, addr, size, idx as int - 1, idx as int + 1);
            }
        } else if merge_pred {
            let p = self.regions[idx - 1];
            self.regions[idx - 1] = ListNode { addr: p.addr, size: p.size + size };
            proof {
                assert(self.regions@ =~= pre.regions@.subrange(0, idx - 1).push(
                    self.regions@[idx - 1],
                ) + pre.regions@.subrange(idx as int, pre.regions@.len() as int));
                lemma_add_splice(pre, *self, addr, size, idx as int - 1, idx as int);
            }
        } else if merge_succ {
            let s = self.regions[idx];
            self.regions[idx] = ListNode { addr, size: size + s.size };
            proof {
                assert(self.regions@ =~= pre.regions@.subrange(0, idx as int).push(
                    self.regions@[idx as int],
                ) + pre.regions@.subrange(idx + 1, pre.regions@.len() as int));
                lemma_add_splice(pre, *self, addr, size, idx as int, idx as int + 1);
            }
        } else {
            self.regions.insert(idx, ListNode { addr, size });
            proof {
                assert(self.regions@ =~= pre.regions@.subrange(0, idx as int).push(
                    self.regions@[idx as int],
                ) + pre.regions@.subrange(idx as int, pre.regions@.len() as int));
                lemma_add_splice(pre, *self, addr, size, idx as int, idx as int);
            }
        }
    }

    /// Rounds an allocation request up to what the free list can carve
    /// out: at least a node's size, and a multiple of the request's
    /// alignment widened to the node alignment.
    pub fn size_by_align(size: u64, align: u64) -> (r: u64)
        requires
            align >= 1,
            align & (align - 1) as u64 == 0,
            size + align + NODE_SIZE + NODE_ALIGN <= u64::MAX,
        ensures
            r >= size,
            r >= NODE_SIZE,
            r % 8 == 0,
            r <= size + align + NODE_SIZE + NODE_ALIGN,
    {
        let align2: u64 = if align < NODE_ALIGN {
            NODE_ALIGN
        } else {
            align
        };
        let size2: u64 = if size < NODE_SIZE {
            NODE_SIZE
        } else {
            size
        };
        proof {
            assert(8u64 & 7 == 0) by (bit_vector);
            let s2 = size2;
            assert(!s2 <= u64::MAX - 16) by (bit_vector)
                requires
                    s2 >= 16,
            ;
        }
        let pad: u64 = (!size2 + 1) & (align2 - 1);
        proof {
            let s2 = size2;
            let a2 = align2;
            assert(pad < a2 && ((s2 + pad) as u64) % 8 == 0) by (bit_vector)
                requires
                    pad == ((!s2 + 1) as u64) & ((a2 - 1) as u64),
                    s2 >= 16,
                    a2 >= 8,
                    a2 & ((a2 - 1) as u64) == 0,
            ;
        }
        size2 + pad
    }

    /// First-fit allocation: takes `size` bytes from the start of the
    /// first (lowest-addressed) free region large enough, splitting off
    /// the remainder as a free region when the remainder can itself hold
    /// a list node, and consuming the whole region otherwise. Returns the
    /// start address, or `None` when no region is large enough — which the
    /// kernel treats as fatal, there being no out-of-memory recovery.
    pub fn find_free_region(&mut self, size: u64) -> (r: Option<u64>)
        requires
            old(self).wf(),
            size >= 16,
            size % 8 == 0,
        ensures
            final(self).wf(),
            r is None ==> *final(self) == *old(self) && forall|i: int|
                0 <= i < old(self).regions@.len() ==> (#[trigger] old(self).regions@[i]).size
                    < size,
            r matches Some(a) ==> exists|i: int|
                {
                    let node = #[trigger] old(self).regions@[i];
                    let excess = node.size - size;
                    &&& 0 <= i < old(self).regions@.len()
                    &&& node.size >= size
                    &&& forall|j: int| 0 <= j < i ==> (#[trigger] old(self).regions@[j]).size < size
                    &&& a == node.addr
                    &&& if excess < NODE_SIZE {
                        &&& final(self).regions@ == old(self).regions@.remove(i)
                        &&& final(self).covered() == old(self).covered().difference(
                            block_range(a, node.size),
                        )
                    } else {
                        &&& final(self).regions@ == old(self).regions@.update(
                            i,
                            ListNode { addr: (a + size) as u64, size: excess as u64 },
                        )
                        &&& final(self).covered() == old(self).covered().difference(
                            block_range(a, size),
                        )
                    }
                },
    {
        let ghost pre = *old(self);
        let len = self.regions.len();
        let mut i: usize = 0;
        while i < len
            invariant
                pre == *old(self),
                *self == pre,
                pre.wf(),
                size >= 16,
                size % 8 == 0,
                len == pre.regions@.len(),
                i <= len,
                forall|j: int| 0 <= j < i ==> (#[trigger] pre.regions@[j]).size < size,
            decreases len - i,
        {
            let node = self.regions[i];
            if node.size >= size {
                let excess = node.size - size;
                if excess < NODE_SIZE {
                    self.regions.remove(i);
                    proof {
                        lemma_take_region(pre, *self, i as int, node.size);
                        let node2 = old(self).regions@[i as int];
                        assert(node2 == node);
                        assert(self.regions@ == old(self).regions@.remove(i as int));
                        assert(self.covered() == old(self).covered().difference(
                            block_range(node.addr, node.size),
                        ));
                    }
                } else {
                    self.regions[i] = ListNode { addr: node.addr + size, size: excess };
                    proof {
                        lemma_take_region(pre, *self, i as int, size);
                        let node2 = old(self).regions@[i as int];
                        assert(node2 == node);
                        assert(self.regions@ == old(self).regions@.update(
                            i as int,
                            ListNode { addr: (node.addr + size) as u64, size: excess },
                        ));
                        assert(self.covered() == old(self).covered().difference(
                            block_range(node.addr, size),
                        ));
                    }
                }
                return Some(node.addr);
            }
            i = i + 1;
        }
        None
    }

    /// The free regions, in address order, as `(address, size)` pairs —
    /// a diagnostic dump of the list for the caller to print.
    pub fn check_order(&self) -> (r: Vec<(u64, u64)>)
        ensures
            r@.len() == self.regions@.len(),
            forall|i: int|
                0 <= i < r@.len() ==> r@[i] == (
                (#[trigger] self.regions@[i]).addr,
                self.regions@[i].size,
            ),
    {
        let mut out: Vec<(u64, u64)> = Vec::new();
        let mut i: usize = 0;
        while i < self.regions.len()
            invariant
                i <= self.regions@.len(),
                out@.len() == i,
                forall|j: int|
                    0 <= j < i ==> out@[j] == (
                    (#[trigger] self.regions@[j]).addr,
                    self.regions@[j].size,
                ),
            decreases self.regions@.len() - i,
        {
            let n = self.regions[i];
            out.push((n.addr, n.size));
            i = i + 1;
        }
        out
    }
}

/// In a well-formed free list the regions are strictly ordered: any
/// earlier region ends before a later one starts.
proof fn lemma_ordered(al: LinkedListAllocator, j: int, k: int)
    requires
        al.wf(),
        0 <= j < k < al.regions@.len(),
    ensures
        al.regions@[j].addr + al.regions@[j].size < al.regions@[k].addr,
    decreases k - j,
{
    if j + 1 < k {
        lemma_ordered(al, j + 1, k);
    }
}

/// Taking `take` bytes from the front of region `i` — the whole region
/// when `take` is its full size, else leaving the rest as a free region —
/// keeps the list well formed and removes exactly those bytes from the
/// free byte set.
proof fn lemma_take_region(pre: LinkedListAllocator, post: LinkedListAllocator, i: int, take: u64)
    requires
        pre.wf(),
        0 <= i < pre.regions@.len(),
        take >= 16,
        (take as int) % 8 == 0,
        take <= pre.regions@[i].size,
        if take == pre.regions@[i].size {
            post.regions@ == pre.regions@.remove(i)
        } else {
            &&& pre.regions@[i].size - take >= NODE_SIZE
            &&& post.regions@ == pre.regions@.update(
                i,
                ListNode {
                    addr: (pre.regions@[i].addr + take) as u64,
                    size: (pre.regions@[i].size - take) as u64,
                },
            )
        },
    ensures
        post.wf(),
        post.covered() == pre.covered().difference(
            block_range(pre.regions@[i].addr, take),
        ),
{
    let node = pre.regions@[i];
    let plen = pre.regions@.len() as int;
    if take == node.size {
        assert forall|a: int, b: int|
            #![trigger post.regions@[a], post.regions@[b]]
            0 <= a < b < plen - 1 implies post.regions@[a].addr + post.regions@[a].size
            < post.regions@[b].addr by {
            let a2 = if a < i { a } else { a + 1 };
            let b2 = if b < i { b } else { b + 1 };
            lemma_ordered(pre, a2, b2);
        }
        assert(post.wf());
        assert forall|b: int| post.covered().contains(b) implies pre.covered().difference(
            block_range(node.addr, take),
        ).contains(b) by {
            let j = choose|j: int| post.region_contains(j, b);
            let j2 = if j < i { j } else { j + 1 };
            assert(pre.region_contains(j2, b));
            if j2 < i {
                lemma_ordered(pre, j2, i);
            } else {
                lemma_ordered(pre, i, j2);
            }
        }
        assert forall|b: int|
            pre.covered().difference(block_range(node.addr, take)).contains(
                b,
            ) implies post.covered().contains(b) by {
            let j = choose|j: int| pre.region_contains(j, b);
            if j < i {
                assert(post.region_contains(j, b));
            } else if j == i {
                assert(block_range(node.addr, take).contains(b));
            } else {
                assert(post.region_contains(j - 1, b));
            }
        }
        assert(post.covered() =~= pre.covered().difference(block_range(node.addr, take)));
    } else {
        let node2 = post.regions@[i];
        assert forall|a: int, b: int|
            #![trigger post.regions@[a], post.regions@[b]]
            0 <= a < b < plen implies post.regions@[a].addr + post.regions@[a].size
            < post.regions@[b].addr by {
            lemma_ordered(pre, a, b);
        }
        assert(post.wf());
        assert forall|b: int| post.covered().contains(b) implies pre.covered().difference(
            block_range(node.addr, take),
        ).contains(b) by {
            let j = choose|j: int| post.region_contains(j, b);
            assert(pre.region_contains(j, b));
            if j != i {
                if j < i {
                    lemma_ordered(pre, j, i);
                } else {
                    lemma_ordered(pre, i, j);
                }
            }
        }
        assert forall|b: int|
            pre.covered().difference(block_range(node.addr, take)).contains(
                b,
            ) implies post.covered().contains(b) by {
            let j = choose|j: int| pre.region_contains(j, b);
            assert(post.region_contains(j, b));
        }
        assert(post.covered() =~= pre.covered().difference(block_range(node.addr, take)));
    }
}

/// Heap coalescing: when every byte of the contiguous range
/// `[addr, addr + s1 + s2)` is free — say two address-adjacent blocks of
/// sizes `s1` and `s2` were freed — a single free-list node spans the
/// whole range, and no other node touches it.
pub proof fn lemma_adjacent_free_blocks_merged(al: LinkedListAllocator, addr: u64, s1: u64, s2: u64)
    requires
        al.wf(),
        s1 >= 1,
        s2 >= 1,
        addr + s1 + s2 <= u64::MAX,
        forall|b: int| addr <= b < addr + s1 + s2 ==> al.covered().contains(b),
    ensures
        exists|i: int|
            {
                &&& #[trigger] al.region_contains(i, addr as int)
                &&& al.regions@[i].addr <= addr
                &&& addr + s1 + s2 <= al.regions@[i].addr + al.regions@[i].size
                &&& forall|j: int, b: int|
                    0 <= j < al.regions@.len() && j != i && addr <= b < addr + s1 + s2
                        ==> !al.region_contains(j, b)
            },
{
    lemma_range_in_one_region(al, addr as int, addr + s1 + s2);
    let i = choose|i: int|
        0 <= i < al.regions@.len() && (#[trigger] al.regions@[i]).addr <= addr && addr + s1 + s2
            <= al.regions@[i].addr + al.regions@[i].size;
    assert(al.region_contains(i, addr as int));
    assert forall|j: int, b: int|
        0 <= j < al.regions@.len() && j != i && addr <= b < addr + s1 + s2 implies !al.region_contains(
        j,
        b,
    ) by {
        if j < i {
            lemma_ordered(al, j, i);
        } else {
            lemma_ordered(al, i, j);
        }
    }
}

/// Every byte of `[lo, hi)` free implies the whole range lies inside one
/// region: free regions are strictly separated, so two adjacent free
/// bytes always belong to the same region.
proof fn lemma_range_in_one_region(al: LinkedListAllocator, lo: int, hi: int)
    requires
        al.wf(),
        lo < hi,
        forall|b: int| lo <= b < hi ==> al.covered().contains(b),
    ensures
        exists|i: int|
            0 <= i < al.regions@.len() && (#[trigger] al.regions@[i]).addr <= lo && hi
                <= al.regions@[i].addr + al.regions@[i].size,
    decreases hi - lo,
{
    if lo + 1 == hi {
        assert(al.covered().contains(lo));
        let i = choose|i: int| al.region_contains(i, lo);
        assert(al.regions@[i].addr <= lo && hi <= al.regions@[i].addr + al.regions@[i].size);
    } else {
        lemma_range_in_one_region(al, lo, hi - 1);
        let i = choose|i: int|
            0 <= i < al.regions@.len() && (#[trigger] al.regions@[i]).addr <= lo && hi - 1
                <= al.regions@[i].addr + al.regions@[i].size;
        let ghost b1: int = hi - 1;
        assert(al.covered().contains(b1));
        let j = choose|j: int| al.region_contains(j, b1);
        // The bytes hi-2 (in region i) and hi-1 (in region j) are
        // adjacent, so the regions must be one and the same.
        if j < i {
            lemma_ordered(al, j, i);
            assert(false);
        } else if i < j {
            lemma_ordered(al, i, j);
            assert(false);
        }
        assert(al.regions@[i].addr <= lo && hi <= al.regions@[i].addr + al.regions@[i].size);
    }
}

/// Freeing everything restores one node: when the free byte set is
/// exactly the original heap range, the list holds a single region with
/// the heap's own start and size.
pub proof fn lemma_full_heap_single_region(al: LinkedListAllocator, start: u64, size: u64)
    requires
        al.wf(),
        size >= 16,
        start + size <= u64::MAX,
        al.covered() == block_range(start, size),
    ensures
        al.regions@.len() == 1,
        al.regions@[0].addr == start,
        al.regions@[0].size == size,
{
    assert forall|b: int| start <= b < start + size implies al.covered().contains(b) by {
        assert(block_range(start, size).contains(b));
    }
    lemma_range_in_one_region(al, start as int, start + size);
    let i = choose|i: int|
        0 <= i < al.regions@.len() && (#[trigger] al.regions@[i]).addr <= start && start + size
            <= al.regions@[i].addr + al.regions@[i].size;
    // Region i's own bytes are free, so they lie inside the heap range:
    // region i is exactly the range.
    assert(al.region_contains(i, al.regions@[i].addr as int));
    assert(al.covered().contains(al.regions@[i].addr as int));
    assert(al.regions@[i].addr >= start);
    assert(al.region_contains(i, al.regions@[i].addr + al.regions@[i].size - 1));
    assert(al.covered().contains(al.regions@[i].addr + al.regions@[i].size - 1));
    assert(al.regions@[i].addr == start && al.regions@[i].size == size);
    // And no second region can exist: its bytes would lie inside region i.
    if al.regions@.len() > 1 {
        let j: int = if i == 0 {
            1
        } else {
            0
        };
        assert(al.region_contains(j, al.regions@[j].addr as int));
        assert(al.covered().contains(al.regions@[j].addr as int));
        if j < i {
            lemma_ordered(al, j, i);
        } else {
            lemma_ordered(al, i, j);
        }
        assert(false);
    }
    assert(i == 0);
}

/// Replacing the regions `[lo, hi)` of a well-formed free list by the
/// single region `post.regions[lo]`, which covers exactly those regions
/// plus the freed block `[addr, addr + size)`, keeps the list well formed
/// and extends the free byte set by exactly the block.
#[verifier::rlimit(40)]
#[verifier::spinoff_prover]
proof fn lemma_add_splice(
    pre: LinkedListAllocator,
    post: LinkedListAllocator,
    addr: u64,
    size: u64,
    lo: int,
    hi: int,
)
    requires
        pre.wf(),
        addr % 8 == 0,
        size % 8 == 0,
        size >= 16,
        addr + size <= u64::MAX,
        0 <= lo <= hi <= pre.regions@.len(),
        post.regions@ == pre.regions@.subrange(0, lo).push(post.regions@[lo])
            + pre.regions@.subrange(hi, pre.regions@.len() as int),
        ({
            let node = post.regions@[lo];
            &&& node.addr <= addr
            &&& addr + size <= node.addr + node.size
            &&& node.addr + node.size <= u64::MAX
            &&& (node.addr as int) % (NODE_ALIGN as int) == 0
            &&& (node.size as int) % (NODE_ALIGN as int) == 0
            &&& forall|j: int|
                lo <= j < hi ==> node.addr <= (#[trigger] pre.regions@[j]).addr
                    && pre.regions@[j].addr + pre.regions@[j].size <= node.addr + node.size
            &&& forall|b: int|
                #[trigger] in_region(node, b) ==> (addr <= b < addr + size || exists|j: int|
                    lo <= j < hi && (#[trigger] pre.regions@[j]).addr <= b < pre.regions@[j].addr
                        + pre.regions@[j].size)
            &&& (lo > 0 ==> pre.regions@[lo - 1].addr + pre.regions@[lo - 1].size < node.addr)
            &&& (hi < pre.regions@.len() ==> node.addr + node.size < pre.regions@[hi].addr)
        }),
    ensures
        post.wf(),
        post.covered() == pre.covered().union(block_range(addr, size)),
{
    let node = post.regions@[lo];
    let plen = pre.regions@.len() as int;
    let qlen = post.regions@.len() as int;
    assert(qlen == lo + 1 + (plen - hi));
    // Index correspondence between the old and the new list.
    assert(forall|j: int| 0 <= j < lo ==> post.regions@[j] == pre.regions@[j]);
    assert(forall|j: int| lo < j < qlen ==> post.regions@[j] == pre.regions@[j + (hi - lo) - 1]);
    assert(node.size >= size);
    assert forall|i: int| 0 <= i < qlen - 1 implies (#[trigger] post.regions@[i]).addr
        + post.regions@[i].size < post.regions@[i + 1].addr by {
        if i < lo - 1 {
        } else if i == lo - 1 {
        } else if i == lo {
            if hi < plen {
                assert(post.regions@[lo + 1] == pre.regions@[hi]);
            }
        } else {
        }
    }
    assert forall|b: int| post.covered().contains(b) implies pre.covered().union(
        block_range(addr, size),
    ).contains(b) by {
        let i = choose|i: int| post.region_contains(i, b);
        if i < lo {
            assert(pre.region_contains(i, b));
        } else if i == lo {
            assert(in_region(node, b));
            if addr <= b < addr + size {
                assert(block_range(addr, size).contains(b));
            } else {
                let j = choose|j: int|
                    lo <= j < hi && (#[trigger] pre.regions@[j]).addr <= b < pre.regions@[j].addr
                        + pre.regions@[j].size;
                assert(pre.region_contains(j, b));
            }
        } else {
            assert(pre.region_contains(i + (hi - lo) - 1, b));
        }
    }
    assert forall|b: int|
        pre.covered().union(block_range(addr, size)).contains(b) implies post.covered().contains(
        b,
    ) by {
        if block_range(addr, size).contains(b) {
            assert(post.region_contains(lo, b));
        } else {
            let i = choose|i: int| pre.region_contains(i, b);
            if i < lo {
                assert(post.region_contains(i, b));
            } else if i < hi {
                assert(node.addr <= pre.regions@[i].addr);
                assert(pre.regions@[i].addr + pre.regions@[i].size <= node.addr + node.size);
                assert(post.region_contains(lo, b));
            } else {
                assert(post.region_contains(i - (hi - lo) + 1, b));
            }
        }
    }
    assert(post.covered() =~= pre.covered().union(block_range(addr, size)));
}

} // verus!
