//! Physical page allocator.
//!
//! One byte of flags per page in the managed range. Bit 0 marks the page
//! allocated; for the first page of an allocated run, bits 1..8 store the
//! run's order plus one (so a zero there means "not a run head"). A run of
//! `2^order` pages is found by a first-fit linear scan; freeing a run's
//! head clears the whole run, and freeing anything else is a silent no-op.

use vstd::prelude::*;

use crate::config::PAGE_SIZE;

verus! {

/// Per-page bookkeeping byte.
#[derive(Debug, Clone, Copy, PartialEq, Eq, Structural)]
pub struct Page {
    pub flags: u8,
}

impl Page {
    /// The page is part of an allocated run.
    pub fn is_alloc(&self) -> (r: bool)
        ensures
            r == (self.flags & 1 == 1),
    {
        (self.flags & 1) == 1
    }

    /// The page heads an allocated run: its order bits are set.
    pub fn is_first(&self) -> (r: bool)
        ensures
            r == (self.flags & !1u8 != 0),
    {
        (self.flags & !1u8) != 0
    }

    /// Marks the page allocated.
    pub fn set_alloc(&mut self)
        ensures
            final(self).flags == old(self).flags | 1,
    {
        self.flags = self.flags | 1;
    }

    /// Returns the page to the free state.
    pub fn clear(&mut self)
        ensures
            final(self).flags == 0,
    {
        self.flags = 0;
    }

    /// Tags the page as the head of a run of `2^order` pages by storing
    /// `order + 1` in the flag byte's upper bits.
    pub fn set_order(&mut self, order: usize)
        requires
            order + 1 < 128,
        ensures
            final(self).flags == old(self).flags | (((order + 1) as u8) << 1),
    {
        let enc: u8 = ((order + 1) as u8) << 1;
        proof {
            let o = (order + 1) as u8;
            assert(o < 128 ==> (o << 1) & !1 == o << 1) by (bit_vector);
        }
        self.flags = self.flags | (enc & !1u8);
    }

    /// The order stored by `set_order`, or `usize::MAX` when the page is
    /// not the head of a run.
    pub fn get_order(&mut self) -> (r: usize)
        ensures
            *final(self) == *old(self),
            old(self).flags >> 1 == 0 ==> r == usize::MAX,
            old(self).flags >> 1 != 0 ==> r == (old(self).flags >> 1) - 1,
    {
        let tmp = (self.flags & !1u8) >> 1;
        proof {
            lemma_flag_bits(self.flags);
        }
        if tmp == 0 {
            usize::MAX
        } else {
            (tmp - 1) as usize
        }
    }
}

/// Flag-byte bit facts shared by the allocator's proofs.
proof fn lemma_flag_bits(f: u8)
    by (bit_vector)
    ensures
        0u8 & 1 != 1,
        1u8 & 1 == 1,
        1u8 >> 1 == 0,
        0u8 | 1 == 1,
        (f & !1u8) >> 1 == f >> 1,
{
}

/// Run-length shift facts shared by the allocator's proofs.
proof fn lemma_shift_one(order: usize)
    by (bit_vector)
    requires
        order < 64,
    ensures
        1u64 << order >= 1,
        1u64 << (order as u64) == 1u64 << order,
        1u64 << 0usize == 1,
{
}

/// Number of pages in a run of the given order.
pub open spec fn pages_of(order: usize) -> int
    recommends
        order < 64,
{
    (1u64 << order) as int
}

/// Flag byte of a run head of the given order.
pub open spec fn head_flag(order: usize) -> u8
    recommends
        order + 1 < 128,
{
    1u8 | (((order + 1) as u8) << 1)
}

/// Tracks the pages of the managed physical range `[base, base +
/// pages.len() * PAGE_SIZE)`.
pub struct PageAllocator {
    pub pages: Vec<Page>,
    pub base: u64,
}

impl PageAllocator {
    /// The page at index `i` is free.
    pub open spec fn is_free(self, i: int) -> bool {
        self.pages@[i].flags & 1 != 1
    }

    /// The page at index `i` heads an allocated run.
    pub open spec fn is_head(self, i: int) -> bool {
        &&& self.pages@[i].flags & 1 == 1
        &&& self.pages@[i].flags >> 1 != 0
    }

    /// Order of the run headed at index `i`.
    pub open spec fn order_at(self, i: int) -> usize
        recommends
            self.is_head(i),
    {
        ((self.pages@[i].flags >> 1) - 1) as usize
    }

    /// A run of `2^order` free pages starts at index `i`.
    pub open spec fn fits(self, i: int, order: usize) -> bool {
        &&& 0 <= i
        &&& i + pages_of(order) <= self.pages@.len()
        &&& forall|k: int| i <= k < i + pages_of(order) ==> self.is_free(k)
    }

    /// `i` is the lowest index where a run of `2^order` free pages starts.
    pub open spec fn first_fit_at(self, i: int, order: usize) -> bool {
        &&& self.fits(i, order)
        &&& forall|j: int| 0 <= j < i ==> !self.fits(j, order)
    }

    /// Structural invariant: free pages have a zero flag byte; a run head
    /// of order `o` has `2^o` pages behind it inside the range, all marked
    /// allocated and none of them a head.
    pub open spec fn wf(self) -> bool {
        &&& self.base > 0
        &&& (self.base as int) % (PAGE_SIZE as int) == 0
        &&& self.base + self.pages@.len() * PAGE_SIZE <= u64::MAX
        &&& forall|i: int|
            0 <= i < self.pages@.len() && (#[trigger] self.pages@[i].flags) & 1 != 1 ==> self.pages@[i].flags == 0
        &&& forall|i: int|
            0 <= i < self.pages@.len() && #[trigger] self.is_head(i) ==> {
                &&& self.order_at(i) < 64
                &&& i + pages_of(self.order_at(i)) <= self.pages@.len()
                &&& forall|k: int| i < k < i + pages_of(self.order_at(i)) ==> self.pages@[k].flags == 1
            }
    }

    /// The physical address of the page at index `i`.
    pub open spec fn addr_of(self, i: int) -> int {
        self.base + i * PAGE_SIZE
    }

    /// The pages after a run of `2^order` pages has been marked allocated
    /// at index `i`: the head gets the order tag, the rest a bare
    /// allocated bit.
    pub open spec fn marked(self, i: int, order: usize) -> Seq<Page> {
        Seq::new(
            self.pages@.len(),
            |k: int|
                if k == i {
                    Page { flags: head_flag(order) }
                } else if i < k < i + pages_of(order) {
                    Page { flags: 1 }
                } else {
                    self.pages@[k]
                },
        )
    }

    /// The pages after the run headed at index `i` has been cleared.
    pub open spec fn cleared(self, i: int) -> Seq<Page> {
        Seq::new(
            self.pages@.len(),
            |k: int|
                if i <= k < i + pages_of(self.order_at(i)) {
                    Page { flags: 0 }
                } else {
                    self.pages@[k]
                },
        )
    }

    /// A fresh allocator over `npages` pages starting at `base`, all free.
    pub fn new(base: u64, npages: usize) -> (pa: PageAllocator)
        requires
            base > 0,
            base % 4096 == 0,
            base + npages * 4096 <= u64::MAX,
        ensures
            pa.wf(),
            pa.base == base,
            pa.pages@.len() == npages,
            forall|i: int| 0 <= i < npages ==> pa.pages@[i].flags == 0,
    {
        proof {
            lemma_flag_bits(0);
        }
        let mut pages: Vec<Page> = Vec::new();
        let mut i: usize = 0;
        while i < npages
            invariant
                i <= npages,
                pages@.len() == i,
                forall|k: int| 0 <= k < i ==> pages@[k].flags == 0,
            decreases npages - i,
        {
            pages.push(Page { flags: 0 });
            i = i + 1;
        }
        PageAllocator { pages, base }
    }

    /// First-fit allocation of `2^order` contiguous, page-aligned pages.
    /// Returns the physical address of the first page of the lowest run of
    /// `2^order` free pages, or `None` when no such run exists.
    pub fn alloc_pages(&mut self, order: usize) -> (r: Option<u64>)
        requires
            old(self).wf(),
            order < 64,
        ensures
            final(self).wf(),
            final(self).base == old(self).base,
            final(self).pages@.len() == old(self).pages@.len(),
            r is None ==> *final(self) == *old(self) && forall|i: int| !old(self).fits(i, order),
            r matches Some(addr) ==> exists|i: int|
                {
                    &&& #[trigger] old(self).first_fit_at(i, order)
                    &&& addr == old(self).base + i * PAGE_SIZE
                    &&& final(self).pages@ == old(self).marked(i, order)
                },
    {
        let n64: u64 = 1u64 << (order as u64);
        proof {
            let o = order as u64;
            assert(1u64 << o >= 1 && (o < 63 ==> 1u64 << o <= u64::MAX / 2)) by (bit_vector)
                requires
                    o < 64,
            ;
            lemma_shift_one(order);
        }
        let len = self.pages.len();
        if n64 > len as u64 {
            return None;
        }
        let n = n64 as usize;
        let mut i: usize = 0;
        while i <= len - n
            invariant
                old(self).wf(),
                *self == *old(self),
                order < 64,
                n == pages_of(order),
                1 <= n <= len,
                len == self.pages@.len(),
                i <= len,
                forall|j: int| 0 <= j < i ==> !old(self).fits(j, order),
            decreases len - i,
        {
            // Check that the whole candidate run is free.
            let mut all_free = true;
            let mut j: usize = 0;
            while j < n
                invariant
                    *self == *old(self),
                    n == pages_of(order),
                    len == self.pages@.len(),
                    i <= len - n,
                    n <= len,
                    j <= n,
                    all_free ==> forall|k: int| i <= k < i + j ==> old(self).is_free(k),
                    !all_free ==> exists|k: int| i <= k < i + n && !old(self).is_free(k),
                decreases n - j,
            {
                if self.pages[i + j].is_alloc() {
                    proof {
                        assert(!old(self).is_free(i + j));
                    }
                    all_free = false;
                }
                j = j + 1;
            }
            if all_free {
                proof {
                    assert(old(self).first_fit_at(i as int, order));
                    assert(head_flag(order) & 1 == 1 && head_flag(order) >> 1 != 0 && (head_flag(
                        order,
                    ) >> 1) - 1 == order) by (bit_vector)
                        requires
                            order < 64,
                            head_flag(order) == 1u8 | (((order + 1) as u8) << 1),
                    ;
                    lemma_flag_bits(0);
                }
                // Mark the run: every page allocated, the head also tagged
                // with the order.
                let mut k: usize = 0;
                while k < n
                    invariant
                        old(self).wf(),
                        old(self).fits(i as int, order),
                        self.base == old(self).base,
                        n == pages_of(order),
                        len == self.pages@.len() == old(self).pages@.len(),
                        i <= len - n,
                        n <= len,
                        k <= n,
                        order < 64,
                        forall|t: int|
                            0 <= t < len && !(i <= t < i + k) ==> self.pages@[t] == old(
                                self,
                            ).pages@[t],
                        k >= 1 ==> self.pages@[i as int].flags == head_flag(order),
                        forall|t: int| i < t < i + k ==> self.pages@[t].flags == 1,
                    decreases n - k,
                {
                    proof {
                        assert(old(self).is_free(i + k));
                        assert(old(self).pages@[i + k].flags == 0);
                        assert(self.pages@[i + k] == old(self).pages@[i + k]);
                    }
                    let mut p = self.pages[i + k];
                    p.set_alloc();
                    if k == 0 {
                        p.set_order(order);
                        proof {
                            assert((0u8 | 1) | (((order + 1) as u8) << 1) == 1u8 | (((order + 1) as u8)
                                << 1)) by (bit_vector);
                            assert(p.flags == head_flag(order));
                        }
                    } else {
                        proof {
                            lemma_flag_bits(0);
                            assert(p.flags == 1);
                        }
                    }
                    self.pages[i + k] = p;
                    k = k + 1;
                }
                proof {
                    assert(self.pages@ =~= old(self).marked(i as int, order));
                    lemma_marked_wf(*old(self), *self, i as int, order);
                    vstd::arithmetic::mul::lemma_mul_inequality(
                        i as int,
                        len as int,
                        PAGE_SIZE as int,
                    );
                }
                return Some(self.base + (i as u64) * PAGE_SIZE);
            }
            proof {
                let wk = choose|k: int| i <= k < i + n && !old(self).is_free(k);
                assert(!old(self).is_free(wk));
                assert(!old(self).fits(i as int, order));
            }
            i = i + 1;
        }
        proof {
            assert(forall|j: int| 0 <= j < i ==> !old(self).fits(j, order));
            assert(forall|j: int| j >= i ==> !old(self).fits(j, order));
        }
        None
    }

    /// Allocation whose backing pages are handed out zero-filled; the
    /// bookkeeping is exactly that of `alloc`.
    pub fn zalloc(&mut self, order: usize) -> (r: Option<u64>)
        requires
            old(self).wf(),
            order < 64,
        ensures
            final(self).wf(),
            final(self).base == old(self).base,
            final(self).pages@.len() == old(self).pages@.len(),
            r is None ==> *final(self) == *old(self) && forall|i: int| !old(self).fits(i, order),
            r matches Some(addr) ==> exists|i: int|
                {
                    &&& #[trigger] old(self).first_fit_at(i, order)
                    &&& addr == old(self).base + i * PAGE_SIZE
                    &&& final(self).pages@ == old(self).marked(i, order)
                },
    {
        self.alloc_pages(order)
    }

    /// Frees the run whose head page contains `addr`. An address outside
    /// the managed range, or one whose page is not the head of an
    /// allocated run, is ignored: the call is a silent no-op by design, to
    /// tolerate defensive double frees.
    pub fn free(&mut self, addr: u64)
        requires
            old(self).wf(),
        ensures
            final(self).wf(),
            final(self).base == old(self).base,
            final(self).pages@.len() == old(self).pages@.len(),
            ({
                let idx = ((addr - old(self).base) as int) / (PAGE_SIZE as int);
                if addr < old(self).base || addr >= old(self).base + old(self).pages@.len()
                    * PAGE_SIZE {
                    *final(self) == *old(self)
                } else if !old(self).is_head(idx) {
                    *final(self) == *old(self)
                } else {
                    final(self).pages@ == old(self).cleared(idx)
                }
            }),
    {
        if addr < self.base {
            return ;
        }
        let len = self.pages.len();
        proof {
            vstd::arithmetic::mul::lemma_mul_inequality(0, len as int, PAGE_SIZE as int);
        }
        if addr - self.base >= (len as u64) * PAGE_SIZE {
            return ;
        }
        let off = addr - self.base;
        let idx64 = off / PAGE_SIZE;
        proof {
            assert(idx64 < len as u64) by (nonlinear_arith)
                requires
                    off < (len as u64) * PAGE_SIZE,
                    idx64 == off / PAGE_SIZE,
                    PAGE_SIZE == 0x1000u64,
            ;
        }
        let idx = idx64 as usize;
        let mut head = self.pages[idx];
        let order = head.get_order();
        if !head.is_alloc() || order == usize::MAX {
            proof {
                assert(!old(self).is_head(idx as int));
            }
            return ;
        }
        proof {
            assert(old(self).is_head(idx as int));
            assert(order == old(self).order_at(idx as int));
            assert(order < 64 && idx + pages_of(order) <= len);
        }
        let n64: u64 = 1u64 << (order as u64);
        proof {
            lemma_shift_one(order);
        }
        let n = n64 as usize;
        let mut k: usize = 0;
        while k < n
            invariant
                old(self).wf(),
                old(self).is_head(idx as int),
                order == old(self).order_at(idx as int),
                self.base == old(self).base,
                n == pages_of(order),
                len == self.pages@.len() == old(self).pages@.len(),
                idx + n <= len,
                k <= n,
                forall|t: int|
                    0 <= t < len && !(idx <= t < idx + k) ==> self.pages@[t] == old(self).pages@[t],
                forall|t: int| idx <= t < idx + k ==> self.pages@[t].flags == 0,
            decreases n - k,
        {
            let mut p = self.pages[idx + k];
            p.clear();
            self.pages[idx + k] = p;
            k = k + 1;
        }
        proof {
            assert(self.pages@ =~= old(self).cleared(idx as int));
            lemma_cleared_wf(*old(self), *self, idx as int);
        }
    }
}

/// After a run of free pages is marked allocated, the structural
/// invariant still holds.
proof fn lemma_marked_wf(pre: PageAllocator, post: PageAllocator, i: int, order: usize)
    requires
        pre.wf(),
        order < 64,
        pre.fits(i, order),
        post.base == pre.base,
        post.pages@ == pre.marked(i, order),
    ensures
        post.wf(),
{
    lemma_shift_one(order);
    assert(head_flag(order) & 1 == 1 && head_flag(order) >> 1 != 0 && ((head_flag(order) >> 1)
        - 1) as usize == order && 1u8 & 1 == 1 && 1u8 >> 1 == 0 && 0u8 & 1 != 1) by (bit_vector)
        requires
            order < 64,
            head_flag(order) == 1u8 | (((order + 1) as u8) << 1),
    ;
    assert forall|t: int|
        0 <= t < post.pages@.len() && (#[trigger] post.pages@[t].flags) & 1 != 1 implies post.pages@[t].flags
        == 0 by {
        if !(i <= t < i + pages_of(order)) {
            assert(post.pages@[t] == pre.pages@[t]);
        }
    }
    assert forall|t: int| 0 <= t < post.pages@.len() && #[trigger] post.is_head(t) implies {
        &&& post.order_at(t) < 64
        &&& t + pages_of(post.order_at(t)) <= post.pages@.len()
        &&& forall|k: int| t < k < t + pages_of(post.order_at(t)) ==> post.pages@[k].flags == 1
    } by {
        if t == i {
            assert(post.order_at(t) == order);
        } else if i < t < i + pages_of(order) {
            assert(post.pages@[t].flags == 1);
            assert(1u8 >> 1 == 0) by (bit_vector);
            assert(false);
        } else {
            // The old head lies outside the marked run: the marked run's
            // pages were all free and a head is allocated.
            lemma_flag_bits(0);
            if i <= t < i + pages_of(order) {
                assert(pre.is_free(t));
                assert(false);
            }
            assert(post.pages@[t] == pre.pages@[t]);
            assert(pre.is_head(t));
            // The old run cannot overlap the freshly marked one either:
            // every page of the marked run was free, every page of the old
            // run is allocated.
            assert forall|k: int| t < k < t + pages_of(pre.order_at(t)) implies post.pages@[k].flags
                == 1 by {
                assert(t + pages_of(pre.order_at(t)) <= pre.pages@.len());
                assert(0 <= k < post.pages@.len());
                assert(pre.pages@[k].flags == 1);
                if i <= k < i + pages_of(order) {
                    assert(pre.is_free(k));
                    assert(false);
                }
                assert(post.pages@[k] == pre.marked(i, order)[k]);
                assert(post.pages@[k] == pre.pages@[k]);
            }
        }
    }
}

/// There are at least `n` free pages at or after index `idx`.
pub open spec fn free_from(pa: PageAllocator, idx: int, n: int) -> bool
    decreases n,
{
    n <= 0 || exists|i: int|
        0 <= i && idx <= i < pa.pages@.len() && #[trigger] pa.is_free(i) && free_from(
            pa,
            i + 1,
            n - 1,
        )
}

/// A single-page allocation consumes one free page: a state with `n`
/// free pages keeps `n - 1` of them.
pub proof fn lemma_alloc_single_keeps_free(
    pre: PageAllocator,
    post: PageAllocator,
    i: int,
    idx: int,
    n: int,
)
    requires
        pre.first_fit_at(i, 0),
        post.pages@ == pre.marked(i, 0),
        post.base == pre.base,
        free_from(pre, idx, n),
        n >= 1,
    ensures
        free_from(post, idx, n - 1),
{
    assert(pages_of(0) == 1) by {
        lemma_shift_one(0);
    }
    if n >= 2 {
        let w = choose|w: int|
            0 <= w && idx <= w < pre.pages@.len() && #[trigger] pre.is_free(w) && free_from(
                pre,
                w + 1,
                n - 1,
            );
        // The first fit sits at or before any free page, so the tail of
        // the chain lies strictly above it and survives untouched.
        if i > w {
            assert forall|k: int| w <= k < w + pages_of(0) implies pre.is_free(k) by {
                assert(k == w);
            }
            assert(pre.fits(w, 0));
            assert(false);
        }
        lemma_free_chain_preserved(pre, post, i, w + 1, n - 1);
        lemma_free_from_weaken(post, w + 1, idx, n - 1);
    }
}

/// A chain of free pages strictly above the marked page survives the
/// marking.
proof fn lemma_free_chain_preserved(
    pre: PageAllocator,
    post: PageAllocator,
    i: int,
    idx: int,
    m: int,
)
    requires
        post.pages@ == pre.marked(i, 0),
        idx > i,
        free_from(pre, idx, m),
    ensures
        free_from(post, idx, m),
    decreases m,
{
    assert(pages_of(0) == 1) by {
        lemma_shift_one(0);
    }
    if m >= 1 {
        let w = choose|w: int|
            0 <= w && idx <= w < pre.pages@.len() && #[trigger] pre.is_free(w) && free_from(
                pre,
                w + 1,
                m - 1,
            );
        assert(post.pages@[w] == pre.pages@[w]);
        assert(post.is_free(w));
        lemma_free_chain_preserved(pre, post, i, w + 1, m - 1);
        assert(0 <= w && idx <= w < post.pages@.len() && post.is_free(w) && free_from(
            post,
            w + 1,
            m - 1,
        ));
    }
}

/// A chain that starts later also counts from an earlier index.
proof fn lemma_free_from_weaken(pa: PageAllocator, a: int, b: int, n: int)
    requires
        free_from(pa, a, n),
        b <= a,
    ensures
        free_from(pa, b, n),
{
    if n >= 1 {
        let w = choose|w: int|
            0 <= w && a <= w < pa.pages@.len() && #[trigger] pa.is_free(w) && free_from(
                pa,
                w + 1,
                n - 1,
            );
        assert(0 <= w && b <= w < pa.pages@.len() && pa.is_free(w) && free_from(pa, w + 1, n - 1));
    }
}

/// Fewer pages than a chain provides are also provided.
pub proof fn lemma_free_from_mono(pa: PageAllocator, idx: int, m: int, k: int)
    requires
        free_from(pa, idx, m),
        k <= m,
    ensures
        free_from(pa, idx, k),
    decreases m,
{
    if k >= 1 {
        let w = choose|w: int|
            0 <= w && idx <= w < pa.pages@.len() && #[trigger] pa.is_free(w) && free_from(
                pa,
                w + 1,
                m - 1,
            );
        lemma_free_from_mono(pa, w + 1, m - 1, k - 1);
        assert(0 <= w && idx <= w < pa.pages@.len() && pa.is_free(w) && free_from(pa, w + 1, k - 1));
    }
}

/// One first-fit single-page allocation happened between the two states.
pub open spec fn single_page_step(pre: PageAllocator, post: PageAllocator) -> bool {
    exists|i: int|
        #[trigger] pre.first_fit_at(i, 0) && post.pages@ == pre.marked(i, 0) && post.base
            == pre.base
}

/// A single-page step consumes one page of any free chain.
pub proof fn lemma_step_keeps_free(pre: PageAllocator, post: PageAllocator, m: int)
    requires
        single_page_step(pre, post),
        free_from(pre, 0, m),
    ensures
        free_from(post, 0, m - 1),
{
    let i = choose|i: int|
        #[trigger] pre.first_fit_at(i, 0) && post.pages@ == pre.marked(i, 0) && post.base
            == pre.base;
    if m >= 1 {
        lemma_alloc_single_keeps_free(pre, post, i, 0, m);
    }
}

/// A state with a free page lets a single-page allocation succeed.
pub proof fn lemma_free_page_fits(pa: PageAllocator, idx: int, n: int)
    requires
        free_from(pa, idx, n),
        n >= 1,
    ensures
        exists|i: int| pa.fits(i, 0),
{
    assert(pages_of(0) == 1) by {
        lemma_shift_one(0);
    }
    let w = choose|w: int|
        0 <= w && idx <= w < pa.pages@.len() && #[trigger] pa.is_free(w) && free_from(
            pa,
            w + 1,
            n - 1,
        );
    assert forall|k: int| w <= k < w + pages_of(0) implies pa.is_free(k) by {
        assert(k == w);
    }
    assert(pa.fits(w, 0));
}

/// A freed run is available again: after `free` clears the run headed at
/// `idx`, a run of the same or any smaller order fits there, so a
/// following `alloc_pages` of that order cannot return `None` (its
/// contract returns `None` only when no run fits anywhere).
pub proof fn lemma_free_enables_alloc(
    pre: PageAllocator,
    post: PageAllocator,
    idx: int,
    order2: usize,
)
    requires
        pre.wf(),
        0 <= idx < pre.pages@.len(),
        pre.is_head(idx),
        post.pages@ == pre.cleared(idx),
        order2 <= pre.order_at(idx),
    ensures
        post.fits(idx, order2),
{
    let o = pre.order_at(idx);
    let o2 = order2;
    assert(o < 64);
    assert(1u64 << o2 >= 1 && 1u64 << o2 <= 1u64 << o) by (bit_vector)
        requires
            o2 <= o,
            o < 64,
    ;
    lemma_flag_bits(0);
    assert(idx + pages_of(o) <= pre.pages@.len());
    assert forall|k: int| idx <= k < idx + pages_of(o2) implies post.is_free(k) by {
        assert(post.pages@[k].flags == 0);
    }
}

/// After the run headed at `i` is cleared, the structural invariant
/// still holds.
proof fn lemma_cleared_wf(pre: PageAllocator, post: PageAllocator, i: int)
    requires
        pre.wf(),
        0 <= i < pre.pages@.len(),
        pre.is_head(i),
        post.base == pre.base,
        post.pages@ == pre.cleared(i),
    ensures
        post.wf(),
{
    let n = pages_of(pre.order_at(i));
    let o = pre.order_at(i);
    assert(o < 64);
    lemma_shift_one(o);
    assert(n >= 1);
    lemma_flag_bits(0);
    assert forall|t: int|
        0 <= t < post.pages@.len() && (#[trigger] post.pages@[t].flags) & 1 != 1 implies post.pages@[t].flags
        == 0 by {
        if !(i <= t < i + n) {
            assert(post.pages@[t] == pre.pages@[t]);
        }
    }
    assert forall|t: int| 0 <= t < post.pages@.len() && #[trigger] post.is_head(t) implies {
        &&& post.order_at(t) < 64
        &&& t + pages_of(post.order_at(t)) <= post.pages@.len()
        &&& forall|k: int| t < k < t + pages_of(post.order_at(t)) ==> post.pages@[k].flags == 1
    } by {
        if i <= t < i + n {
            assert(post.pages@[t].flags == 0);
            assert(false);
        }
        assert(post.pages@[t] == pre.pages@[t]);
        assert(pre.is_head(t));
        // A surviving head's run cannot reach into the cleared run: the
        // cleared run's own head `i` would have to be a plain body page
        // of the surviving run, and a head's flag byte is never 1.
        if t < i < t + pages_of(pre.order_at(t)) {
            assert(pre.pages@[i].flags == 1);
            assert(pre.pages@[i].flags >> 1 != 0);
            lemma_flag_bits(0);
            assert(false);
        }
        assert forall|k: int| t < k < t + pages_of(pre.order_at(t)) implies post.pages@[k].flags
            == 1 by {
            assert(pre.pages@[k].flags == 1);
            if i <= k < i + n {
                if k == i {
                    assert(pre.is_head(i) && pre.pages@[k].flags == 1);
                    assert(pre.pages@[i].flags >> 1 != 0);
                    lemma_flag_bits(0);
                    assert(false);
                } else {
                    assert(t < i < t + pages_of(pre.order_at(t)));
                    assert(false);
                }
            }
        }
    }
}

} // verus!
