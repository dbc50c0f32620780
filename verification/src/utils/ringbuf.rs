//! A simple ring buffer over a power-of-two capacity.
//!
//! `head` and `tail` are free-running counters; the live elements are
//! those pushed and not yet popped, at most `N`. A push onto a full
//! buffer drops the value.

use vstd::prelude::*;

verus! {

/// Ring buffer of capacity `N`, which must be a power of two.
pub struct RingBuf<T, const N: usize> {
    pub buf: Vec<T>,
    pub head: usize,
    pub tail: usize,
}

impl<T: Default + Copy, const N: usize> RingBuf<T, N> {
    /// The live contents, oldest first.
    pub open spec fn view_queue(self) -> Seq<T> {
        Seq::new((self.tail - self.head) as nat, |i: int| self.buf@[(self.head + i) % (N as int)])
    }

    /// The counters stay within one lap of each other and the backing
    /// storage has exactly `N` slots.
    pub open spec fn wf(self) -> bool {
        &&& N >= 1
        &&& (N as u64) & ((N - 1) as u64) == 0
        &&& self.buf@.len() == N
        &&& self.head <= self.tail
        &&& self.tail - self.head <= N
    }

    /// An empty ring buffer.
    pub fn new() -> (r: Self)
        requires
            N >= 1,
            (N as u64) & ((N - 1) as u64) == 0,
        ensures
            r.wf(),
            r.view_queue() == Seq::<T>::empty(),
            r.head == 0 && r.tail == 0,
    {
        let mut buf: Vec<T> = Vec::new();
        let mut i: usize = 0;
        while i < N
            invariant
                i <= N,
                buf@.len() == i,
            decreases N - i,
        {
            buf.push(T::default());
            i = i + 1;
        }
        let r = RingBuf { buf, head: 0, tail: 0 };
        proof {
            assert(r.view_queue() =~= Seq::<T>::empty());
        }
        r
    }

    /// Nothing is queued.
    pub fn is_empty(&self) -> (r: bool)
        requires
            self.wf(),
        ensures
            r == (self.view_queue().len() == 0),
    {
        self.head == self.tail
    }

    /// Every slot is occupied.
    pub fn is_full(&self) -> (r: bool)
        requires
            self.wf(),
        ensures
            r == (self.view_queue().len() == N),
    {
        self.tail - self.head > N - 1
    }

    /// Appends a value; on a full buffer the value is dropped, by design.
    pub fn push(&mut self, v: T)
        requires
            old(self).wf(),
            old(self).tail < usize::MAX,
        ensures
            final(self).wf(),
            old(self).view_queue().len() == N ==> *final(self) == *old(self),
            old(self).view_queue().len() < N ==> final(self).view_queue() == old(
                self,
            ).view_queue().push(v),
    {
        if self.is_full() {
            return ;
        }
        let slot = self.tail % N;
        self.buf[slot] = v;
        self.tail = self.tail + 1;
        proof {
            assert(self.view_queue() =~= old(self).view_queue().push(v)) by {
                assert forall|i: int|
                    0 <= i < old(self).view_queue().len() implies self.view_queue()[i] == old(
                    self,
                ).view_queue()[i] by {
                    lemma_mod_in_range(self.head + i, old(self).tail as int, N as int);
                }
            }
        }
    }

    /// Removes and returns the oldest value, or `None` when empty.
    pub fn pop(&mut self) -> (r: Option<T>)
        requires
            old(self).wf(),
        ensures
            final(self).wf(),
            old(self).view_queue().len() == 0 ==> r is None && *final(self) == *old(self),
            old(self).view_queue().len() > 0 ==> r == Some(old(self).view_queue().first())
                && final(self).view_queue() == old(self).view_queue().drop_first(),
    {
        if self.is_empty() {
            return None;
        }
        let v = self.buf[self.head % N];
        self.head = self.head + 1;
        proof {
            assert(self.view_queue() =~= old(self).view_queue().drop_first());
        }
        Some(v)
    }
}

/// Counters less than one lap apart land on different slots.
proof fn lemma_mod_in_range(a: int, t: int, n: int)
    requires
        n >= 1,
        0 <= a < t,
        t - a < n,
    ensures
        a % n != t % n,
{
    if a % n == t % n {
        vstd::arithmetic::div_mod::lemma_fundamental_div_mod(a, n);
        vstd::arithmetic::div_mod::lemma_fundamental_div_mod(t, n);
        let da = a / n;
        let dt = t / n;
        vstd::arithmetic::mul::lemma_mul_is_distributive_sub(n, dt, da);
        assert(t - a == n * (dt - da));
        if dt - da >= 1 {
            vstd::arithmetic::mul::lemma_mul_inequality(1, dt - da, n);
            vstd::arithmetic::mul::lemma_mul_is_commutative(dt - da, n);
            assert(t - a >= n);
        } else {
            vstd::arithmetic::mul::lemma_mul_inequality(dt - da, 0, n);
            vstd::arithmetic::mul::lemma_mul_is_commutative(dt - da, n);
            assert(t - a <= 0);
        }
        assert(false);
    }
}

} // verus!
