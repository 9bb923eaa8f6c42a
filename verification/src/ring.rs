//! Bounded first-in first-out ring buffer.
use vstd::arithmetic::power2::*;
use vstd::prelude::*;

verus! {

/// Ring buffer that passes values from a producer to a consumer in order.
///
/// One slot stays free, to tell a full ring from an empty one. Nothing is allocated after the
/// ring is made.
pub struct SpscRing<T> {
    buffer: Vec<Option<T>>,
    head: usize,
    tail: usize,
}

/// The slot that is `i` places behind slot `tail` of a ring of `n` slots.
pub open spec fn slot(tail: int, i: int, n: int) -> int {
    if tail + i < n {
        tail + i
    } else {
        tail + i - n
    }
}

/// Whether `n` is the smallest power of two that is at least `least`.
pub open spec fn rounds_up(least: nat, n: nat) -> bool {
    &&& n >= least
    &&& exists|k: nat| n == #[trigger] pow2(k)
    &&& forall|k: nat| #[trigger] pow2(k) >= least ==> n <= pow2(k)
}

impl<T> SpscRing<T> {
    /// How many slots there are.
    pub closed spec fn slots(&self) -> nat {
        self.buffer@.len()
    }

    /// How many slots are in use.
    pub closed spec fn used(&self) -> int {
        if self.head >= self.tail {
            self.head - self.tail
        } else {
            self.head + self.buffer@.len() - self.tail
        }
    }

    /// Whether head and tail lie within the ring and exactly the slots between them are in use.
    pub closed spec fn wf(&self) -> bool {
        &&& self.buffer@.len() >= 1
        &&& self.head < self.buffer@.len()
        &&& self.tail < self.buffer@.len()
        &&& forall|i: int|
            0 <= i < self.used() ==> (#[trigger] self.buffer@[slot(
                self.tail as int,
                i,
                self.buffer@.len() as int,
            )]) is Some
    }

    /// The values in the ring, oldest first.
    pub closed spec fn contents(&self) -> Seq<T> {
        Seq::new(
            self.used() as nat,
            |i: int|
                self.buffer@[slot(self.tail as int, i, self.buffer@.len() as int)]->Some_0,
        )
    }

    /// A ring holds fewer values than it has slots.
    pub proof fn contents_fit(&self)
        requires
            self.wf(),
        ensures
            self.contents().len() < self.slots(),
    {
    }

    /// An empty ring whose number of slots is `capacity` rounded up to a power of two.
    pub fn new(capacity: usize) -> (r: Self)
        requires
            capacity <= usize::MAX / 2 + 1,
        ensures
            r.wf(),
            r.contents() == Seq::<T>::empty(),
            rounds_up(capacity as nat, r.slots()),
    {
        let mut n: usize = 1;
        let ghost mut k: nat = 0;
        proof {
            lemma_pow2(0);
            lemma2_to64();
            assert forall|j: nat| #[trigger] pow2(j) >= 1 by {
                lemma_pow2_pos(j);
            }
        }
        while n < capacity
            invariant
                capacity <= usize::MAX / 2 + 1,
                n == pow2(k),
                n >= 1,
                n > 1 ==> n < 2 * capacity,
                forall|j: nat| #[trigger] pow2(j) >= capacity ==> n <= pow2(j),
            decreases usize::MAX - n,
        {
            proof {
                lemma_pow2_unfold(k + 1);
                assert forall|j: nat| #[trigger] pow2(j) >= capacity implies 2 * n <= pow2(j) by {
                    if j <= k {
                        if j < k {
                            lemma_pow2_strictly_increases(j, k);
                        }
                    } else if j > k + 1 {
                        lemma_pow2_strictly_increases(k + 1, j);
                    }
                }
                k = k + 1;
            }
            n = n * 2;
        }
        let mut buffer: Vec<Option<T>> = Vec::new();
        let mut i: usize = 0;
        while i < n
            invariant
                i <= n,
                buffer@.len() == i,
            decreases n - i,
        {
            buffer.push(None);
            i += 1;
        }
        let r = SpscRing { buffer, head: 0, tail: 0 };
        assert(r.contents() =~= Seq::empty());
        r
    }

    /// The slot behind a slot.
    fn after(&self, at: usize) -> (r: usize)
        requires
            self.wf(),
            at < self.slots(),
        ensures
            r == slot(at as int, 1, self.slots() as int),
    {
        if at < self.buffer.len() - 1 {
            at + 1
        } else {
            0
        }
    }

    /// Puts a value in, or gives it back where the ring is full.
    pub fn try_push(&mut self, value: T) -> (r: Result<(), T>)
        requires
            old(self).wf(),
        ensures
            final(self).wf(),
            final(self).slots() == old(self).slots(),
            match r {
                Ok(_) => {
                    &&& old(self).contents().len() < old(self).slots() - 1
                    &&& final(self).contents() == old(self).contents().push(value)
                },
                Err(v) => {
                    &&& old(self).contents().len() == old(self).slots() - 1
                    &&& final(self).contents() == old(self).contents()
                    &&& v == value
                },
            },
    {
        let head: usize = self.head;
        let next_head: usize = self.after(head);
        if next_head == self.tail {
            return Err(value);
        }
        let ghost before = self.contents();
        self.buffer.set(head, Some(value));
        self.head = next_head;
        assert(self.contents() =~= before.push(value));
        Ok(())
    }

    /// Takes the oldest value out, if there is one.
    pub fn try_pop(&mut self) -> (r: Option<T>)
        requires
            old(self).wf(),
        ensures
            final(self).wf(),
            final(self).slots() == old(self).slots(),
            match r {
                Some(value) => {
                    &&& old(self).contents().len() > 0
                    &&& value == old(self).contents()[0]
                    &&& final(self).contents() == old(self).contents().skip(1)
                },
                None => {
                    &&& old(self).contents().len() == 0
                    &&& final(self).contents() == old(self).contents()
                },
            },
    {
        if self.tail == self.head {
            return None;
        }
        let ghost before = self.contents();
        let tail: usize = self.tail;
        let next_tail: usize = self.after(tail);
        assert(slot(tail as int, 0, self.buffer@.len() as int) == tail);
        let mut value: Option<T> = None;
        self.buffer.set_and_swap(tail, &mut value);
        self.tail = next_tail;
        proof {
            let n = self.buffer@.len() as int;
            assert forall|i: int| 0 <= i < self.used() implies slot(next_tail as int, i, n) == slot(
                tail as int,
                i + 1,
                n,
            ) by {}
            assert(self.contents() =~= before.skip(1));
        }
        value
    }

    /// How many values are in the ring.
    pub fn len(&self) -> (r: usize)
        requires
            self.wf(),
        ensures
            r == self.contents().len(),
    {
        if self.head >= self.tail {
            self.head - self.tail
        } else {
            self.buffer.len() - (self.tail - self.head)
        }
    }

    /// Whether no value is in the ring.
    pub fn is_empty(&self) -> (r: bool)
        requires
            self.wf(),
        ensures
            r == (self.contents().len() == 0),
    {
        self.len() == 0
    }

    /// How many values the ring can hold.
    pub fn capacity(&self) -> (r: usize)
        requires
            self.wf(),
        ensures
            r == self.slots() - 1,
    {
        self.buffer.len() - 1
    }
}

/// The number of slots is the power of two that holds what was asked for with least to spare: less
/// than twice as many.
pub proof fn slots_are_a_power_of_two(least: nat, n: nat, k: nat)
    requires
        rounds_up(least, n),
    ensures
        least <= n,
        least >= 1 ==> n < 2 * least,
        least <= 1 ==> n == 1,
        exists|j: nat| n == #[trigger] pow2(j),
        pow2(k) >= least ==> n <= pow2(k),
{
    let j = choose|j: nat| n == #[trigger] pow2(j);
    lemma2_to64();
    if least <= 1 {
        assert(pow2(0) >= least);
        lemma_pow2_pos(j);
    } else if j == 0 {
    } else {
        lemma_pow2_unfold(j);
        let half = pow2((j - 1) as nat);
        if half >= least {
            assert(n <= half);
            lemma_pow2_pos((j - 1) as nat);
        }
    }
}

} // verus!
