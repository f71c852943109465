//! The ring queue itself: an array of `N` slots and two cursors into it.
use vstd::prelude::*;

use vstd::arithmetic::div_mod::{lemma_mod_self_0, lemma_small_mod};

use crate::model::{after_pop, after_push, front, has_room, taken_into, usable};

verus! {

/// A queue of at most `N - 1` elements of type `T`, stored inline.
///
/// `read` is the slot of the oldest element and `write` the slot that the next
/// push fills. The queue is empty when the two are equal and full when
/// advancing `write` would reach `read`; one slot therefore always stays free.
/// A queue with `N < 2` holds nothing: every push returns `false` and every pop
/// finds it empty.
pub struct Queue<T, const N: usize> {
    array: [T; N],
    read: usize,
    write: usize,
}

impl<T, const N: usize> Queue<T, N> {
    /// Both cursors point into the storage; without storage both are 0.
    #[verifier::type_invariant]
    spec fn inv(self) -> bool {
        if N == 0 {
            self.read == 0 && self.write == 0
        } else {
            self.read < N && self.write < N
        }
    }

    /// The slot that follows slot `n`, going round from the last to the first.
    spec fn next(n: int) -> int {
        if n + 1 == N {
            0
        } else {
            n + 1
        }
    }

    /// How many slots are occupied: those from `read` forward to `write`.
    spec fn occupied(self) -> nat {
        if self.read <= self.write {
            (self.write - self.read) as nat
        } else {
            (N - self.read + self.write) as nat
        }
    }

    /// The slot that holds the `i`-th oldest element.
    spec fn slot(self, i: int) -> int {
        if self.read + i < N {
            self.read + i
        } else {
            self.read + i - N
        }
    }

    /// How many elements this queue can hold at once.
    pub open spec fn capacity(&self) -> nat {
        usable(N as nat)
    }

    /// `(n + 1) mod N`: the one wrap step that `push` and both pops share.
    fn inc_wrap(&self, n: usize) -> (r: usize)
        requires
            n < N,
        ensures
            r == (n + 1) % (N as int),
            r == Self::next(n as int),
    {
        proof {
            if n + 1 < N {
                lemma_small_mod((n + 1) as nat, N as nat);
            } else {
                lemma_mod_self_0(N as int);
            }
        }
        (n + 1) % N
    }

    /// Appends `val` at the back, unless the queue is full; a full queue is
    /// left exactly as it was and `val` is dropped.
    pub fn push(&mut self, val: T) -> (r: bool)
        ensures
            r == has_room(old(self)@, old(self).capacity()),
            final(self)@ == after_push(old(self)@, old(self).capacity(), val),
            final(self)@.len() <= final(self).capacity(),
            !r ==> *final(self) == *old(self),
    {
        proof {
            use_type_invariant(&*self);
        }
        if N == 0 {
            return false;
        }
        let new_write = self.inc_wrap(self.write);
        if new_write == self.read {
            return false;
        }
        self.array[self.write] = val;
        self.write = new_write;
        proof {
            assert(self@ =~= old(self)@.push(val));
        }
        true
    }

    /// Moves the oldest element into `out_val`, which gives its old value to
    /// the freed slot in exchange. On an empty queue nothing changes.
    pub fn pop_into(&mut self, out_val: &mut T) -> (r: bool)
        ensures
            r == (old(self)@.len() > 0),
            *final(out_val) == taken_into(old(self)@, *old(out_val)),
            final(self)@ == after_pop(old(self)@),
            final(self)@.len() <= final(self).capacity(),
            !r ==> *final(self) == *old(self),
    {
        proof {
            use_type_invariant(&*self);
        }
        if self.read == self.write {
            return false;
        }
        core::mem::swap(out_val, &mut self.array[self.read]);
        self.read = self.inc_wrap(self.read);
        proof {
            assert(self@ =~= old(self)@.drop_first());
        }
        true
    }
}

impl<T: Default + Copy, const N: usize> Queue<T, N> {
    /// An empty queue whose slots all hold `T::default()`.
    pub fn new() -> (q: Self)
        ensures
            q@ == Seq::<T>::empty(),
    {
        Queue { array: [T::default(); N], read: 0, write: 0 }
    }

    /// Removes and returns the oldest element, leaving `T::default()` in its
    /// slot; on an empty queue returns `None` and changes nothing.
    pub fn pop(&mut self) -> (r: Option<T>)
        ensures
            r == front(old(self)@),
            final(self)@ == after_pop(old(self)@),
            final(self)@.len() <= final(self).capacity(),
            r is None ==> *final(self) == *old(self),
    {
        proof {
            use_type_invariant(&*self);
        }
        if self.read == self.write {
            return None;
        }
        let mut val = T::default();
        core::mem::swap(&mut val, &mut self.array[self.read]);
        self.read = self.inc_wrap(self.read);
        proof {
            assert(self@ =~= old(self)@.drop_first());
        }
        Some(val)
    }
}

impl<T: Default + Copy, const N: usize> Default for Queue<T, N> {
    /// The same as [`Queue::new`].
    fn default() -> (q: Self)
        ensures
            q@ == Seq::<T>::empty(),
    {
        Self::new()
    }
}

impl<T, const N: usize> View for Queue<T, N> {
    type V = Seq<T>;

    /// The elements in the queue, oldest first.
    closed spec fn view(&self) -> Seq<T> {
        Seq::new(self.occupied(), |i: int| self.array@[self.slot(i)])
    }
}

} // verus!
