use vstd::prelude::*;
use std::collections::VecDeque;
use crate::queue::Queue;

verus! {

/// Capacity of the fast ring of an inbox.
pub const QUEUE_SIZE: usize = 1024;

/// A first-in first-out inbox: a bounded ring for the fast path and an
/// unbounded overflow behind it. Nothing pushed is ever dropped.
pub struct Inbox<T> {
    queue: Queue<T, QUEUE_SIZE>,
    overflow: VecDeque<T>,
}

impl<T> Inbox<T> {
    pub closed spec fn wf(&self) -> bool {
        self.queue.wf()
    }

    /// Everything pushed and not yet popped, oldest first.
    pub closed spec fn view(&self) -> Seq<T> {
        self.queue.view() + self.overflow@
    }

    /// How many entries sit in the ring.
    pub closed spec fn ring_len(&self) -> nat {
        self.queue.view().len()
    }

    /// How many entries sit in the overflow.
    pub closed spec fn overflow_len(&self) -> nat {
        self.overflow@.len()
    }

    /// Every entry sits in the ring or in the overflow.
    pub proof fn lemma_view_len(&self)
        ensures
            self.view().len() == self.ring_len() + self.overflow_len(),
    {
    }

    pub fn new() -> (r: Self)
        ensures
            r.wf(),
            r.view() == Seq::<T>::empty(),
            r.ring_len() == 0,
            r.overflow_len() == 0,
    {
        let r = Inbox { queue: Queue::new(), overflow: VecDeque::new() };
        assert(r.view() =~= Seq::<T>::empty());
        r
    }

    /// Appends `message`. It goes to the ring while the ring has room and
    /// nothing waits in the overflow, else to the overflow.
    pub fn push(&mut self, message: T)
        requires
            old(self).wf(),
        ensures
            final(self).wf(),
            final(self).view() == old(self).view().push(message),
            old(self).ring_len() < QUEUE_SIZE && old(self).overflow_len() == 0 ==>
                final(self).ring_len() == old(self).ring_len() + 1 && final(self).overflow_len() == 0,
            old(self).ring_len() >= QUEUE_SIZE || old(self).overflow_len() > 0 ==>
                final(self).ring_len() == old(self).ring_len()
                && final(self).overflow_len() == old(self).overflow_len() + 1,
    {
        let ghost v = self.view();
        if self.overflow.len() == 0 {
            match self.queue.push(message) {
                Ok(()) => {
                    assert(self.view() =~= v.push(message));
                },
                Err(message) => {
                    self.overflow.push_back(message);
                    assert(self.view() =~= v.push(message));
                },
            }
        } else {
            self.overflow.push_back(message);
            assert(self.view() =~= v.push(message));
        }
    }

    /// Moves entries from the front of the overflow to the back of the
    /// ring until the ring is full or the overflow is empty.
    fn refill(&mut self)
        requires
            old(self).wf(),
        ensures
            final(self).wf(),
            final(self).view() == old(self).view(),
            final(self).ring_len() == QUEUE_SIZE || final(self).overflow_len() == 0,
            final(self).ring_len() >= old(self).ring_len(),
            old(self).ring_len() + old(self).overflow_len() <= QUEUE_SIZE ==> final(self).overflow_len() == 0,
            old(self).ring_len() + old(self).overflow_len() > QUEUE_SIZE ==> final(self).ring_len() == QUEUE_SIZE,
    {
        proof { self.queue.lemma_len_bound(); }
        while self.overflow.len() > 0 && !self.queue.is_full()
            invariant
                self.wf(),
                self.view() == old(self).view(),
                self.ring_len() >= old(self).ring_len(),
                self.ring_len() + self.overflow_len() == old(self).ring_len() + old(self).overflow_len(),
                self.ring_len() <= QUEUE_SIZE,
            decreases self.overflow@.len(),
        {
            let ghost v = self.view();
            let item = self.overflow.pop_front().unwrap();
            match self.queue.push(item) {
                Ok(()) => {
                    assert(self.view() =~= v);
                    proof { self.queue.lemma_len_bound(); }
                },
                Err(item) => {
                    // The ring had room: this arm is never taken.
                    self.overflow.push_front(item);
                    assert(false);
                },
            }
        }
    }

    /// Takes the oldest entry, if any. When the ring is empty the overflow
    /// first moves into it.
    pub fn pop(&mut self) -> (r: Option<T>)
        requires
            old(self).wf(),
        ensures
            final(self).wf(),
            old(self).view().len() == 0 ==> r is None && final(self).view() == old(self).view(),
            old(self).view().len() > 0 ==> r == Some(old(self).view()[0])
                && final(self).view() == old(self).view().subrange(1, old(self).view().len() as int),
            old(self).ring_len() > 0 ==> final(self).ring_len() == old(self).ring_len() - 1
                && final(self).overflow_len() == old(self).overflow_len(),
            old(self).ring_len() == 0 && 0 < old(self).overflow_len() <= QUEUE_SIZE ==>
                final(self).ring_len() == old(self).overflow_len() - 1 && final(self).overflow_len() == 0,
            old(self).ring_len() == 0 && old(self).overflow_len() > QUEUE_SIZE ==>
                final(self).ring_len() == QUEUE_SIZE - 1
                && final(self).overflow_len() == old(self).overflow_len() - QUEUE_SIZE,
    {
        let ghost v = self.view();
        if !self.queue.is_empty() {
            let r = self.queue.pop();
            assert(self.view() =~= v.subrange(1, v.len() as int));
            return r;
        }
        if self.overflow.len() == 0 {
            assert(v.len() == 0);
            return None;
        }
        self.refill();
        let ghost w = self.view();
        let r = self.queue.pop();
        assert(self.view() =~= w.subrange(1, w.len() as int));
        r
    }

    /// Whether both the ring and the overflow are empty.
    pub fn is_empty(&self) -> (r: bool)
        requires
            self.wf(),
        ensures
            r == (self.view().len() == 0),
    {
        self.queue.is_empty() && self.overflow.len() == 0
    }

    /// How many entries wait in the overflow.
    pub fn overflow_count(&self) -> (r: usize)
        ensures
            r == self.overflow_len(),
    {
        self.overflow.len()
    }

    pub fn len(&self) -> (r: usize)
        requires
            self.wf(),
            self.view().len() <= usize::MAX,
        ensures
            r == self.view().len(),
    {
        self.queue.len() + self.overflow.len()
    }
}

} // verus!
