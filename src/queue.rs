use vstd::prelude::*;

verus! {

/// A bounded first-in first-out ring of capacity `S`.
pub struct Queue<T, const S: usize> {
    buffer: Vec<Option<T>>,
    start: usize,
    len: usize,
}

impl<T, const S: usize> Queue<T, S> {
    /// Position in the buffer of the `i`-th element from the front.
    spec fn slot(&self, i: int) -> int {
        if self.start + i < S { self.start + i } else { self.start + i - S }
    }

    pub closed spec fn wf(&self) -> bool {
        &&& self.buffer@.len() == S
        &&& self.len <= S
        &&& S > 0 ==> self.start < S
        &&& S == 0 ==> self.start == 0
        &&& forall|i: int| 0 <= i < self.len ==> (#[trigger] self.buffer@[self.slot(i)]) is Some
    }

    /// The elements, front first.
    pub closed spec fn view(&self) -> Seq<T> {
        Seq::new(self.len as nat, |i: int| self.buffer@[self.slot(i)]->Some_0)
    }

    pub proof fn lemma_len_bound(&self)
        requires
            self.wf(),
        ensures
            self.view().len() <= S,
    {
    }

    pub fn new() -> (r: Self)
        ensures
            r.wf(),
            r.view() == Seq::<T>::empty(),
    {
        let mut buffer: Vec<Option<T>> = Vec::new();
        let mut i: usize = 0;
        while i < S
            invariant
                i <= S,
                buffer@.len() == i,
            decreases S - i,
        {
            buffer.push(None);
            i = i + 1;
        }
        let r = Queue { buffer, start: 0, len: 0 };
        assert(r.view() =~= Seq::<T>::empty());
        r
    }

    pub fn capacity(&self) -> (r: usize)
        ensures
            r == S,
    {
        S
    }

    /// Appends `value` at the back, or hands it back when the ring is full.
    pub fn push(&mut self, value: T) -> (r: Result<(), T>)
        requires
            old(self).wf(),
        ensures
            final(self).wf(),
            old(self).view().len() < S ==> r is Ok && final(self).view() == old(self).view().push(value),
            old(self).view().len() >= S ==> r == Err::<(), T>(value) && final(self).view() == old(self).view(),
    {
        if self.len >= S {
            return Err(value);
        }
        let ghost v = self.view();
        let idx: usize = if self.start < S - self.len { self.start + self.len } else { self.start - (S - self.len) };
        assert(idx == self.slot(self.len as int));
        self.buffer.set(idx, Some(value));
        self.len = self.len + 1;
        assert forall|i: int| 0 <= i < self.len implies (#[trigger] self.buffer@[self.slot(i)]) is Some by {
            if i < self.len - 1 {
                assert(self.slot(i) != idx);
                assert(self.buffer@[self.slot(i)] == old(self).buffer@[old(self).slot(i)]);
            } else {
                assert(self.slot(i) == idx);
            }
        }
        assert(self.view() =~= v.push(value)) by {
            assert forall|i: int| 0 <= i < self.len - 1 implies self.view()[i] == v[i] by {
                assert(self.slot(i) != idx);
            }
        }
        Ok(())
    }

    /// Takes the front element, if any.
    pub fn pop(&mut self) -> (r: Option<T>)
        requires
            old(self).wf(),
        ensures
            final(self).wf(),
            old(self).view().len() == 0 ==> r is None && final(self).view() == old(self).view(),
            old(self).view().len() > 0 ==> r == Some(old(self).view()[0])
                && final(self).view() == old(self).view().subrange(1, old(self).view().len() as int),
    {
        if self.len == 0 {
            return None;
        }
        let ghost v = self.view();
        let ghost old_start = self.start;
        assert(self.slot(0) == self.start);
        assert(self.buffer@[self.slot(0)] is Some);
        let value = self.buffer[self.start].take();
        self.start = if self.start + 1 < S { self.start + 1 } else { 0 };
        self.len = self.len - 1;
        assert forall|i: int| 0 <= i < self.len implies (#[trigger] self.buffer@[self.slot(i)]) is Some by {
            assert(self.slot(i) != old_start);
            assert(self.buffer@[self.slot(i)] == old(self).buffer@[old(self).slot(i + 1)]);
        }
        assert(self.view() =~= v.subrange(1, v.len() as int)) by {
            assert forall|i: int| 0 <= i < self.len implies self.view()[i] == v[i + 1] by {
                assert(self.slot(i) != old_start);
                assert(self.buffer@[self.slot(i)] == old(self).buffer@[old(self).slot(i + 1)]);
            }
        }
        value
    }

    pub fn is_empty(&self) -> (r: bool)
        requires
            self.wf(),
        ensures
            r == (self.view().len() == 0),
    {
        self.len == 0
    }

    pub fn is_full(&self) -> (r: bool)
        requires
            self.wf(),
        ensures
            r == (self.view().len() >= S),
    {
        self.len >= S
    }

    pub fn len(&self) -> (r: usize)
        requires
            self.wf(),
        ensures
            r == self.view().len(),
    {
        self.len
    }
}

} // verus!
