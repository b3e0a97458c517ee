use vstd::prelude::*;
use std::collections::VecDeque;

verus! {

/// A process's queue of received messages, with removal of the first one
/// that a predicate accepts.
pub struct MessageQueue<E> {
    queue: VecDeque<E>,
}

/// `i` is the first position of `s` whose entry `matcher` accepts.
pub open spec fn first_match<E, F: Fn(&E) -> bool>(matcher: F, s: Seq<E>, i: int) -> bool {
    &&& 0 <= i < s.len()
    &&& matcher.ensures((&s[i],), true)
    &&& forall|j: int| 0 <= j < i ==> matcher.ensures((&s[j],), false)
}

/// Removing one entry keeps the relative order of every other: two messages
/// that stay, from one sender or not, come out in the order they came in.
pub proof fn lemma_removal_keeps_order<E>(s: Seq<E>, k: int, a: int, b: int)
    requires
        0 <= k < s.len(),
        0 <= a < b < s.len(),
        a != k,
        b != k,
    ensures
        ({
            let a2 = if a < k { a } else { a - 1 };
            let b2 = if b < k { b } else { b - 1 };
            &&& a2 < b2
            &&& s.remove(k)[a2] == s[a]
            &&& s.remove(k)[b2] == s[b]
        }),
{
}

/// A matcher gives one answer per message.
pub open spec fn deterministic<E, F: Fn(&E) -> bool>(matcher: F) -> bool {
    forall|e: &E, b1: bool, b2: bool| matcher.ensures((e,), b1) && matcher.ensures((e,), b2) ==> b1 == b2
}

/// Sending `m` to a process whose queued messages the matcher all rejects,
/// then receiving with a matcher that accepts `m`, yields `m`: its position
/// is the only first match.
pub proof fn lemma_receive_after_send<E, F: Fn(&E) -> bool>(matcher: F, msgs: Seq<E>, m: E)
    requires
        deterministic(matcher),
        forall|j: int| 0 <= j < msgs.len() ==> matcher.ensures((&#[trigger] msgs[j],), false),
        matcher.ensures((&m,), true),
    ensures
        forall|i: int| #[trigger] first_match(matcher, msgs.push(m), i) <==> i == msgs.len(),
        msgs.push(m)[msgs.len() as int] == m,
{
    let s = msgs.push(m);
    assert forall|i: int| #[trigger] first_match(matcher, s, i) <==> i == msgs.len() by {
        if i == msgs.len() {
            assert forall|j: int| 0 <= j < i implies matcher.ensures((&s[j],), false) by {
                assert(s[j] == msgs[j]);
            }
        }
        if first_match(matcher, s, i) && i < msgs.len() {
            assert(s[i] == msgs[i]);
            assert(matcher.ensures((&msgs[i],), false));
        }
    }
}

impl<E> MessageQueue<E> {
    /// The queued messages, oldest first.
    pub closed spec fn view(&self) -> Seq<E> {
        self.queue@
    }

    pub fn new() -> (r: Self)
        ensures
            r.view() == Seq::<E>::empty(),
    {
        MessageQueue { queue: VecDeque::new() }
    }

    /// Appends `envelope` at the back.
    pub fn push(&mut self, envelope: E)
        ensures
            final(self).view() == old(self).view().push(envelope),
    {
        self.queue.push_back(envelope);
    }

    pub fn len(&self) -> (r: usize)
        ensures
            r == self.view().len(),
    {
        self.queue.len()
    }

    /// Removes and returns the first message, front to back, that
    /// `matcher` accepts. The others keep their order.
    pub fn remove_matching<F: Fn(&E) -> bool>(&mut self, matcher: F) -> (r: Option<E>)
        requires
            forall|e: &E| #[trigger] matcher.requires((e,)),
        ensures
            match r {
                Some(e) => exists|i: int|
                    #[trigger] first_match(matcher, old(self).view(), i)
                    && e == old(self).view()[i]
                    && final(self).view() == old(self).view().remove(i),
                None => final(self).view() == old(self).view()
                    && forall|j: int| 0 <= j < old(self).view().len() ==> matcher.ensures((&#[trigger] old(self).view()[j],), false),
            },
    {
        let mut i: usize = 0;
        while i < self.queue.len()
            invariant
                self.queue@ == old(self).queue@,
                i <= self.queue@.len(),
                forall|e: &E| #[trigger] matcher.requires((e,)),
                forall|j: int| 0 <= j < i ==> matcher.ensures((&#[trigger] self.queue@[j],), false),
            decreases self.queue@.len() - i,
        {
            let hit = matcher(&self.queue[i]);
            if hit {
                let ghost s = self.queue@;
                let e = self.queue.remove(i).unwrap();
                assert(first_match(matcher, s, i as int));
                assert(e == s[i as int] && self.queue@ == s.remove(i as int));
                assert(first_match(matcher, old(self).view(), i as int));
                assert(final(self).view() == old(self).view().remove(i as int));
                return Some(e);
            }
            i = i + 1;
        }
        None
    }
}

} // verus!
