use vstd::prelude::*;
use crate::pid::Pid;
use crate::exit::Signal;

verus! {

/// A timed delivery: `message` goes to `pid` once the clock reaches
/// `expire_at`. Times are ticks of a monotonic clock.
pub struct TimerEntry<M> {
    pub pid: Pid,
    pub expire_at: u64,
    pub message: Signal<M>,
}

/// What the timer thread does next.
pub enum TimerAction<M> {
    /// Deliver this entry now.
    Deliver(TimerEntry<M>),
    /// Sleep this many ticks, or until an entry is added.
    Wait(u64),
    /// Sleep until an entry is added.
    Idle,
}

/// The earliest deadline among `s`, which is not empty.
pub open spec fn is_earliest<M>(s: Seq<TimerEntry<M>>, i: int) -> bool {
    &&& 0 <= i < s.len()
    &&& forall|j: int| 0 <= j < s.len() ==> s[i].expire_at <= (#[trigger] s[j]).expire_at
}

/// An entry added at `now` with delay `d` and handed out at `t` was handed
/// out no earlier than `d` after it was added.
pub proof fn lemma_delay_respected<M>(e: TimerEntry<M>, now: u64, d: u64, t: u64)
    requires
        e.expire_at == now + d,
        e.expire_at <= t,
    ensures
        t - now >= d,
{
}

/// The pending timed deliveries.
pub struct Timer<M> {
    is_running: bool,
    entries: Vec<TimerEntry<M>>,
}

impl<M> Timer<M> {
    pub closed spec fn view(&self) -> Seq<TimerEntry<M>> {
        self.entries@
    }

    pub closed spec fn running(&self) -> bool {
        self.is_running
    }

    pub fn new() -> (r: Self)
        ensures
            r@ == Seq::<TimerEntry<M>>::empty(),
            r.running(),
    {
        Timer { is_running: true, entries: Vec::new() }
    }

    pub fn is_running(&self) -> (r: bool)
        ensures
            r == self.running(),
    {
        self.is_running
    }

    pub fn stop(&mut self)
        ensures
            !final(self).running(),
            final(self)@ == old(self)@,
    {
        self.is_running = false;
    }

    /// Arms a wake-up of `pid` at `now + duration`.
    pub fn wake_up(&mut self, pid: Pid, now: u64, duration: u64)
        requires
            now + duration <= u64::MAX,
        ensures
            final(self)@ == old(self)@.push(TimerEntry { pid, expire_at: (now + duration) as u64, message: Signal::TimerFired }),
            final(self).running() == old(self).running(),
    {
        self.entries.push(TimerEntry { pid, expire_at: now + duration, message: Signal::TimerFired });
    }

    /// Schedules `message` for `pid` at `now + duration`.
    pub fn add(&mut self, pid: Pid, now: u64, duration: u64, message: M)
        requires
            now + duration <= u64::MAX,
        ensures
            final(self)@ == old(self)@.push(TimerEntry { pid, expire_at: (now + duration) as u64, message: Signal::Message(message) }),
            final(self).running() == old(self).running(),
    {
        self.entries.push(TimerEntry { pid, expire_at: now + duration, message: Signal::Message(message) });
    }

    /// Position of an entry with the earliest deadline.
    fn earliest(&self) -> (r: Option<usize>)
        ensures
            match r {
                Some(i) => is_earliest(self@, i as int),
                None => self@.len() == 0,
            },
    {
        if self.entries.len() == 0 {
            return None;
        }
        let mut best: usize = 0;
        let mut i: usize = 1;
        while i < self.entries.len()
            invariant
                1 <= i <= self.entries@.len(),
                best < i,
                forall|j: int| 0 <= j < i ==> self.entries@[best as int].expire_at <= (#[trigger] self.entries@[j]).expire_at,
            decreases self.entries@.len() - i,
        {
            if self.entries[i].expire_at < self.entries[best].expire_at {
                best = i;
            }
            i = i + 1;
        }
        Some(best)
    }

    /// The earliest deadline, if any entry is pending.
    pub fn next_deadline(&self) -> (r: Option<u64>)
        ensures
            match r {
                Some(t) => exists|i: int| #[trigger] is_earliest(self@, i) && self@[i].expire_at == t,
                None => self@.len() == 0,
            },
    {
        match self.earliest() {
            Some(i) => Some(self.entries[i].expire_at),
            None => None,
        }
    }

    /// Removes and returns an entry with the earliest deadline, if that
    /// deadline is at or before `now`. No entry leaves before its time.
    pub fn pop_expired(&mut self, now: u64) -> (r: Option<TimerEntry<M>>)
        ensures
            final(self).running() == old(self).running(),
            match r {
                Some(e) => exists|i: int| #[trigger] is_earliest(old(self)@, i) && e == old(self)@[i]
                    && e.expire_at <= now && final(self)@ == old(self)@.remove(i),
                None => final(self)@ == old(self)@
                    && forall|j: int| 0 <= j < old(self)@.len() ==> now < (#[trigger] old(self)@[j]).expire_at,
            },
    {
        match self.earliest() {
            Some(i) => {
                if self.entries[i].expire_at <= now {
                    let e = self.entries.remove(i);
                    assert(is_earliest(old(self)@, i as int));
                    Some(e)
                } else {
                    assert forall|j: int| 0 <= j < old(self)@.len() implies now < (#[trigger] old(self)@[j]).expire_at by {
                        assert(self.entries@[i as int].expire_at <= self.entries@[j].expire_at);
                    }
                    None
                }
            },
            None => None,
        }
    }

    /// The timer thread's next step at time `now`: deliver an expired
    /// entry, sleep until the earliest deadline, or sleep until woken.
    pub fn next_action(&mut self, now: u64) -> (r: TimerAction<M>)
        ensures
            final(self).running() == old(self).running(),
            match r {
                TimerAction::Deliver(e) => exists|i: int| #[trigger] is_earliest(old(self)@, i) && e == old(self)@[i]
                    && e.expire_at <= now && final(self)@ == old(self)@.remove(i),
                TimerAction::Wait(d) => final(self)@ == old(self)@ && exists|i: int| #[trigger] is_earliest(old(self)@, i)
                    && now < old(self)@[i].expire_at && d == old(self)@[i].expire_at - now,
                TimerAction::Idle => final(self)@ == old(self)@ && old(self)@.len() == 0,
            },
    {
        match self.earliest() {
            None => TimerAction::Idle,
            Some(i) => {
                let t = self.entries[i].expire_at;
                if t <= now {
                    let e = self.entries.remove(i);
                    assert(is_earliest(old(self)@, i as int));
                    TimerAction::Deliver(e)
                } else {
                    assert(is_earliest(old(self)@, i as int));
                    TimerAction::Wait(t - now)
                }
            },
        }
    }
}

} // verus!
