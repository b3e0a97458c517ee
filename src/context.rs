use vstd::prelude::*;
use crate::pid::Pid;
use crate::exit::{Envelope, RecvError};
use crate::actor::HydratedActor;
use crate::message_queue::first_match;

verus! {

/// Budget at which a process's turn yields.
pub const MAX_BUDGET: usize = 16;

/// What a worker installs around one turn of a process: whose turn it is
/// and how much of its cooperative budget it spent.
pub struct GlobalContext {
    pub budget: usize,
    pub actor: Pid,
}

impl GlobalContext {
    pub fn new(actor: Pid) -> (r: Self)
        ensures
            r.budget == 0,
            r.actor == actor,
    {
        GlobalContext { budget: 0, actor }
    }

    /// The process whose turn it is.
    pub fn pid(&self) -> (r: Pid)
        ensures
            r == self.actor,
    {
        self.actor
    }

    /// Spends `cost` units of budget (saturating).
    pub fn spend(&mut self, cost: usize)
        ensures
            final(self).actor == old(self).actor,
            final(self).budget == if old(self).budget + cost <= usize::MAX { (old(self).budget + cost) as usize } else { usize::MAX },
    {
        self.budget = self.budget.saturating_add(cost);
    }

    /// The check of a yield point. Returns true when the budget is spent:
    /// the budget restarts from zero, and the caller schedules the process
    /// again and returns pending.
    pub fn should_yield(&mut self) -> (r: bool)
        ensures
            r == (old(self).budget >= MAX_BUDGET),
            final(self).budget == if r { 0 } else { old(self).budget },
            final(self).actor == old(self).actor,
    {
        if self.budget >= MAX_BUDGET {
            self.budget = 0;
            true
        } else {
            false
        }
    }
}

/// Whether a sleep that started at `start` for `duration` ticks is over at
/// `now`.
pub fn sleep_elapsed(start: u64, now: u64, duration: u64) -> (r: bool)
    ensures
        r == (now >= start && now - start >= duration),
{
    now >= start && now - start >= duration
}

/// One poll of a selective receive that started at `start`, at time `now`.
/// A receive with a timeout that has run out returns `Timeout`; otherwise
/// the first queued message `matcher` accepts is removed and returned, and
/// one unit of budget is spent. `None` means pending.
pub fn recv_matching<M, F: Fn(&Envelope<M>) -> bool>(
    ctx: &mut GlobalContext,
    actor: &mut HydratedActor<M>,
    start: u64,
    now: u64,
    timeout: Option<u64>,
    matcher: F,
) -> (r: Option<Result<Envelope<M>, RecvError>>)
    requires
        forall|e: &Envelope<M>| #[trigger] matcher.requires((e,)),
    ensures
        final(actor).control_block == old(actor).control_block,
        final(actor).inbox == old(actor).inbox,
        final(ctx).actor == old(ctx).actor,
        ({
            let timed_out = timeout matches Some(t) && now >= start && now - start >= t;
            if timed_out {
                r == Some(Err::<Envelope<M>, RecvError>(RecvError::Timeout))
                    && final(actor).messages@ == old(actor).messages@ && final(ctx).budget == old(ctx).budget
            } else {
                match r {
                    Some(Ok(e)) => exists|i: int| #[trigger] first_match(matcher, old(actor).messages@, i)
                        && e == old(actor).messages@[i]
                        && final(actor).messages@ == old(actor).messages@.remove(i)
                        && final(ctx).budget == if old(ctx).budget + 1 <= usize::MAX { (old(ctx).budget + 1) as usize } else { usize::MAX },
                    Some(Err(_)) => false,
                    None => final(actor).messages@ == old(actor).messages@ && final(ctx).budget == old(ctx).budget
                        && forall|j: int| 0 <= j < old(actor).messages@.len() ==> matcher.ensures((&#[trigger] old(actor).messages@[j],), false),
                }
            }
        }),
{
    if let Some(t) = timeout {
        if sleep_elapsed(start, now, t) {
            return Some(Err(RecvError::Timeout));
        }
    }
    match actor.receive(matcher) {
        Some(e) => {
            ctx.spend(1);
            Some(Ok(e))
        },
        None => None,
    }
}

/// A future that is pending on its first poll and ready on the next.
pub struct PendingOnce {
    is_ready: bool,
}

pub fn pending_once() -> (r: PendingOnce)
    ensures
        !r.ready(),
{
    PendingOnce { is_ready: false }
}

impl PendingOnce {
    pub closed spec fn ready(&self) -> bool {
        self.is_ready
    }

    /// Returns true when ready; the first poll returns false.
    pub fn poll(&mut self) -> (r: bool)
        ensures
            r == old(self).ready(),
            final(self).ready(),
    {
        if self.is_ready {
            true
        } else {
            self.is_ready = true;
            false
        }
    }
}

/// A wrapper for a hot shared value; giving it a cache line of its own
/// is left to the embedder.
pub struct CachePadded<T> {
    inner: T,
}

impl<T> CachePadded<T> {
    pub closed spec fn view(&self) -> T {
        self.inner
    }

    pub fn new(inner: T) -> (r: Self)
        ensures
            r@ == inner,
    {
        CachePadded { inner }
    }

    pub fn into_inner(self) -> (r: T)
        ensures
            r == self@,
    {
        self.inner
    }

    pub fn get(&self) -> (r: &T)
        ensures
            *r == self@,
    {
        &self.inner
    }
}

} // verus!
