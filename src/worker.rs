use vstd::prelude::*;
use std::collections::VecDeque;
use crate::pid::Pid;
use crate::migration::Migration;

verus! {

/// Reductions a worker runs before it next tries to balance.
pub const REDUCTIONS: u64 = 2_000_000;

/// A worker's first-in first-out queue of runnable processes.
pub struct RunQueue<T> {
    queue: VecDeque<T>,
}

impl<T> RunQueue<T> {
    pub closed spec fn view(&self) -> Seq<T> {
        self.queue@
    }

    pub fn new() -> (r: Self)
        ensures
            r@ == Seq::<T>::empty(),
    {
        RunQueue { queue: VecDeque::new() }
    }

    pub fn push(&mut self, item: T)
        ensures
            final(self)@ == old(self)@.push(item),
    {
        self.queue.push_back(item);
    }

    pub fn try_pop(&mut self) -> (r: Option<T>)
        ensures
            old(self)@.len() == 0 ==> r is None && final(self)@ == old(self)@,
            old(self)@.len() > 0 ==> r == Some(old(self)@[0])
                && final(self)@ == old(self)@.subrange(1, old(self)@.len() as int),
    {
        self.queue.pop_front()
    }

    pub fn len(&self) -> (r: usize)
        ensures
            r == self@.len(),
    {
        self.queue.len()
    }
}

/// A worker: its run queue and the counters its loop keeps.
pub struct Worker {
    pub spawn_at: usize,
    pub run_queue: RunQueue<Pid>,
    pub running: bool,
    pub reductions: u64,
    pub max_queue_length: usize,
    pub migration: Migration,
}

impl Worker {
    pub fn new(spawn_at: usize) -> (r: Self)
        ensures
            r.spawn_at == spawn_at,
            r.run_queue@ == Seq::<Pid>::empty(),
            r.running,
            r.reductions == REDUCTIONS,
            r.max_queue_length == 0,
            r.migration@.mode == crate::migration::Mode::Idle,
    {
        Worker {
            spawn_at,
            run_queue: RunQueue::new(),
            running: true,
            reductions: REDUCTIONS,
            max_queue_length: 0,
            migration: Migration::new(),
        }
    }

    pub fn run_queue_length(&self) -> (r: usize)
        ensures
            r == self.run_queue@.len(),
    {
        self.run_queue.len()
    }
}

} // verus!
