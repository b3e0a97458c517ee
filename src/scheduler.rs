use vstd::prelude::*;
use crate::pid::Pid;
use crate::worker::{Worker, REDUCTIONS};
use crate::migration::{Mode, Parameters};
use crate::balance::{is_plan, plan_balance};

verus! {

/// Most workers a scheduler holds.
pub const MAX_WORKERS: usize = 128;

/// The counters a worker's loop keeps: reductions left, longest queue
/// seen, migration order, and whether it runs.
pub open spec fn counters(w: Worker) -> (u64, usize, Parameters, bool) {
    (w.reductions, w.max_queue_length, w.migration@, w.running)
}

/// Every worker but `except` keeps its counters.
pub open spec fn counters_kept(a: Seq<Worker>, b: Seq<Worker>, except: int) -> bool {
    &&& a.len() == b.len()
    &&& forall|w: int| 0 <= w < a.len() && w != except ==> counters(#[trigger] b[w]) == counters(a[w])
}

/// The workers and their run queues.
pub struct Scheduler {
    workers: Vec<Worker>,
    stopped: bool,
}

impl Scheduler {
    pub closed spec fn wf(&self) -> bool {
        &&& self.workers@.len() <= MAX_WORKERS
        &&& forall|w: int| 0 <= w < self.workers@.len() ==> (#[trigger] self.workers@[w]).spawn_at == w
    }

    /// Every worker's run queue, by worker id.
    pub closed spec fn queues(&self) -> Seq<Seq<Pid>> {
        Seq::new(self.workers@.len(), |w: int| self.workers@[w].run_queue@)
    }

    /// Set once the scheduler was stopped; nothing is scheduled after.
    pub closed spec fn is_stopped(&self) -> bool {
        self.stopped
    }

    /// There is one run queue per worker.
    pub proof fn lemma_one_queue_per_worker(&self)
        ensures
            self.workers().len() == self.queues().len(),
            forall|w: int| 0 <= w < self.queues().len() ==> #[trigger] self.queues()[w] == self.workers()[w].run_queue@,
    {
    }

    /// Every worker, by id.
    pub closed spec fn workers(&self) -> Seq<Worker> {
        self.workers@
    }

    pub fn new() -> (r: Self)
        ensures
            r.wf(),
            r.queues() == Seq::<Seq<Pid>>::empty(),
            !r.is_stopped(),
    {
        let r = Scheduler { workers: Vec::new(), stopped: false };
        assert(r.queues() =~= Seq::<Seq<Pid>>::empty());
        r
    }

    /// Whether the scheduler was stopped.
    pub fn is_halted(&self) -> (r: bool)
        ensures
            r == self.is_stopped(),
    {
        self.stopped
    }

    pub fn count(&self) -> (r: usize)
        ensures
            r == self.queues().len(),
    {
        self.workers.len()
    }

    /// Adds a worker with an empty queue; returns its id.
    pub fn allocate_slot(&mut self) -> (r: usize)
        requires
            old(self).wf(),
            old(self).queues().len() < MAX_WORKERS,
        ensures
            final(self).wf(),
            r == old(self).queues().len(),
            final(self).queues() == old(self).queues().push(Seq::<Pid>::empty()),
            final(self).is_stopped() == old(self).is_stopped(),
    {
        let id = self.workers.len();
        let ghost q = self.queues();
        self.workers.push(Worker::new(id));
        assert(self.queues() =~= q.push(Seq::<Pid>::empty()));
        id
    }

    pub fn get_worker(&self, id: usize) -> (r: Option<&Worker>)
        ensures
            id < self.workers().len() ==> r == Some(&self.workers()[id as int]),
            id >= self.workers().len() ==> r is None,
    {
        if id < self.workers.len() {
            Some(&self.workers[id])
        } else {
            None
        }
    }

    /// Length of worker `id`'s run queue.
    pub fn queue_len(&self, id: usize) -> (r: usize)
        requires
            id < self.queues().len(),
        ensures
            r == self.queues()[id as int].len(),
    {
        self.workers[id].run_queue.len()
    }

    /// Appends `pid` to worker `id`'s run queue.
    pub fn push_to(&mut self, id: usize, pid: Pid)
        requires
            old(self).wf(),
            id < old(self).queues().len(),
        ensures
            counters_kept(old(self).workers(), final(self).workers(), -1),
            final(self).wf(),
            final(self).queues() == old(self).queues().update(id as int, old(self).queues()[id as int].push(pid)),
            final(self).is_stopped() == old(self).is_stopped(),
    {
        let ghost q = self.queues();
        self.workers[id].run_queue.push(pid);
        assert(self.queues() =~= q.update(id as int, q[id as int].push(pid)));
    }

    /// Takes the front of worker `id`'s run queue.
    pub fn pop_from(&mut self, id: usize) -> (r: Option<Pid>)
        requires
            old(self).wf(),
            id < old(self).queues().len(),
        ensures
            counters_kept(old(self).workers(), final(self).workers(), -1),
            final(self).wf(),
            final(self).is_stopped() == old(self).is_stopped(),
            old(self).queues()[id as int].len() == 0 ==> r is None && final(self).queues() == old(self).queues(),
            old(self).queues()[id as int].len() > 0 ==> r == Some(old(self).queues()[id as int][0])
                && final(self).queues() == old(self).queues().update(id as int,
                    old(self).queues()[id as int].subrange(1, old(self).queues()[id as int].len() as int)),
    {
        let ghost q = self.queues();
        let r = self.workers[id].run_queue.try_pop();
        if r.is_none() {
            assert(self.queues() =~= q);
        } else {
            assert(self.queues() =~= q.update(id as int, q[id as int].subrange(1, q[id as int].len() as int)));
        }
        r
    }

    /// Records the current length of worker `id`'s queue in its maximum.
    pub fn observe_queue_length(&mut self, id: usize)
        requires
            old(self).wf(),
            id < old(self).queues().len(),
        ensures
            counters_kept(old(self).workers(), final(self).workers(), id as int),
            final(self).workers()[id as int].reductions == old(self).workers()[id as int].reductions,
            final(self).workers()[id as int].migration@ == old(self).workers()[id as int].migration@,
            final(self).workers()[id as int].running == old(self).workers()[id as int].running,
            final(self).wf(),
            final(self).queues() == old(self).queues(),
            final(self).is_stopped() == old(self).is_stopped(),
            final(self).workers()[id as int].max_queue_length
                == if old(self).workers()[id as int].max_queue_length >= old(self).queues()[id as int].len() {
                    old(self).workers()[id as int].max_queue_length as int
                } else {
                    old(self).queues()[id as int].len() as int
                },
    {
        let ghost q = self.queues();
        let len = self.workers[id].run_queue.len();
        if self.workers[id].max_queue_length < len {
            self.workers[id].max_queue_length = len;
        }
        assert(self.queues() =~= q);
    }

    /// Counts one reduction on worker `id`. Returns true when its budget of
    /// reductions ran out, that is when it should try to balance.
    pub fn tick(&mut self, id: usize) -> (r: bool)
        requires
            old(self).wf(),
            id < old(self).queues().len(),
        ensures
            counters_kept(old(self).workers(), final(self).workers(), id as int),
            final(self).workers()[id as int].reductions == if r { 0 } else { (old(self).workers()[id as int].reductions - 1) as u64 },
            final(self).workers()[id as int].max_queue_length == old(self).workers()[id as int].max_queue_length,
            final(self).workers()[id as int].migration@ == old(self).workers()[id as int].migration@,
            final(self).workers()[id as int].running == old(self).workers()[id as int].running,
            final(self).wf(),
            final(self).queues() == old(self).queues(),
            final(self).is_stopped() == old(self).is_stopped(),
            r == (old(self).workers()[id as int].reductions == 0),
    {
        let ghost q = self.queues();
        let r = self.workers[id].reductions == 0;
        if !r {
            self.workers[id].reductions = self.workers[id].reductions - 1;
        }
        assert(self.queues() =~= q);
        r
    }

    /// Hands worker `id` its migration order; a push order is handed out
    /// once.
    pub fn take_migration(&mut self, id: usize) -> (r: Parameters)
        requires
            old(self).wf(),
            id < old(self).queues().len(),
        ensures
            counters_kept(old(self).workers(), final(self).workers(), id as int),
            final(self).workers()[id as int].reductions == old(self).workers()[id as int].reductions,
            final(self).workers()[id as int].max_queue_length == old(self).workers()[id as int].max_queue_length,
            final(self).workers()[id as int].running == old(self).workers()[id as int].running,
            r.mode == Mode::Push ==> final(self).workers()[id as int].migration@ == (Parameters { mode: Mode::Idle, ..r }),
            r.mode != Mode::Push ==> final(self).workers()[id as int].migration@ == r,
            final(self).wf(),
            final(self).queues() == old(self).queues(),
            final(self).is_stopped() == old(self).is_stopped(),
            r == old(self).workers()[id as int].migration@,
    {
        let ghost q = self.queues();
        let r = self.workers[id].migration.load_for_push();
        assert(self.queues() =~= q);
        r
    }

    /// Balances and returns true. The embedder holds the scheduler under one
    /// lock, so no other balance can be running when this one starts.
    pub fn try_balance(&mut self, worker: usize) -> (r: bool)
        requires
            old(self).wf(),
        ensures
            final(self).wf(),
            final(self).queues() == old(self).queues(),
            final(self).is_stopped() == old(self).is_stopped(),
            r,
            old(self).workers().len() > 0 ==> is_plan(
                old(self).workers().map_values(|w: Worker| w.max_queue_length),
                final(self).workers().map_values(|w: Worker| w.migration@)),
            forall|w: int| 0 <= w < final(self).workers().len() ==>
                (#[trigger] final(self).workers()[w]).reductions == REDUCTIONS
                && final(self).workers()[w].max_queue_length == 0
                && final(self).workers()[w].running == old(self).workers()[w].running,
            final(self).workers().len() == old(self).workers().len(),
    {
        self.balance();
        true
    }

    /// Gives every worker its migration order from the queue lengths the
    /// workers observed, and resets their counters.
    pub fn balance(&mut self)
        requires
            old(self).wf(),
        ensures
            final(self).wf(),
            final(self).queues() == old(self).queues(),
            final(self).is_stopped() == old(self).is_stopped(),
            old(self).workers().len() > 0 ==> is_plan(
                old(self).workers().map_values(|w: Worker| w.max_queue_length),
                final(self).workers().map_values(|w: Worker| w.migration@)),
            forall|w: int| 0 <= w < final(self).workers().len() ==>
                (#[trigger] final(self).workers()[w]).reductions == REDUCTIONS
                && final(self).workers()[w].max_queue_length == 0
                && final(self).workers()[w].running == old(self).workers()[w].running,
            final(self).workers().len() == old(self).workers().len(),
    {
        let n = self.workers.len();
        if n == 0 {
            return;
        }
        let ghost q = self.queues();
        let mut lengths: Vec<usize> = Vec::new();
        let mut i: usize = 0;
        while i < n
            invariant
                n == self.workers@.len(),
                i <= n,
                lengths@ == self.workers@.subrange(0, i as int).map_values(|w: Worker| w.max_queue_length),
            decreases n - i,
        {
            lengths.push(self.workers[i].max_queue_length);
            assert(lengths@ =~= self.workers@.subrange(0, i as int + 1).map_values(|w: Worker| w.max_queue_length));
            i = i + 1;
        }
        assert(self.workers@.subrange(0, n as int) =~= self.workers@);
        let plan = plan_balance(&lengths);
        let ghost before = self.workers@;
        let mut k: usize = 0;
        while k < n
            invariant
                n == self.workers@.len(),
                plan@.len() == n,
                k <= n,
                self.wf(),
                forall|j: int| 0 <= j < n ==> (#[trigger] plan@[j]).target < n && plan@[j].balance <= crate::migration::MAX_BALANCE,
                forall|j: int| 0 <= j < n ==> (#[trigger] self.workers@[j]).run_queue == before[j].run_queue
                    && self.workers@[j].running == before[j].running,
                forall|j: int| 0 <= j < k ==> (#[trigger] self.workers@[j]).migration@ == plan@[j]
                    && self.workers@[j].reductions == REDUCTIONS && self.workers@[j].max_queue_length == 0,
                self.stopped == old(self).stopped,
            decreases n - k,
        {
            self.workers[k].reductions = REDUCTIONS;
            self.workers[k].max_queue_length = 0;
            self.workers[k].migration.store(plan[k]);
            k = k + 1;
        }
        assert(self.queues() =~= q);
        assert(self.workers().map_values(|w: Worker| w.migration@) =~= plan@);
    }

    /// Stops every worker; nothing is scheduled afterwards.
    pub fn stop_all(&mut self)
        requires
            old(self).wf(),
        ensures
            final(self).wf(),
            final(self).is_stopped(),
            final(self).queues() == old(self).queues(),
            forall|w: int| 0 <= w < final(self).workers().len() ==> !(#[trigger] final(self).workers()[w]).running,
    {
        let ghost q = self.queues();
        let n = self.workers.len();
        let mut k: usize = 0;
        while k < n
            invariant
                n == self.workers@.len(),
                k <= n,
                self.wf(),
                self.queues() == q,
                forall|j: int| 0 <= j < k ==> !(#[trigger] self.workers@[j]).running,
            decreases n - k,
        {
            let ghost qk = self.queues();
            self.workers[k].running = false;
            assert(self.queues() =~= qk);
            k = k + 1;
        }
        self.stopped = true;
    }
    /// Empties every run queue.
    pub fn clear_queues(&mut self)
        requires
            old(self).wf(),
        ensures
            final(self).wf(),
            final(self).queues().len() == old(self).queues().len(),
            final(self).workers().len() == old(self).workers().len(),
            forall|w: int| 0 <= w < final(self).queues().len() ==> #[trigger] final(self).queues()[w].len() == 0,
            final(self).is_stopped() == old(self).is_stopped(),
            forall|w: int| 0 <= w < final(self).workers().len() ==>
                (#[trigger] final(self).workers()[w]).running == old(self).workers()[w].running,
    {
        let n = self.workers.len();
        let mut k: usize = 0;
        while k < n
            invariant
                n == self.workers@.len(),
                k <= n,
                self.wf(),
                self.stopped == old(self).stopped,
                forall|j: int| 0 <= j < k ==> (#[trigger] self.workers@[j]).run_queue@.len() == 0,
                forall|j: int| 0 <= j < n ==> (#[trigger] self.workers@[j]).running == old(self).workers@[j].running,
            decreases n - k,
        {
            self.workers[k].run_queue = crate::worker::RunQueue::new();
            k = k + 1;
        }
    }
}

} // verus!
