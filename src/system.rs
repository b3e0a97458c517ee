use vstd::prelude::*;
use crate::pid::{Pid, INVALID_PID};
use crate::exit::{Exit, Signal};
use crate::actor::{signal_applied, HydratedActor};
use crate::exit::Envelope;
use crate::message_queue::first_match;
use crate::registry::Registry;
use crate::scheduler::{counters_kept, Scheduler};
use crate::migration::Parameters;
use crate::worker::REDUCTIONS;
use crate::unsorted_set::{Keyed, UnsortedSet};
use crate::control_block::{ActorControlBlock, MAX_META_KV};
use crate::metadata::{MetaKeyValue, MetaValue};
use crate::migration::Mode;

verus! {

/// `p` sits in some run queue of `qs`.
pub open spec fn queued(qs: Seq<Seq<Pid>>, p: Pid) -> bool {
    exists|w: int, i: int| 0 <= w < qs.len() && 0 <= i < qs[w].len() && #[trigger] qs[w][i] == p
}

/// The run queues after worker `id` follows migration order `order`: the
/// front process of the longer queue moves to the back of the shorter one
/// when the source is longer than the order's balance and the target
/// shorter.
pub open spec fn migrated(qs: Seq<Seq<Pid>>, id: int, order: Parameters) -> Seq<Seq<Pid>> {
    let from = if order.mode == Mode::Push { id } else { order.target as int };
    let to = if order.mode == Mode::Push { order.target as int } else { id };
    if order.mode != Mode::Idle && 0 <= from < qs.len() && 0 <= to < qs.len()
        && qs[from].len() > order.balance && qs[to].len() < order.balance {
        pushed(popped(qs, from), to, qs[from][0])
    } else {
        qs
    }
}

/// Walking the ring of workers from `from + 1`, worker `w` comes strictly
/// before worker `to`.
pub open spec fn ring_between(from: int, to: int, w: int) -> bool {
    if to > from { from < w < to } else { w > from || w < to }
}

/// No identifier sits twice in the run queues, in one queue or in two.
pub open spec fn no_dups(qs: Seq<Seq<Pid>>) -> bool {
    forall|w1: int, i1: int, w2: int, i2: int|
        0 <= w1 < qs.len() && 0 <= i1 < qs[w1].len() && 0 <= w2 < qs.len() && 0 <= i2 < qs[w2].len()
        && #[trigger] qs[w1][i1] == #[trigger] qs[w2][i2] ==> w1 == w2 && i1 == i2
}

pub open spec fn pushed(qs: Seq<Seq<Pid>>, w: int, p: Pid) -> Seq<Seq<Pid>> {
    qs.update(w, qs[w].push(p))
}

pub open spec fn popped(qs: Seq<Seq<Pid>>, w: int) -> Seq<Seq<Pid>> {
    qs.update(w, qs[w].subrange(1, qs[w].len() as int))
}

/// Appending an identifier that no queue holds keeps the queues free of
/// duplicates.
pub proof fn lemma_push_fresh(qs: Seq<Seq<Pid>>, w: int, p: Pid)
    requires
        no_dups(qs),
        !queued(qs, p),
        0 <= w < qs.len(),
    ensures
        no_dups(pushed(qs, w, p)),
        queued(pushed(qs, w, p), p),
        forall|q: Pid| #[trigger] queued(pushed(qs, w, p), q) <==> (queued(qs, q) || q == p),
{
    let nq = pushed(qs, w, p);
    assert(nq[w][qs[w].len() as int] == p);
    assert forall|w1: int, i1: int, w2: int, i2: int|
        0 <= w1 < nq.len() && 0 <= i1 < nq[w1].len() && 0 <= w2 < nq.len() && 0 <= i2 < nq[w2].len()
        && #[trigger] nq[w1][i1] == #[trigger] nq[w2][i2] implies w1 == w2 && i1 == i2 by {
        let new1 = w1 == w && i1 == qs[w].len();
        let new2 = w2 == w && i2 == qs[w].len();
        if !new1 { assert(nq[w1][i1] == qs[w1][i1]); }
        if !new2 { assert(nq[w2][i2] == qs[w2][i2]); }
    }
    assert forall|q: Pid| #[trigger] queued(nq, q) <==> (queued(qs, q) || q == p) by {
        if queued(qs, q) {
            let (a, b) = choose|a: int, b: int| 0 <= a < qs.len() && 0 <= b < qs[a].len() && #[trigger] qs[a][b] == q;
            assert(nq[a][b] == q);
        }
        if queued(nq, q) {
            let (a, b) = choose|a: int, b: int| 0 <= a < nq.len() && 0 <= b < nq[a].len() && #[trigger] nq[a][b] == q;
            if !(a == w && b == qs[w].len()) {
                assert(qs[a][b] == q);
            }
        }
    }
}

/// Taking the front of a queue keeps the queues free of duplicates, and
/// the identifier taken no longer sits in any queue.
pub proof fn lemma_pop(qs: Seq<Seq<Pid>>, w: int)
    requires
        no_dups(qs),
        0 <= w < qs.len(),
        qs[w].len() > 0,
    ensures
        no_dups(popped(qs, w)),
        forall|q: Pid| #[trigger] queued(popped(qs, w), q) <==> (queued(qs, q) && q != qs[w][0]),
{
    let nq = popped(qs, w);
    assert forall|w1: int, i1: int, w2: int, i2: int|
        0 <= w1 < nq.len() && 0 <= i1 < nq[w1].len() && 0 <= w2 < nq.len() && 0 <= i2 < nq[w2].len()
        && #[trigger] nq[w1][i1] == #[trigger] nq[w2][i2] implies w1 == w2 && i1 == i2 by {
        let j1 = if w1 == w { i1 + 1 } else { i1 };
        let j2 = if w2 == w { i2 + 1 } else { i2 };
        assert(nq[w1][i1] == qs[w1][j1]);
        assert(nq[w2][i2] == qs[w2][j2]);
    }
    assert forall|q: Pid| #[trigger] queued(nq, q) <==> (queued(qs, q) && q != qs[w][0]) by {
        if queued(qs, q) && q != qs[w][0] {
            let (a, b) = choose|a: int, b: int| 0 <= a < qs.len() && 0 <= b < qs[a].len() && #[trigger] qs[a][b] == q;
            if a == w {
                assert(b != 0);
                assert(nq[a][b - 1] == q);
            } else {
                assert(nq[a][b] == q);
            }
        }
        if queued(nq, q) {
            let (a, b) = choose|a: int, b: int| 0 <= a < nq.len() && 0 <= b < nq[a].len() && #[trigger] nq[a][b] == q;
            let j = if a == w { b + 1 } else { b };
            assert(qs[a][j] == q);
            assert(qs[w][0] == qs[w][0]);
            if q == qs[w][0] {
                assert(a == w && j == 0);
            }
        }
    }
}

/// The runtime state: the processes and the workers' run queues.
pub struct System<M> {
    pub registry: Registry<M>,
    pub scheduler: Scheduler,
}

impl<M> System<M> {
    pub open spec fn queues(&self) -> Seq<Seq<Pid>> {
        self.scheduler.queues()
    }

    pub open spec fn live(&self) -> Map<u64, HydratedActor<M>> {
        self.registry.live()
    }

    /// Whether process `p` is live and has its flag `is_scheduled` set.
    pub open spec fn is_scheduled(&self, p: Pid) -> bool {
        self.live().contains_key(p.0) && self.live()[p.0].control_block.is_scheduled
    }

    /// Whether process `p` is live and a worker is polling it.
    pub open spec fn is_running(&self, p: Pid) -> bool {
        self.live().contains_key(p.0) && self.live()[p.0].control_block.is_running
    }

    /// The scheduling invariant.
    pub open spec fn inv(&self) -> bool {
        &&& self.registry.wf()
        &&& self.scheduler.wf()
        &&& self.queues().len() <= crate::scheduler::MAX_WORKERS
        &&& no_dups(self.queues())
        &&& forall|w: int, i: int| 0 <= w < self.queues().len() && 0 <= i < self.queues()[w].len() ==> {
            let p = #[trigger] self.queues()[w][i];
            self.is_scheduled(p) && !self.is_running(p)
        }
        &&& forall|k: u64| #[trigger] self.live().contains_key(k) ==> {
            let a = self.live()[k];
            &&& a.control_block.pid.0 == k
            &&& a.wf()
            &&& k < self.registry.next_pid()
            &&& a.control_block.worker_id < self.queues().len()
            &&& a.control_block.is_scheduled && !a.control_block.is_running ==> queued(self.queues(), a.control_block.pid)
        }
    }

    pub fn new() -> (r: Self)
        ensures
            r.inv(),
            r.queues() == Seq::<Seq<Pid>>::empty(),
            r.live() == Map::<u64, HydratedActor<M>>::empty(),
    {
        System { registry: Registry::new(), scheduler: Scheduler::new() }
    }

    /// Adds a worker; returns its id.
    pub fn add_worker(&mut self) -> (r: usize)
        requires
            old(self).inv(),
            old(self).queues().len() < crate::scheduler::MAX_WORKERS,
        ensures
            final(self).inv(),
            final(self).scheduler.is_stopped() == old(self).scheduler.is_stopped(),
            r == old(self).queues().len(),
            final(self).queues() == old(self).queues().push(Seq::<Pid>::empty()),
            final(self).live() == old(self).live(),
    {
        let ghost qs = self.queues();
        let r = self.scheduler.allocate_slot();
        let ghost nq = self.queues();
        assert forall|w1: int, i1: int, w2: int, i2: int|
            0 <= w1 < nq.len() && 0 <= i1 < nq[w1].len() && 0 <= w2 < nq.len() && 0 <= i2 < nq[w2].len()
            && #[trigger] nq[w1][i1] == #[trigger] nq[w2][i2] implies w1 == w2 && i1 == i2 by {
            assert(nq[w1][i1] == qs[w1][i1]);
            assert(nq[w2][i2] == qs[w2][i2]);
        }
        assert forall|w: int, i: int| 0 <= w < nq.len() && 0 <= i < nq[w].len() implies
            self.is_scheduled(#[trigger] nq[w][i]) && !self.is_running(nq[w][i]) by {
            assert(nq[w][i] == qs[w][i]);
        }
        assert forall|q: Pid| queued(qs, q) implies queued(nq, q) by {
            let (a, b) = choose|a: int, b: int| 0 <= a < qs.len() && 0 <= b < qs[a].len() && #[trigger] qs[a][b] == q;
            assert(nq[a][b] == q);
        }
        assert forall|k: u64| #[trigger] self.live().contains_key(k) implies {
            let a = self.live()[k];
            &&& a.control_block.pid.0 == k
            &&& a.wf()
            &&& k < self.registry.next_pid()
            &&& a.control_block.worker_id < self.queues().len()
            &&& a.control_block.is_scheduled && !a.control_block.is_running ==> queued(self.queues(), a.control_block.pid)
        } by {
            assert(old(self).live().contains_key(k));
            let a = self.live()[k];
            if a.control_block.is_scheduled && !a.control_block.is_running {
                assert(queued(qs, a.control_block.pid));
            }
        }
        r
    }

    /// Puts process `pid` on its worker's run queue unless it is there
    /// already. A process that is being polled is only marked; it goes to
    /// the queue when its turn ends. Unknown processes are ignored.
    pub fn schedule(&mut self, pid: Pid)
        requires
            old(self).inv(),
        ensures
            final(self).inv(),
            final(self).scheduler.is_stopped() == old(self).scheduler.is_stopped(),
            final(self).live().dom() == old(self).live().dom(),
            old(self).scheduler.is_stopped() || !old(self).live().contains_key(pid.0) || old(self).is_scheduled(pid) ==>
                final(self).live() == old(self).live() && final(self).queues() == old(self).queues(),
            !old(self).scheduler.is_stopped() && old(self).live().contains_key(pid.0) && !old(self).is_scheduled(pid) ==> {
                let a = old(self).live()[pid.0];
                &&& final(self).live() == old(self).live().insert(pid.0, HydratedActor {
                    control_block: crate::control_block::ActorControlBlock { is_scheduled: true, ..a.control_block },
                    ..a
                })
                &&& final(self).queues() == if a.control_block.is_running { old(self).queues() } else {
                    pushed(old(self).queues(), a.control_block.worker_id as int, pid)
                }
            },
            final(self).registry.next_pid() == old(self).registry.next_pid(),
    {
        if self.scheduler.is_halted() {
            return;
        }
        let ghost qs = self.queues();
        let ghost live = self.live();
        match self.registry.take(pid) {
            None => {
                assert(self.live() =~= live);
            },
            Some(mut a) => {
                assert(live.contains_key(pid.0));
                assert(a.control_block.pid == pid);
                assert(a.control_block.worker_id < qs.len());
                if a.control_block.try_schedule() {
                    let running = a.control_block.is_running;
                    let w = a.control_block.worker_id as usize;
                    let ghost a2 = a;
                    self.registry.add(a);
                    assert(self.live() =~= live.insert(pid.0, a2));
                    if !running {
                        proof {
                            assert(!queued(qs, pid)) by {
                                if queued(qs, pid) {
                                    let (x, y) = choose|x: int, y: int| 0 <= x < qs.len() && 0 <= y < qs[x].len() && #[trigger] qs[x][y] == pid;
                                    assert(live[pid.0].control_block.is_scheduled);
                                }
                            }
                            lemma_push_fresh(qs, w as int, pid);
                        }
                        self.scheduler.push_to(w, pid);
                    }
                    proof { self.lemma_inv_after_flag_change(qs, live, pid); }

                } else {
                    self.registry.add(a);
                    assert(self.live() =~= live);
                }
            },
        }
    }

    /// After one process's entry changed and the queues changed only by
    /// where that process sits, the invariant holds again if that process
    /// satisfies it.
    proof fn lemma_inv_after_flag_change(&self, qs: Seq<Seq<Pid>>, live: Map<u64, HydratedActor<M>>, pid: Pid)
        requires
            self.registry.wf(),
            self.scheduler.wf(),
            no_dups(qs),
            no_dups(self.queues()),
            self.queues().len() == qs.len(),
            qs.len() <= crate::scheduler::MAX_WORKERS,
            forall|w: int, i: int| 0 <= w < qs.len() && 0 <= i < qs[w].len() ==> {
                let p = #[trigger] qs[w][i];
                live.contains_key(p.0) && live[p.0].control_block.is_scheduled && !live[p.0].control_block.is_running
            },
            forall|k: u64| #[trigger] live.contains_key(k) ==> {
                let a = live[k];
                &&& a.control_block.pid.0 == k
                &&& a.wf()
                &&& k < self.registry.next_pid()
                &&& a.control_block.worker_id < qs.len()
                &&& a.control_block.is_scheduled && !a.control_block.is_running ==> queued(qs, a.control_block.pid)
            },
            self.live().dom() == live.dom(),
            forall|k: u64| k != pid.0 && #[trigger] live.contains_key(k) ==> self.live()[k] == live[k],
            forall|q: Pid| q != pid ==> (#[trigger] queued(self.queues(), q) <==> queued(qs, q)),
            queued(self.queues(), pid) ==> self.live().contains_key(pid.0),
            self.live().contains_key(pid.0) ==> {
                let a = self.live()[pid.0];
                &&& a.control_block.pid == pid
                &&& a.wf()
                &&& pid.0 < self.registry.next_pid()
                &&& a.control_block.worker_id < qs.len()
                &&& (a.control_block.is_scheduled && !a.control_block.is_running <==> queued(self.queues(), pid))
            },
        ensures
            self.inv(),
    {
        let nq = self.queues();
        assert forall|w: int, i: int| 0 <= w < nq.len() && 0 <= i < nq[w].len() implies
            self.is_scheduled(#[trigger] nq[w][i]) && !self.is_running(nq[w][i]) by {
            let p = nq[w][i];
            assert(queued(nq, p));
            if p != pid {
                assert(queued(qs, p));
                let (x, y) = choose|x: int, y: int| 0 <= x < qs.len() && 0 <= y < qs[x].len() && #[trigger] qs[x][y] == p;
                assert(live.contains_key(p.0));
            }
        }
        assert forall|k: u64| #[trigger] self.live().contains_key(k) implies {
            let a = self.live()[k];
            &&& a.control_block.pid.0 == k
            &&& a.wf()
            &&& k < self.registry.next_pid()
            &&& a.control_block.worker_id < self.queues().len()
            &&& a.control_block.is_scheduled && !a.control_block.is_running ==> queued(self.queues(), a.control_block.pid)
        } by {
            assert(live.contains_key(k));
            if k != pid.0 {
                assert(self.live()[k] == live[k]);
                assert(live[k].control_block.pid != pid);
            }
        }
    }
    /// Delivers `signal` to process `to` and schedules it. The signal is
    /// dropped only when `to` is not live.
    pub fn send_signal(&mut self, to: Pid, signal: Signal<M>)
        requires
            old(self).inv(),
        ensures
            final(self).inv(),
            final(self).scheduler.is_stopped() == old(self).scheduler.is_stopped(),
            final(self).live().dom() == old(self).live().dom(),
            final(self).registry.next_pid() == old(self).registry.next_pid(),
            !old(self).live().contains_key(to.0) ==> final(self).live() == old(self).live()
                && final(self).queues() == old(self).queues(),
            old(self).live().contains_key(to.0) ==> {
                &&& final(self).live()[to.0].inbox@ == old(self).live()[to.0].inbox@.push(signal)
                &&& final(self).live()[to.0].messages@ == old(self).live()[to.0].messages@
                &&& !old(self).scheduler.is_stopped() ==> final(self).is_scheduled(to)
                &&& final(self).live()[to.0].control_block.links == old(self).live()[to.0].control_block.links
                &&& final(self).live()[to.0].control_block.trap_exit == old(self).live()[to.0].control_block.trap_exit
            },
            forall|k: u64| k != to.0 && #[trigger] old(self).live().contains_key(k) ==> final(self).live()[k] == old(self).live()[k],
    {
        let ghost qs = self.queues();
        let ghost live = self.live();
        match self.registry.take(to) {
            None => {
                assert(self.live() =~= live);
            },
            Some(mut a) => {
                assert(live.contains_key(to.0));
                a.send_signal(signal);
                self.registry.add(a);
                proof { self.lemma_inv_after_flag_change(qs, live, to); }
                self.schedule(to);
            },
        }
    }

    /// Sends `message` to process `to`.
    pub fn send(&mut self, to: Pid, message: M)
        requires
            old(self).inv(),
        ensures
            final(self).inv(),
            final(self).scheduler.is_stopped() == old(self).scheduler.is_stopped(),
            final(self).live().dom() == old(self).live().dom(),
            final(self).registry.next_pid() == old(self).registry.next_pid(),
            !old(self).live().contains_key(to.0) ==> final(self).live() == old(self).live()
                && final(self).queues() == old(self).queues(),
            old(self).live().contains_key(to.0) ==> {
                &&& final(self).live()[to.0].inbox@ == old(self).live()[to.0].inbox@.push(Signal::Message(message))
                &&& final(self).live()[to.0].messages@ == old(self).live()[to.0].messages@
                &&& !old(self).scheduler.is_stopped() ==> final(self).is_scheduled(to)
            },
            forall|k: u64| k != to.0 && #[trigger] old(self).live().contains_key(k) ==> final(self).live()[k] == old(self).live()[k],
    {
        self.send_signal(to, Signal::Message(message));
    }

    /// Takes the next process from worker `id`'s queue and marks it
    /// running. The caller polls it, then calls `end_run`.
    pub fn begin_run(&mut self, id: usize) -> (r: Option<Pid>)
        requires
            old(self).inv(),
            id < old(self).queues().len(),
        ensures
            counters_kept(old(self).scheduler.workers(), final(self).scheduler.workers(), -1),
            final(self).inv(),
            final(self).scheduler.is_stopped() == old(self).scheduler.is_stopped(),
            final(self).live().dom() == old(self).live().dom(),
            final(self).registry.next_pid() == old(self).registry.next_pid(),
            old(self).queues()[id as int].len() == 0 ==> r is None && final(self).live() == old(self).live()
                && final(self).queues() == old(self).queues(),
            old(self).queues()[id as int].len() > 0 ==> {
                let p = old(self).queues()[id as int][0];
                &&& r == Some(p)
                &&& final(self).queues() == popped(old(self).queues(), id as int)
                &&& final(self).is_running(p)
                &&& !final(self).is_scheduled(p)
                &&& final(self).live()[p.0] == (HydratedActor {
                    control_block: crate::control_block::ActorControlBlock {
                        is_scheduled: false,
                        is_running: true,
                        ..old(self).live()[p.0].control_block
                    },
                    ..old(self).live()[p.0]
                })
            },
            forall|k: u64| #[trigger] old(self).live().contains_key(k) && r != Some(Pid(k)) ==> final(self).live()[k] == old(self).live()[k],
    {
        let ghost qs = self.queues();
        let ghost live = self.live();
        match self.scheduler.pop_from(id) {
            None => {
                None
            },
            Some(p) => {
                proof {
                    assert(qs[id as int][0] == p);
                    assert(live.contains_key(p.0));
                    lemma_pop(qs, id as int);
                }
                let mut a = self.registry.take(p).unwrap();
                a.control_block.is_scheduled = false;
                a.control_block.is_running = true;
                self.registry.add(a);
                proof { self.lemma_inv_after_flag_change(qs, live, p); }
                Some(p)
            },
        }
    }

    /// Ends the turn of a process that stays alive: it goes back to its
    /// worker's queue when it was scheduled during the turn or still has
    /// signals waiting.
    pub fn end_run(&mut self, pid: Pid)
        requires
            old(self).inv(),
            old(self).is_running(pid),
        ensures
            final(self).inv(),
            final(self).scheduler.is_stopped() == old(self).scheduler.is_stopped(),
            final(self).live().dom() == old(self).live().dom(),
            final(self).registry.next_pid() == old(self).registry.next_pid(),
            !final(self).is_running(pid),
            ({
                let a = old(self).live()[pid.0];
                let again = a.control_block.is_scheduled || a.inbox@.len() > 0;
                &&& final(self).live()[pid.0] == (HydratedActor {
                    control_block: crate::control_block::ActorControlBlock {
                        is_scheduled: again,
                        is_running: false,
                        ..a.control_block
                    },
                    ..a
                })
                &&& final(self).queues() == if again {
                    pushed(old(self).queues(), a.control_block.worker_id as int, pid)
                } else {
                    old(self).queues()
                }
            }),
            forall|k: u64| k != pid.0 && #[trigger] old(self).live().contains_key(k) ==> final(self).live()[k] == old(self).live()[k],
    {
        let ghost qs = self.queues();
        let ghost live = self.live();
        assert(live.contains_key(pid.0));
        let mut a = self.registry.take(pid).unwrap();
        let again = a.control_block.is_scheduled || a.has_messages();
        a.control_block.is_running = false;
        a.control_block.is_scheduled = again;
        let w = a.control_block.worker_id as usize;
        self.registry.add(a);
        if again {
            proof {
                assert(!queued(qs, pid)) by {
                    if queued(qs, pid) {
                        let (x, y) = choose|x: int, y: int| 0 <= x < qs.len() && 0 <= y < qs[x].len() && #[trigger] qs[x][y] == pid;
                    }
                }
                lemma_push_fresh(qs, w as int, pid);
            }
            self.scheduler.push_to(w, pid);
        }
        proof {
            if !again {
                assert(!queued(qs, pid)) by {
                    if queued(qs, pid) {
                        let (x, y) = choose|x: int, y: int| 0 <= x < qs.len() && 0 <= y < qs[x].len() && #[trigger] qs[x][y] == pid;
                    }
                }
            }
            self.lemma_inv_after_flag_change(qs, live, pid);
        }
    }
    /// Moves the front process of queue `from` to the back of queue `to`
    /// and makes `to` its home worker, when `from` is longer than `balance`
    /// and `to` shorter. Returns whether a process moved.
    pub fn migrate(&mut self, from: usize, to: usize, balance: usize) -> (r: bool)
        requires
            old(self).inv(),
        ensures
            counters_kept(old(self).scheduler.workers(), final(self).scheduler.workers(), -1),
            final(self).inv(),
            final(self).scheduler.is_stopped() == old(self).scheduler.is_stopped(),
            final(self).live().dom() == old(self).live().dom(),
            final(self).registry.next_pid() == old(self).registry.next_pid(),
            r == (from < old(self).queues().len() && to < old(self).queues().len()
                && old(self).queues()[from as int].len() > balance && old(self).queues()[to as int].len() < balance),
            !r ==> final(self).live() == old(self).live() && final(self).queues() == old(self).queues(),
            r ==> {
                let p = old(self).queues()[from as int][0];
                &&& final(self).queues() == pushed(popped(old(self).queues(), from as int), to as int, p)
                &&& final(self).live()[p.0].control_block.worker_id == to
                &&& final(self).is_scheduled(p) && !final(self).is_running(p)
                &&& forall|k: u64| k != p.0 && #[trigger] old(self).live().contains_key(k) ==> final(self).live()[k] == old(self).live()[k]
            },
    {
        let n = self.scheduler.count();
        if from >= n || to >= n {
            return false;
        }
        if !(self.scheduler.queue_len(from) > balance && self.scheduler.queue_len(to) < balance) {
            return false;
        }
        let ghost qs = self.queues();
        let ghost live = self.live();
        let p = self.scheduler.pop_from(from).unwrap();
        proof {
            assert(qs[from as int][0] == p);
            assert(live.contains_key(p.0));
            lemma_pop(qs, from as int);
            lemma_push_fresh(popped(qs, from as int), to as int, p);
        }
        let mut a = self.registry.take(p).unwrap();
        a.control_block.worker_id = to as u64;
        self.registry.add(a);
        self.scheduler.push_to(to, p);
        proof { self.lemma_inv_after_flag_change(qs, live, p); }
        true
    }

    /// Pushes one process from worker `source` to the worker its migration
    /// order names.
    pub fn try_push(&mut self, source: usize, parameters: crate::migration::Parameters) -> (r: bool)
        requires
            old(self).inv(),
        ensures
            counters_kept(old(self).scheduler.workers(), final(self).scheduler.workers(), -1),
            final(self).inv(),
            final(self).scheduler.is_stopped() == old(self).scheduler.is_stopped(),
            final(self).live().dom() == old(self).live().dom(),
            final(self).registry.next_pid() == old(self).registry.next_pid(),
            r == (source < old(self).queues().len() && parameters.target < old(self).queues().len()
                && old(self).queues()[source as int].len() > parameters.balance
                && old(self).queues()[parameters.target as int].len() < parameters.balance),
            !r ==> final(self).live() == old(self).live() && final(self).queues() == old(self).queues(),
            r ==> final(self).queues() == pushed(popped(old(self).queues(), source as int), parameters.target as int,
                old(self).queues()[source as int][0]),
    {
        self.migrate(source, parameters.target, parameters.balance)
    }

    /// Pulls one process to worker `target` from the worker its migration
    /// order names.
    pub fn try_pull(&mut self, target: usize, parameters: crate::migration::Parameters) -> (r: bool)
        requires
            old(self).inv(),
        ensures
            counters_kept(old(self).scheduler.workers(), final(self).scheduler.workers(), -1),
            final(self).inv(),
            final(self).scheduler.is_stopped() == old(self).scheduler.is_stopped(),
            final(self).live().dom() == old(self).live().dom(),
            final(self).registry.next_pid() == old(self).registry.next_pid(),
            r == (parameters.target < old(self).queues().len() && target < old(self).queues().len()
                && old(self).queues()[parameters.target as int].len() > parameters.balance
                && old(self).queues()[target as int].len() < parameters.balance),
            !r ==> final(self).live() == old(self).live() && final(self).queues() == old(self).queues(),
            r ==> final(self).queues() == pushed(popped(old(self).queues(), parameters.target as int), target as int,
                old(self).queues()[parameters.target as int][0]),
    {
        self.migrate(parameters.target, target, parameters.balance)
    }

    /// Takes the front process of worker `victim`'s queue for worker
    /// `thief`: it moves to the back of the thief's queue and the thief
    /// becomes its home worker. A process being polled is never moved.
    fn steal_from(&mut self, thief: usize, victim: usize) -> (r: Option<Pid>)
        requires
            old(self).inv(),
            thief < old(self).queues().len(),
            victim < old(self).queues().len(),
            thief != victim,
        ensures
            counters_kept(old(self).scheduler.workers(), final(self).scheduler.workers(), -1),
            final(self).inv(),
            final(self).scheduler.is_stopped() == old(self).scheduler.is_stopped(),
            final(self).live().dom() == old(self).live().dom(),
            final(self).registry.next_pid() == old(self).registry.next_pid(),
            old(self).queues()[victim as int].len() == 0 ==> r is None && final(self).live() == old(self).live()
                && final(self).queues() == old(self).queues(),
            old(self).queues()[victim as int].len() > 0 ==> {
                let p = old(self).queues()[victim as int][0];
                &&& r == Some(p)
                &&& final(self).queues() == pushed(popped(old(self).queues(), victim as int), thief as int, p)
                &&& final(self).live()[p.0].control_block.worker_id == thief
            },
    {
        let ghost qs = self.queues();
        let ghost live = self.live();
        match self.scheduler.pop_from(victim) {
            None => None,
            Some(p) => {
                proof {
                    assert(qs[victim as int][0] == p);
                    assert(live.contains_key(p.0));
                    lemma_pop(qs, victim as int);
                    lemma_push_fresh(popped(qs, victim as int), thief as int, p);
                }
                let mut a = self.registry.take(p).unwrap();
                if a.control_block.is_running {
                    // A process being polled is left where it was; the
                    // invariant keeps such processes out of the queues.
                    assert(false);
                    self.registry.add(a);
                    self.scheduler.push_to(victim, p);
                    return None;
                }
                a.control_block.worker_id = thief as u64;
                self.registry.add(a);
                self.scheduler.push_to(thief, p);
                proof { self.lemma_inv_after_flag_change(qs, live, p); }
                Some(p)
            },
        }
    }

    /// Steals one process for worker `id` from another worker, walking the
    /// ring of workers from `id + 1`. Returns `None` only when every other
    /// queue is empty.
    pub fn try_steal(&mut self, id: usize) -> (r: Option<Pid>)
        requires
            old(self).inv(),
            id < old(self).queues().len(),
        ensures
            counters_kept(old(self).scheduler.workers(), final(self).scheduler.workers(), -1),
            final(self).inv(),
            final(self).scheduler.is_stopped() == old(self).scheduler.is_stopped(),
            final(self).live().dom() == old(self).live().dom(),
            final(self).registry.next_pid() == old(self).registry.next_pid(),
            r is None ==> final(self).live() == old(self).live() && final(self).queues() == old(self).queues()
                && forall|w: int| 0 <= w < old(self).queues().len() && w != id ==> #[trigger] old(self).queues()[w].len() == 0,
            r matches Some(p) ==> !old(self).is_running(p) && exists|v: int| 0 <= v < old(self).queues().len() && v != id
                && #[trigger] old(self).queues()[v].len() > 0 && p == old(self).queues()[v][0]
                && final(self).queues() == pushed(popped(old(self).queues(), v), id as int, p)
                && final(self).live()[p.0].control_block.worker_id == id
                && forall|w: int| 0 <= w < old(self).queues().len() && ring_between(id as int, v, w)
                    ==> #[trigger] old(self).queues()[w].len() == 0,
    {
        let n = self.scheduler.count();
        let ghost qs = self.queues();
        let mut i: usize = id + 1;
        while i < n
            invariant
                self.inv(),
                self.live() == old(self).live(),
                self.registry.next_pid() == old(self).registry.next_pid(),
                self.scheduler.is_stopped() == old(self).scheduler.is_stopped(),
                counters_kept(old(self).scheduler.workers(), self.scheduler.workers(), -1),
                n == qs.len(),
                qs == self.queues(),
                qs == old(self).queues(),
                id < n,
                id + 1 <= i <= n,
                forall|w: int| id < w < i ==> #[trigger] qs[w].len() == 0,
            decreases n - i,
        {
            let r = self.steal_from(id, i);
            if r.is_some() {
                assert(old(self).queues()[i as int].len() > 0);
                assert(old(self).live().contains_key(old(self).queues()[i as int][0].0));
                return r;
            }
            i = i + 1;
        }
        let mut j: usize = 0;
        while j < id
            invariant
                self.inv(),
                self.live() == old(self).live(),
                self.registry.next_pid() == old(self).registry.next_pid(),
                self.scheduler.is_stopped() == old(self).scheduler.is_stopped(),
                counters_kept(old(self).scheduler.workers(), self.scheduler.workers(), -1),
                n == qs.len(),
                qs == self.queues(),
                qs == old(self).queues(),
                id < n,
                j <= id,
                forall|w: int| (id < w < n || 0 <= w < j) ==> #[trigger] qs[w].len() == 0,
            decreases id - j,
        {
            let r = self.steal_from(id, j);
            if r.is_some() {
                assert(old(self).queues()[j as int].len() > 0);
                assert(old(self).live().contains_key(old(self).queues()[j as int][0].0));
                return r;
            }
            j = j + 1;
        }
        None
    }
    /// After process `pid`, which sat in no queue, left the table, the
    /// invariant holds again.
    proof fn lemma_inv_after_remove(&self, qs: Seq<Seq<Pid>>, live: Map<u64, HydratedActor<M>>, pid: Pid)
        requires
            self.registry.wf(),
            self.scheduler.wf(),
            self.queues() == qs,
            qs.len() <= crate::scheduler::MAX_WORKERS,
            no_dups(qs),
            !queued(qs, pid),
            forall|w: int, i: int| 0 <= w < qs.len() && 0 <= i < qs[w].len() ==> {
                let p = #[trigger] qs[w][i];
                live.contains_key(p.0) && live[p.0].control_block.is_scheduled && !live[p.0].control_block.is_running
            },
            forall|k: u64| #[trigger] live.contains_key(k) ==> {
                let a = live[k];
                &&& a.control_block.pid.0 == k
                &&& a.wf()
                &&& k < self.registry.next_pid()
                &&& a.control_block.worker_id < qs.len()
                &&& a.control_block.is_scheduled && !a.control_block.is_running ==> queued(qs, a.control_block.pid)
            },
            self.live() == live.remove(pid.0),
        ensures
            self.inv(),
    {
        assert forall|w: int, i: int| 0 <= w < qs.len() && 0 <= i < qs[w].len() implies
            self.is_scheduled(#[trigger] qs[w][i]) && !self.is_running(qs[w][i]) by {
            if qs[w][i] == pid {
                assert(queued(qs, pid));
            }
        }
        assert forall|k: u64| #[trigger] self.live().contains_key(k) implies {
            let a = self.live()[k];
            &&& a.control_block.pid.0 == k
            &&& a.wf()
            &&& k < self.registry.next_pid()
            &&& a.control_block.worker_id < self.queues().len()
            &&& a.control_block.is_scheduled && !a.control_block.is_running ==> queued(self.queues(), a.control_block.pid)
        } by {
            assert(live.contains_key(k));
        }
    }

    /// Ends process `pid`, which a worker was polling, with `reason`: it
    /// leaves the table, and every live process linked to it receives one
    /// `Exit(pid, reason)` signal and is scheduled.
    pub fn terminate(&mut self, pid: Pid, reason: Exit)
        requires
            old(self).inv(),
            old(self).is_running(pid),
        ensures
            final(self).inv(),
            final(self).scheduler.is_stopped() == old(self).scheduler.is_stopped(),
            final(self).live().dom() == old(self).live().dom().remove(pid.0),
            final(self).registry.next_pid() == old(self).registry.next_pid(),
            forall|k: u64| k != pid.0 && #[trigger] old(self).live().contains_key(k) ==> {
                &&& final(self).live()[k].inbox@ == if old(self).live()[pid.0].control_block.linked(Pid(k)) {
                    old(self).live()[k].inbox@.push(Signal::Exit(pid, reason))
                } else {
                    old(self).live()[k].inbox@
                }
                &&& final(self).live()[k].messages@ == old(self).live()[k].messages@
                &&& final(self).live()[k].control_block.links == old(self).live()[k].control_block.links
                &&& old(self).live()[pid.0].control_block.linked(Pid(k)) && !old(self).scheduler.is_stopped()
                    ==> final(self).is_scheduled(Pid(k))
            },
    {
        let ghost qs = self.queues();
        let ghost live = self.live();
        assert(live.contains_key(pid.0));
        let a = self.registry.take(pid).unwrap();
        proof {
            assert(!queued(qs, pid)) by {
                if queued(qs, pid) {
                    let (x, y) = choose|x: int, y: int| 0 <= x < qs.len() && 0 <= y < qs[x].len() && #[trigger] qs[x][y] == pid;
                }
            }
            self.lemma_inv_after_remove(qs, live, pid);
        }
        let links = a.control_block.links.iter();
        let ghost ls = links@;
        proof { a.control_block.links.lemma_items_distinct(); }
        let ghost mid = self.live();
        let mut j: usize = 0;
        while j < links.len()
            invariant
                self.inv(),
                links@ == ls,
                ls == a.control_block.links.items(),
                crate::unsorted_set::keys_distinct(ls),
                j <= ls.len(),
                self.live().dom() == mid.dom(),
                mid == live.remove(pid.0),
                self.registry.next_pid() == old(self).registry.next_pid(),
                self.scheduler.is_stopped() == old(self).scheduler.is_stopped(),
                forall|k: u64| #[trigger] mid.contains_key(k) ==> {
                    &&& self.live()[k].inbox@ == if crate::unsorted_set::has_key(ls.subrange(0, j as int), k) {
                        mid[k].inbox@.push(Signal::Exit(pid, reason))
                    } else {
                        mid[k].inbox@
                    }
                    &&& self.live()[k].messages@ == mid[k].messages@
                    &&& self.live()[k].control_block.links == mid[k].control_block.links
                    &&& crate::unsorted_set::has_key(ls.subrange(0, j as int), k) && !self.scheduler.is_stopped()
                        ==> self.live()[k].control_block.is_scheduled
                },
            decreases ls.len() - j,
        {
            let l = links[j];
            let ghost before = self.live();
            let ghost p = ls.subrange(0, j as int);
            let ghost q = ls.subrange(0, j as int + 1);
            assert(q =~= p.push(l));
            proof {
                if crate::unsorted_set::has_key(p, l.0) {
                    let m = choose|m: int| 0 <= m < p.len() && (#[trigger] p[m]).key() == l.0;
                    assert(ls[m] == p[m]);
                }
            }
            self.send_signal(l, Signal::Exit(pid, reason.duplicate()));
            assert forall|k: u64| #[trigger] mid.contains_key(k) implies {
                &&& self.live()[k].inbox@ == if crate::unsorted_set::has_key(q, k) {
                    mid[k].inbox@.push(Signal::Exit(pid, reason))
                } else {
                    mid[k].inbox@
                }
                &&& self.live()[k].messages@ == mid[k].messages@
                &&& self.live()[k].control_block.links == mid[k].control_block.links
                &&& crate::unsorted_set::has_key(q, k) && !self.scheduler.is_stopped()
                    ==> self.live()[k].control_block.is_scheduled
            } by {
                crate::unsorted_set::lemma_has_key_push(p, l, k);
                assert(before.contains_key(k));
            }
            j = j + 1;
        }
        assert(ls.subrange(0, ls.len() as int) =~= ls);
        assert forall|k: u64| k != pid.0 && #[trigger] old(self).live().contains_key(k) implies
            final(self).live()[k].inbox@ == if old(self).live()[pid.0].control_block.linked(Pid(k)) {
                old(self).live()[k].inbox@.push(Signal::Exit(pid, reason))
            } else {
                old(self).live()[k].inbox@
            } by {
            assert(mid.contains_key(k));
        }
        assert forall|k: u64| k != pid.0 && #[trigger] old(self).live().contains_key(k)
            && old(self).live()[pid.0].control_block.linked(Pid(k)) && !old(self).scheduler.is_stopped()
            implies final(self).is_scheduled(Pid(k)) by {
            assert(mid.contains_key(k));
        }
    }
    /// After a process that sits in no queue and is neither scheduled nor
    /// running joined the table, the invariant holds again.
    proof fn lemma_inv_after_add(&self, qs: Seq<Seq<Pid>>, live: Map<u64, HydratedActor<M>>, pid: Pid)
        requires
            self.registry.wf(),
            self.scheduler.wf(),
            self.queues() == qs,
            qs.len() <= crate::scheduler::MAX_WORKERS,
            no_dups(qs),
            forall|w: int, i: int| 0 <= w < qs.len() && 0 <= i < qs[w].len() ==> {
                let p = #[trigger] qs[w][i];
                live.contains_key(p.0) && live[p.0].control_block.is_scheduled && !live[p.0].control_block.is_running
            },
            forall|k: u64| #[trigger] live.contains_key(k) ==> {
                let a = live[k];
                &&& a.control_block.pid.0 == k
                &&& a.wf()
                &&& k < self.registry.next_pid()
                &&& a.control_block.worker_id < qs.len()
                &&& a.control_block.is_scheduled && !a.control_block.is_running ==> queued(qs, a.control_block.pid)
            },
            !live.contains_key(pid.0),
            self.live().dom() == live.dom().insert(pid.0),
            forall|k: u64| #[trigger] live.contains_key(k) ==> self.live()[k] == live[k],
            ({
                let a = self.live()[pid.0];
                &&& a.control_block.pid == pid
                &&& a.wf()
                &&& pid.0 < self.registry.next_pid()
                &&& a.control_block.worker_id < qs.len()
                &&& !a.control_block.is_scheduled
                &&& !a.control_block.is_running
            }),
        ensures
            self.inv(),
    {
        assert forall|w: int, i: int| 0 <= w < qs.len() && 0 <= i < qs[w].len() implies
            self.is_scheduled(#[trigger] qs[w][i]) && !self.is_running(qs[w][i]) by {
            assert(live.contains_key(qs[w][i].0));
        }
        assert forall|k: u64| #[trigger] self.live().contains_key(k) implies {
            let a = self.live()[k];
            &&& a.control_block.pid.0 == k
            &&& a.wf()
            &&& k < self.registry.next_pid()
            &&& a.control_block.worker_id < self.queues().len()
            &&& a.control_block.is_scheduled && !a.control_block.is_running ==> queued(self.queues(), a.control_block.pid)
        } by {
            if k != pid.0 {
                assert(live.contains_key(k));
            }
        }
    }

    /// Creates a process and schedules it. It runs on the worker of
    /// `parent` and starts with a copy of `parent`'s metadata; when
    /// `parent` is not live, on worker 0 with no metadata.
    pub fn spawn(&mut self, parent: Pid) -> (r: Pid)
        requires
            old(self).inv(),
            old(self).registry.next_pid() < INVALID_PID,
            old(self).queues().len() > 0,
        ensures
            final(self).inv(),
            final(self).scheduler.is_stopped() == old(self).scheduler.is_stopped(),
            r.0 == old(self).registry.next_pid(),
            final(self).registry.next_pid() == old(self).registry.next_pid() + 1,
            !old(self).live().contains_key(r.0),
            final(self).live().dom() == old(self).live().dom().insert(r.0),
            forall|k: u64| #[trigger] old(self).live().contains_key(k) ==> final(self).live()[k] == old(self).live()[k],
            ({
                let c = final(self).live()[r.0];
                &&& c.control_block.pid == r
                &&& c.control_block.worker_id == if old(self).live().contains_key(parent.0) {
                    old(self).live()[parent.0].control_block.worker_id
                } else {
                    0
                }
                &&& c.control_block.metadata.items() == if old(self).live().contains_key(parent.0) {
                    old(self).live()[parent.0].control_block.metadata.items()
                } else {
                    Seq::<MetaKeyValue>::empty()
                }
                &&& c.control_block.links.items().len() == 0
                &&& !c.control_block.trap_exit
                &&& c.inbox@.len() == 0
                &&& c.messages@.len() == 0
            }),
            !old(self).scheduler.is_stopped() ==> final(self).is_scheduled(r) && queued(final(self).queues(), r),
            !final(self).is_running(r),
    {
        let child = self.make_child(parent);
        let pid = child.control_block.pid;
        self.insert_child(child);
        let ghost qs1 = self.queues();
        let ghost w = self.live()[pid.0].control_block.worker_id as int;
        self.schedule(pid);
        if !self.scheduler.is_halted() {
            assert(self.queues()[w][qs1[w].len() as int] == pid);
        }
        pid
    }

    /// A fresh process for `parent`, not yet in the table.
    fn make_child(&mut self, parent: Pid) -> (c: HydratedActor<M>)
        requires
            old(self).inv(),
            old(self).registry.next_pid() < INVALID_PID,
            old(self).queues().len() > 0,
        ensures
            final(self).inv(),
            final(self).scheduler.is_stopped() == old(self).scheduler.is_stopped(),
            final(self).live() == old(self).live(),
            final(self).queues() == old(self).queues(),
            final(self).registry.next_pid() == old(self).registry.next_pid() + 1,
            c.wf(),
            c.control_block.pid.0 == old(self).registry.next_pid(),
            !c.control_block.is_scheduled,
            !c.control_block.is_running,
            !c.control_block.trap_exit,
            c.control_block.links.items().len() == 0,
            c.inbox@.len() == 0,
            c.messages@.len() == 0,
            c.control_block.worker_id < old(self).queues().len(),
            c.control_block.worker_id == if old(self).live().contains_key(parent.0) {
                old(self).live()[parent.0].control_block.worker_id
            } else {
                0
            },
            c.control_block.metadata.items() == if old(self).live().contains_key(parent.0) {
                old(self).live()[parent.0].control_block.metadata.items()
            } else {
                Seq::<MetaKeyValue>::empty()
            },
    {
        let (worker, metadata) = match self.registry.lookup_pid(parent) {
            Some(p) => {
                assert(self.live().contains_key(parent.0));
                (p.control_block.worker_id as usize, p.control_block.metadata.duplicate())
            },
            None => (0, UnsortedSet::new()),
        };
        let ghost live = self.live();
        let pid = self.registry.allocate_pid();
        assert forall|k: u64| #[trigger] self.live().contains_key(k) implies k < self.registry.next_pid() by {
            assert(live.contains_key(k));
        }
        let mut cb = ActorControlBlock::new(pid, worker);
        cb.metadata = metadata;
        HydratedActor::new(cb)
    }

    /// Puts a fresh, unscheduled process in the table.
    fn insert_child(&mut self, child: HydratedActor<M>)
        requires
            old(self).inv(),
            child.wf(),
            !child.control_block.is_scheduled,
            !child.control_block.is_running,
            child.control_block.pid.0 + 1 == old(self).registry.next_pid(),
            child.control_block.worker_id < old(self).queues().len(),
            forall|k: u64| #[trigger] old(self).live().contains_key(k) ==> k < child.control_block.pid.0,
        ensures
            final(self).inv(),
            final(self).scheduler.is_stopped() == old(self).scheduler.is_stopped(),
            final(self).live() == old(self).live().insert(child.control_block.pid.0, child),
            final(self).queues() == old(self).queues(),
            final(self).registry.next_pid() == old(self).registry.next_pid(),
    {
        let ghost qs = self.queues();
        let ghost live = self.live();
        let ghost pid = child.control_block.pid;
        self.registry.add(child);
        proof {
            assert(!live.contains_key(pid.0));
            self.lemma_inv_after_add(qs, live, pid);
        }
    }
    /// Like `spawn`, and links the new process and `parent` both ways
    /// before it is scheduled.
    pub fn spawn_linked(&mut self, parent: Pid) -> (r: Pid)
        requires
            old(self).inv(),
            old(self).registry.next_pid() < INVALID_PID,
            old(self).live().contains_key(parent.0),
        ensures
            final(self).inv(),
            final(self).scheduler.is_stopped() == old(self).scheduler.is_stopped(),
            r.0 == old(self).registry.next_pid(),
            final(self).registry.next_pid() == old(self).registry.next_pid() + 1,
            !old(self).live().contains_key(r.0),
            final(self).live().dom() == old(self).live().dom().insert(r.0),
            forall|k: u64| k != parent.0 && #[trigger] old(self).live().contains_key(k) ==> final(self).live()[k] == old(self).live()[k],
            final(self).live()[r.0].control_block.linked(parent),
            final(self).live()[parent.0].control_block.linked(r),
            final(self).live()[r.0].control_block.worker_id == old(self).live()[parent.0].control_block.worker_id,
            final(self).live()[r.0].control_block.metadata.items() == old(self).live()[parent.0].control_block.metadata.items(),
            final(self).live()[parent.0].inbox@ == old(self).live()[parent.0].inbox@,
            final(self).live()[parent.0].messages@ == old(self).live()[parent.0].messages@,
            !old(self).scheduler.is_stopped() ==> final(self).is_scheduled(r),
            !final(self).is_running(r),
    {
        proof {
            let a = self.live()[parent.0];
            assert(self.live().contains_key(parent.0));
            assert(a.control_block.worker_id < self.queues().len());
        }
        let mut child = self.make_child(parent);
        let pid = child.control_block.pid;
        let _ = child.control_block.add_link(parent);
        let ghost qs = self.queues();
        let ghost live = self.live();
        assert(live.contains_key(parent.0));
        let mut p = self.registry.take(parent).unwrap();
        let _ = p.control_block.add_link(pid);
        self.registry.add(p);
        proof { self.lemma_inv_after_flag_change(qs, live, parent); }
        self.insert_child(child);
        let ghost mid = self.live();
        self.schedule(pid);
        assert(mid.contains_key(parent.0));
        pid
    }

    /// Sets whether process `pid` turns exit signals into messages.
    pub fn trap_exit(&mut self, pid: Pid, should_trap: bool)
        requires
            old(self).inv(),
        ensures
            final(self).inv(),
            final(self).scheduler.is_stopped() == old(self).scheduler.is_stopped(),
            final(self).queues() == old(self).queues(),
            final(self).registry.next_pid() == old(self).registry.next_pid(),
            final(self).live().dom() == old(self).live().dom(),
            old(self).live().contains_key(pid.0) ==> final(self).live()[pid.0] == (HydratedActor {
                control_block: ActorControlBlock { trap_exit: should_trap, ..old(self).live()[pid.0].control_block },
                ..old(self).live()[pid.0]
            }),
            forall|k: u64| k != pid.0 && #[trigger] old(self).live().contains_key(k) ==> final(self).live()[k] == old(self).live()[k],
    {
        let ghost qs = self.queues();
        let ghost live = self.live();
        match self.registry.take(pid) {
            None => {
                assert(self.live() =~= live);
            },
            Some(mut a) => {
                assert(live.contains_key(pid.0));
                a.control_block.trap_exit = should_trap;
                self.registry.add(a);
                proof { self.lemma_inv_after_flag_change(qs, live, pid); }
            },
        }
    }

    /// Sets the metadata entry `key` of process `pid` to `value`.
    pub fn insert_metadata(&mut self, pid: Pid, key: String, value: MetaValue)
        requires
            old(self).inv(),
        ensures
            final(self).inv(),
            final(self).scheduler.is_stopped() == old(self).scheduler.is_stopped(),
            final(self).queues() == old(self).queues(),
            final(self).registry.next_pid() == old(self).registry.next_pid(),
            final(self).live().dom() == old(self).live().dom(),
            old(self).live().contains_key(pid.0) ==> {
                let md = final(self).live()[pid.0].control_block.metadata;
                &&& md.items().last() == (MetaKeyValue { key, value })
                &&& md.contains_key(key@)
                &&& forall|x: MetaKeyValue| #[trigger] md.items().contains(x) <==> (x == (MetaKeyValue { key, value })
                    || (old(self).live()[pid.0].control_block.metadata.items().contains(x) && x.key@ != key@))
                &&& final(self).live()[pid.0].inbox == old(self).live()[pid.0].inbox
                &&& final(self).live()[pid.0].control_block.links == old(self).live()[pid.0].control_block.links
            },
            forall|k: u64| k != pid.0 && #[trigger] old(self).live().contains_key(k) ==> final(self).live()[k] == old(self).live()[k],
    {
        let ghost qs = self.queues();
        let ghost live = self.live();
        match self.registry.take(pid) {
            None => {
                assert(self.live() =~= live);
            },
            Some(mut a) => {
                assert(live.contains_key(pid.0));
                let kv = MetaKeyValue { key, value };
                let ghost start = a.control_block.metadata.items();
                proof { a.control_block.metadata.lemma_items_distinct(); }
                let removed = a.control_block.metadata.remove(&kv);
                let ghost before = a.control_block.metadata.items();
                let _ = a.control_block.metadata.insert(kv);
                proof {
                    crate::unsorted_set::lemma_has_key_push(before, kv, kv.key@);
                    crate::unsorted_set::lemma_replace(start, before, a.control_block.metadata.items(), kv, removed);
                }
                self.registry.add(a);
                proof { self.lemma_inv_after_flag_change(qs, live, pid); }
            },
        }
    }

    /// Sends process `to` the signal `Exit(to, reason)`.
    pub fn exit(&mut self, to: Pid, reason: Exit)
        requires
            old(self).inv(),
        ensures
            final(self).inv(),
            final(self).scheduler.is_stopped() == old(self).scheduler.is_stopped(),
            final(self).live().dom() == old(self).live().dom(),
            final(self).registry.next_pid() == old(self).registry.next_pid(),
            old(self).live().contains_key(to.0) ==>
                final(self).live()[to.0].inbox@ == old(self).live()[to.0].inbox@.push(Signal::Exit(to, reason)),
            forall|k: u64| k != to.0 && #[trigger] old(self).live().contains_key(k) ==> final(self).live()[k] == old(self).live()[k],
    {
        self.send_signal(to, Signal::Exit(to, reason));
    }

    /// Halts: every worker stops, the queues empty and every process
    /// leaves the table.
    pub fn stop_all(&mut self)
        requires
            old(self).inv(),
        ensures
            final(self).inv(),
            final(self).scheduler.is_stopped(),
            final(self).live() == Map::<u64, HydratedActor<M>>::empty(),
            final(self).queues().len() == old(self).queues().len(),
            forall|w: int| 0 <= w < final(self).queues().len() ==> #[trigger] final(self).queues()[w].len() == 0,
            forall|w: int| 0 <= w < final(self).scheduler.workers().len() ==> !(#[trigger] final(self).scheduler.workers()[w]).running,
    {
        self.scheduler.stop_all();
        let ghost ws = self.scheduler.workers();
        self.scheduler.clear_queues();
        assert forall|w: int| 0 <= w < self.scheduler.workers().len() implies !(#[trigger] self.scheduler.workers()[w]).running by {
            assert(!ws[w].running);
        }
        self.registry.remove_all();
        let ghost qs = self.queues();
        assert forall|w1: int, i1: int, w2: int, i2: int|
            0 <= w1 < qs.len() && 0 <= i1 < qs[w1].len() && 0 <= w2 < qs.len() && 0 <= i2 < qs[w2].len()
            && #[trigger] qs[w1][i1] == #[trigger] qs[w2][i2] implies w1 == w2 && i1 == i2 by {
            assert(qs[w1].len() == 0);
        }
    }

    /// One round of worker `id`'s loop: record its queue length, count a
    /// reduction and balance when they ran out, follow its migration
    /// order, then take the next process from its queue, stealing one when
    /// the queue is empty. Returns the process to poll, or `None` when every
    /// queue is empty and the worker should park.
    pub fn worker_step(&mut self, id: usize) -> (r: Option<Pid>)
        requires
            old(self).inv(),
            id < old(self).queues().len(),
        ensures
            final(self).inv(),
            final(self).scheduler.is_stopped() == old(self).scheduler.is_stopped(),
            final(self).live().dom() == old(self).live().dom(),
            final(self).registry.next_pid() == old(self).registry.next_pid(),
            r matches Some(p) ==> final(self).is_running(p) && !final(self).is_scheduled(p),
            r is None ==> forall|w: int| 0 <= w < final(self).queues().len() ==> #[trigger] final(self).queues()[w].len() == 0,
            final(self).scheduler.workers().len() == old(self).scheduler.workers().len(),
            final(self).scheduler.workers()[id as int].migration@.mode != Mode::Push,
            ({
                let w = old(self).scheduler.workers()[id as int];
                let len = old(self).queues()[id as int].len();
                let order = w.migration@;
                let qs1 = migrated(old(self).queues(), id as int, order);
                w.reductions > 0 ==> {
                    &&& counters_kept(old(self).scheduler.workers(), final(self).scheduler.workers(), id as int)
                    &&& final(self).scheduler.workers()[id as int].reductions == w.reductions - 1
                    &&& final(self).scheduler.workers()[id as int].max_queue_length
                        == if w.max_queue_length >= len { w.max_queue_length as int } else { len as int }
                    &&& final(self).scheduler.workers()[id as int].migration@
                        == if order.mode == Mode::Push { Parameters { mode: Mode::Idle, ..order } } else { order }
                    &&& qs1[id as int].len() > 0 ==> r == Some(qs1[id as int][0]) && final(self).queues() == popped(qs1, id as int)
                }
            }),
            old(self).scheduler.workers()[id as int].reductions == 0 ==>
                forall|v: int| 0 <= v < final(self).scheduler.workers().len() ==>
                    (#[trigger] final(self).scheduler.workers()[v]).reductions == REDUCTIONS
                    && final(self).scheduler.workers()[v].max_queue_length == 0,
    {
        let ghost live0 = self.live();
        proof { self.scheduler.lemma_one_queue_per_worker(); }
        let ghost w0 = self.scheduler.workers();
        self.scheduler.observe_queue_length(id);
        if self.scheduler.tick(id) {
            let _ = self.scheduler.try_balance(id);
        }
        let ghost w1 = self.scheduler.workers();
        let parameters = self.scheduler.take_migration(id);
        assert(self.live() == live0);
        let ghost w2 = self.scheduler.workers();
        let ghost q2 = self.queues();
        assert(w0[id as int].reductions > 0 ==> parameters == w0[id as int].migration@ && q2 == old(self).queues());
        match parameters.mode {
            Mode::Push => {
                let _ = self.try_push(id, parameters);
            },
            Mode::Pull => {
                let _ = self.try_pull(id, parameters);
            },
            Mode::Idle => {},
        }
        assert(self.queues() == migrated(q2, id as int, parameters));
        assert(counters_kept(w2, self.scheduler.workers(), -1));
        match self.begin_run(id) {
            Some(p) => Some(p),
            None => {
                let ghost qs = self.queues();
                match self.try_steal(id) {
                    Some(_) => {
                        let r = self.begin_run(id);
                        r
                    },
                    None => {
                        assert forall|w: int| 0 <= w < self.queues().len() implies #[trigger] self.queues()[w].len() == 0 by {
                            if w != id {
                                assert(qs[w].len() == 0);
                            }
                        }
                        None
                    },
                }
            },
        }
    }
    /// A process sits at most once in the run queues, in at most one
    /// queue. A queued process is scheduled; a scheduled process that no
    /// worker is polling is queued, and one that a worker is polling goes
    /// back to its queue when its turn ends (`end_run`).
    pub proof fn lemma_scheduled_at_most_once(&self, p: Pid)
        requires
            self.inv(),
        ensures
            forall|w1: int, i1: int, w2: int, i2: int|
                0 <= w1 < self.queues().len() && 0 <= i1 < self.queues()[w1].len()
                && 0 <= w2 < self.queues().len() && 0 <= i2 < self.queues()[w2].len()
                && #[trigger] self.queues()[w1][i1] == p && #[trigger] self.queues()[w2][i2] == p
                ==> w1 == w2 && i1 == i2,
            queued(self.queues(), p) ==> self.is_scheduled(p),
            self.is_scheduled(p) && !self.is_running(p) ==> queued(self.queues(), p),
    {
        if queued(self.queues(), p) {
            let (w, i) = choose|w: int, i: int| 0 <= w < self.queues().len() && 0 <= i < self.queues()[w].len()
                && #[trigger] self.queues()[w][i] == p;
        }
        if self.is_scheduled(p) && !self.is_running(p) {
            assert(self.live().contains_key(p.0));
        }
    }

    /// A process that a worker is polling sits in no run queue.
    pub proof fn lemma_running_not_queued(&self, p: Pid)
        requires
            self.inv(),
            self.is_running(p),
        ensures
            !queued(self.queues(), p),
    {
        if queued(self.queues(), p) {
            let (w, i) = choose|w: int, i: int| 0 <= w < self.queues().len() && 0 <= i < self.queues()[w].len()
                && #[trigger] self.queues()[w][i] == p;
        }
    }
    /// Delivers a timer entry whose time came: its payload goes to its
    /// process, which is scheduled. It is dropped when the process is gone.
    pub fn deliver(&mut self, entry: crate::timer::TimerEntry<M>)
        requires
            old(self).inv(),
        ensures
            final(self).inv(),
            final(self).scheduler.is_stopped() == old(self).scheduler.is_stopped(),
            final(self).live().dom() == old(self).live().dom(),
            old(self).live().contains_key(entry.pid.0) ==>
                final(self).live()[entry.pid.0].inbox@ == old(self).live()[entry.pid.0].inbox@.push(entry.message)
                && (!old(self).scheduler.is_stopped() ==> final(self).is_scheduled(entry.pid)),
            forall|k: u64| k != entry.pid.0 && #[trigger] old(self).live().contains_key(k) ==> final(self).live()[k] == old(self).live()[k],
    {
        self.send_signal(entry.pid, entry.message);
    }

    /// A copy of the metadata of process `pid`; empty when it is not live.
    pub fn metadata(&self, pid: Pid) -> (r: UnsortedSet<MetaKeyValue, MAX_META_KV>)
        requires
            self.inv(),
        ensures
            r.wf(),
            self.live().contains_key(pid.0) ==> r.items() == self.live()[pid.0].control_block.metadata.items(),
            !self.live().contains_key(pid.0) ==> r.items().len() == 0,
    {
        match self.registry.lookup_pid(pid) {
            Some(a) => {
                assert(self.live().contains_key(pid.0));
                a.control_block.metadata.duplicate()
            },
            None => UnsortedSet::new(),
        }
    }
    /// Applies the oldest signal of process `pid`, if it is live and has
    /// one. Returns the reason it must terminate with, if any.
    pub fn poll_signal(&mut self, pid: Pid) -> (r: Option<Exit>)
        requires
            old(self).inv(),
        ensures
            final(self).inv(),
            final(self).scheduler.is_stopped() == old(self).scheduler.is_stopped(),
            final(self).queues() == old(self).queues(),
            final(self).registry.next_pid() == old(self).registry.next_pid(),
            final(self).live().dom() == old(self).live().dom(),
            forall|k: u64| k != pid.0 && #[trigger] old(self).live().contains_key(k) ==> final(self).live()[k] == old(self).live()[k],
            !old(self).live().contains_key(pid.0) ==> r is None,
            old(self).live().contains_key(pid.0) ==> {
                let a = old(self).live()[pid.0];
                let b = final(self).live()[pid.0];
                &&& a.inbox@.len() == 0 ==> r is None && b.control_block == a.control_block && b.messages@ == a.messages@
                &&& a.inbox@.len() > 0 ==> b.inbox@ == a.inbox@.subrange(1, a.inbox@.len() as int)
                    && signal_applied(a.control_block, a.messages@, a.inbox@[0], b.control_block, b.messages@, r)
            },
    {
        let ghost qs = self.queues();
        let ghost live = self.live();
        match self.registry.take(pid) {
            None => {
                assert(self.live() =~= live);
                None
            },
            Some(mut a) => {
                assert(live.contains_key(pid.0));
                let r = a.poll();
                self.registry.add(a);
                proof { self.lemma_inv_after_flag_change(qs, live, pid); }
                r
            },
        }
    }

    /// Whether process `pid` is live and has signals waiting.
    pub fn has_messages(&self, pid: Pid) -> (r: bool)
        requires
            self.inv(),
        ensures
            r == (self.live().contains_key(pid.0) && self.live()[pid.0].inbox@.len() > 0),
    {
        match self.registry.lookup_pid(pid) {
            Some(a) => {
                assert(self.live().contains_key(pid.0));
                a.has_messages()
            },
            None => false,
        }
    }

    /// Removes the first queued message of process `pid` that `matcher`
    /// accepts.
    pub fn receive<F: Fn(&Envelope<M>) -> bool>(&mut self, pid: Pid, matcher: F) -> (r: Option<Envelope<M>>)
        requires
            old(self).inv(),
            forall|e: &Envelope<M>| #[trigger] matcher.requires((e,)),
        ensures
            final(self).inv(),
            final(self).scheduler.is_stopped() == old(self).scheduler.is_stopped(),
            final(self).queues() == old(self).queues(),
            final(self).registry.next_pid() == old(self).registry.next_pid(),
            final(self).live().dom() == old(self).live().dom(),
            forall|k: u64| k != pid.0 && #[trigger] old(self).live().contains_key(k) ==> final(self).live()[k] == old(self).live()[k],
            !old(self).live().contains_key(pid.0) ==> r is None,
            old(self).live().contains_key(pid.0) ==> {
                let a = old(self).live()[pid.0];
                let b = final(self).live()[pid.0];
                &&& b.control_block == a.control_block
                &&& b.inbox == a.inbox
                &&& match r {
                    Some(e) => exists|i: int| #[trigger] first_match(matcher, a.messages@, i)
                        && e == a.messages@[i] && b.messages@ == a.messages@.remove(i),
                    None => b.messages@ == a.messages@
                        && forall|j: int| 0 <= j < a.messages@.len() ==> matcher.ensures((&#[trigger] a.messages@[j],), false),
                }
            },
    {
        let ghost qs = self.queues();
        let ghost live = self.live();
        match self.registry.take(pid) {
            None => {
                assert(self.live() =~= live);
                None
            },
            Some(mut a) => {
                assert(live.contains_key(pid.0));
                let r = a.receive(matcher);
                self.registry.add(a);
                proof { self.lemma_inv_after_flag_change(qs, live, pid); }
                r
            },
        }
    }
    /// One poll of a selective receive by process `pid` that started at
    /// `start`, at time `now`: `Timeout` once `timeout` has run out;
    /// otherwise the first queued message `matcher` accepts, spending one
    /// unit of budget; `None` means pending.
    pub fn recv_matching<F: Fn(&Envelope<M>) -> bool>(
        &mut self,
        ctx: &mut crate::context::GlobalContext,
        pid: Pid,
        start: u64,
        now: u64,
        timeout: Option<u64>,
        matcher: F,
    ) -> (r: Option<Result<Envelope<M>, crate::exit::RecvError>>)
        requires
            old(self).inv(),
            forall|e: &Envelope<M>| #[trigger] matcher.requires((e,)),
        ensures
            final(self).inv(),
            final(self).scheduler.is_stopped() == old(self).scheduler.is_stopped(),
            final(self).queues() == old(self).queues(),
            final(self).registry.next_pid() == old(self).registry.next_pid(),
            final(self).live().dom() == old(self).live().dom(),
            final(ctx).actor == old(ctx).actor,
            forall|k: u64| k != pid.0 && #[trigger] old(self).live().contains_key(k) ==> final(self).live()[k] == old(self).live()[k],
            ({
                let timed_out = timeout matches Some(t) && now >= start && now - start >= t;
                if timed_out {
                    r == Some(Err::<Envelope<M>, crate::exit::RecvError>(crate::exit::RecvError::Timeout))
                        && final(self).live() == old(self).live() && final(ctx).budget == old(ctx).budget
                } else if !old(self).live().contains_key(pid.0) {
                    r is None && final(ctx).budget == old(ctx).budget
                } else {
                    let a = old(self).live()[pid.0];
                    let b = final(self).live()[pid.0];
                    &&& b.control_block == a.control_block
                    &&& b.inbox == a.inbox
                    &&& match r {
                        Some(Ok(e)) => exists|i: int| #[trigger] first_match(matcher, a.messages@, i)
                            && e == a.messages@[i] && b.messages@ == a.messages@.remove(i)
                            && final(ctx).budget == if old(ctx).budget + 1 <= usize::MAX { (old(ctx).budget + 1) as usize } else { usize::MAX },
                        Some(Err(_)) => false,
                        None => b.messages@ == a.messages@ && final(ctx).budget == old(ctx).budget
                            && forall|j: int| 0 <= j < a.messages@.len() ==> matcher.ensures((&#[trigger] a.messages@[j],), false),
                    }
                }
            }),
    {
        if let Some(t) = timeout {
            if crate::context::sleep_elapsed(start, now, t) {
                return Some(Err(crate::exit::RecvError::Timeout));
            }
        }
        match self.receive(pid, matcher) {
            Some(e) => {
                ctx.spend(1);
                Some(Ok(e))
            },
            None => None,
        }
    }
}

} // verus!
