use vstd::prelude::*;
use crate::pid::Pid;
use crate::metadata::MetaKeyValue;
use crate::unsorted_set::{has_key, lemma_has_key_push, Keyed, UnsortedSet};

verus! {

/// Links a process keeps in its fast array before using the overflow.
pub const MAX_LINKS: usize = 32;
/// Metadata entries a process keeps in its fast array.
pub const MAX_META_KV: usize = 16;

/// Per-process control state: identity, flags, home worker, links and
/// metadata.
pub struct ActorControlBlock {
    pub pid: Pid,
    /// Turn exit signals from linked processes into messages.
    pub trap_exit: bool,
    /// Set while the process sits in a run queue.
    pub is_scheduled: bool,
    /// Set while a worker polls the process.
    pub is_running: bool,
    /// The worker whose run queue the process goes to.
    pub worker_id: u64,
    pub links: UnsortedSet<Pid, MAX_LINKS>,
    pub metadata: UnsortedSet<MetaKeyValue, MAX_META_KV>,
}

impl ActorControlBlock {
    pub open spec fn wf(&self) -> bool {
        self.links.wf() && self.metadata.wf()
    }

    /// Whether `p` is linked to this process.
    pub open spec fn linked(&self, p: Pid) -> bool {
        self.links.contains_key(p.0)
    }

    pub fn new(pid: Pid, worker_id: usize) -> (r: Self)
        ensures
            r.wf(),
            r.pid == pid,
            !r.trap_exit,
            !r.is_scheduled,
            !r.is_running,
            r.worker_id == worker_id as u64,
            r.links.items().len() == 0,
            r.metadata.items().len() == 0,
    {
        ActorControlBlock {
            pid,
            trap_exit: false,
            is_scheduled: false,
            is_running: false,
            worker_id: worker_id as u64,
            links: UnsortedSet::new(),
            metadata: UnsortedSet::new(),
        }
    }

    /// Marks the process scheduled. Returns true when it was not already,
    /// that is when the caller must put it in a run queue.
    pub fn try_schedule(&mut self) -> (r: bool)
        ensures
            r == !old(self).is_scheduled,
            final(self).is_scheduled,
            *final(self) == (ActorControlBlock { is_scheduled: true, ..*old(self) }),
    {
        let was = self.is_scheduled;
        self.is_scheduled = true;
        !was
    }

    /// Links `pid` to this process; fails when it is linked already.
    pub fn add_link(&mut self, pid: Pid) -> (r: Result<(), ()>)
        requires
            old(self).wf(),
        ensures
            final(self).wf(),
            r is Ok <==> !old(self).linked(pid),
            r is Ok ==> final(self).links.items() == old(self).links.items().push(pid),
            r is Ok && old(self).links.items().len() < MAX_LINKS ==> final(self).links.fast_len() == old(self).links.fast_len() + 1
                && final(self).links.overflow_len() == 0,
            r is Ok && old(self).links.items().len() >= MAX_LINKS ==> final(self).links.fast_len() == MAX_LINKS
                && final(self).links.overflow_len() == old(self).links.overflow_len() + 1,
            r is Err ==> final(self).links.items() == old(self).links.items(),
            final(self).linked(pid),
            final(self).pid == old(self).pid,
            final(self).trap_exit == old(self).trap_exit,
            final(self).worker_id == old(self).worker_id,
            final(self).is_scheduled == old(self).is_scheduled,
            final(self).is_running == old(self).is_running,
            final(self).metadata == old(self).metadata,
    {
        let ghost s = self.links.items();
        proof { self.links.lemma_full_fast_array(); }
        let added = self.links.insert(pid);
        proof { lemma_has_key_push(s, pid, pid.0); }
        if added {
            Ok(())
        } else {
            Err(())
        }
    }

    /// Removes the link to `pid`; fails when there was none.
    pub fn remove_link(&mut self, pid: Pid) -> (r: Result<(), ()>)
        requires
            old(self).wf(),
        ensures
            final(self).wf(),
            r is Ok <==> old(self).linked(pid),
            !final(self).linked(pid),
            r is Err ==> final(self).links.items() == old(self).links.items(),
            forall|q: Pid| q != pid ==> (final(self).linked(q) <==> old(self).linked(q)),
            final(self).pid == old(self).pid,
            final(self).trap_exit == old(self).trap_exit,
            final(self).worker_id == old(self).worker_id,
            final(self).is_scheduled == old(self).is_scheduled,
            final(self).is_running == old(self).is_running,
            final(self).metadata == old(self).metadata,
    {
        let ghost s = self.links.items();
        let removed = self.links.remove(&pid);
        proof {
            assert forall|q: Pid| q != pid implies (self.linked(q) <==> old(self).linked(q)) by {
                let t = self.links.items();
                if removed {
                    let i = choose|i: int| 0 <= i < s.len() && (#[trigger] s[i]).key() == pid.0 && t == s.remove(i);
                    if has_key(s, q.0) {
                        let m = choose|m: int| 0 <= m < s.len() && (#[trigger] s[m]).key() == q.0;
                        assert(m != i);
                        if m < i { assert(t[m] == s[m]); } else { assert(t[m - 1] == s[m]); }
                    }
                    if has_key(t, q.0) {
                        let m = choose|m: int| 0 <= m < t.len() && (#[trigger] t[m]).key() == q.0;
                        if m < i { assert(t[m] == s[m]); } else { assert(t[m] == s[m + 1]); }
                    }
                }
            }
        }
        if removed {
            Ok(())
        } else {
            Err(())
        }
    }
}

} // verus!
