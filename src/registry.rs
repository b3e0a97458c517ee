use vstd::prelude::*;
use std::collections::HashMap;
use crate::pid::{Pid, INVALID_PID};
use crate::actor::HydratedActor;

verus! {

broadcast use vstd::std_specs::hash::group_hash_axioms;

/// Number of shards of the process table.
pub const NUM_SHARDS: u64 = 64;

/// One shard of the process table.
pub struct Shard<M> {
    pub actors: HashMap<u64, HydratedActor<M>>,
}

impl<M> Shard<M> {
    pub fn new() -> (r: Self)
        ensures
            r.actors@ == Map::<u64, HydratedActor<M>>::empty(),
    {
        Shard { actors: HashMap::new() }
    }
}

/// The table from process identifiers to live processes, split in shards
/// by identifier.
pub struct Table<M> {
    shards: Vec<Shard<M>>,
}

pub open spec fn shard_of(pid: u64) -> int {
    (pid % NUM_SHARDS) as int
}

impl<M> Table<M> {
    pub closed spec fn wf(&self) -> bool {
        self.shards@.len() == NUM_SHARDS
    }

    /// The live processes by identifier.
    pub closed spec fn view(&self) -> Map<u64, HydratedActor<M>> {
        Map::new(
            |k: u64| self.shards@[shard_of(k)].actors@.contains_key(k),
            |k: u64| self.shards@[shard_of(k)].actors@[k],
        )
    }

    pub fn new() -> (r: Self)
        ensures
            r.wf(),
            r@ == Map::<u64, HydratedActor<M>>::empty(),
    {
        let mut shards: Vec<Shard<M>> = Vec::new();
        let mut i: u64 = 0;
        while i < NUM_SHARDS
            invariant
                i <= NUM_SHARDS,
                shards@.len() == i,
                forall|j: int| 0 <= j < i ==> (#[trigger] shards@[j]).actors@ == Map::<u64, HydratedActor<M>>::empty(),
            decreases NUM_SHARDS - i,
        {
            shards.push(Shard::new());
            i = i + 1;
        }
        let r = Table { shards };
        assert(r@ =~= Map::<u64, HydratedActor<M>>::empty());
        r
    }

    fn shard(&self, pid: Pid) -> (r: usize)
        requires
            self.wf(),
        ensures
            r == shard_of(pid.0),
            r < self.shards@.len(),
    {
        (pid.0 % NUM_SHARDS) as usize
    }

    pub fn lookup(&self, pid: Pid) -> (r: Option<&HydratedActor<M>>)
        requires
            self.wf(),
        ensures
            match r {
                Some(a) => self@.contains_key(pid.0) && *a == self@[pid.0],
                None => !self@.contains_key(pid.0),
            },
    {
        let s = self.shard(pid);
        self.shards[s].actors.get(&pid.0)
    }

    pub fn add(&mut self, pid: Pid, actor: HydratedActor<M>)
        requires
            old(self).wf(),
        ensures
            final(self).wf(),
            final(self)@ == old(self)@.insert(pid.0, actor),
    {
        let s = self.shard(pid);
        let ghost before = self@;
        let mut shard = Shard::new();
        std::mem::swap(&mut shard, &mut self.shards[s]);
        shard.actors.insert(pid.0, actor);
        std::mem::swap(&mut shard, &mut self.shards[s]);
        assert(self@ =~= before.insert(pid.0, actor));
    }

    /// Removes the process and hands it back, if it was live.
    pub fn take(&mut self, pid: Pid) -> (r: Option<HydratedActor<M>>)
        requires
            old(self).wf(),
        ensures
            final(self).wf(),
            final(self)@ == old(self)@.remove(pid.0),
            match r {
                Some(a) => old(self)@.contains_key(pid.0) && a == old(self)@[pid.0],
                None => !old(self)@.contains_key(pid.0),
            },
    {
        let s = self.shard(pid);
        let ghost before = self@;
        let mut shard = Shard::new();
        std::mem::swap(&mut shard, &mut self.shards[s]);
        let r = shard.actors.remove(&pid.0);
        std::mem::swap(&mut shard, &mut self.shards[s]);
        assert(self@ =~= before.remove(pid.0));
        r
    }

    pub fn remove(&mut self, pid: Pid)
        requires
            old(self).wf(),
        ensures
            final(self).wf(),
            final(self)@ == old(self)@.remove(pid.0),
    {
        let _ = self.take(pid);
    }

    pub fn clear(&mut self)
        requires
            old(self).wf(),
        ensures
            final(self).wf(),
            final(self)@ == Map::<u64, HydratedActor<M>>::empty(),
    {
        *self = Table::new();
    }
}

/// The most recent registration of `name` in `names`, if any.
pub open spec fn name_lookup(names: Seq<(Seq<char>, Pid)>, name: Seq<char>) -> Option<Pid>
    decreases names.len(),
{
    if names.len() == 0 {
        None
    } else if names.last().0 == name {
        Some(names.last().1)
    } else {
        name_lookup(names.drop_last(), name)
    }
}

/// Something that names a process: an identifier, or a registered name.
pub trait ToPid {
    /// The process named, given the name registrations.
    spec fn resolve(&self, names: Seq<(Seq<char>, Pid)>) -> Pid;

    fn to_reference<M>(&self, registry: &Registry<M>) -> (r: Pid)
        ensures
            r == self.resolve(registry.names()),
    ;
}

impl ToPid for Pid {
    open spec fn resolve(&self, names: Seq<(Seq<char>, Pid)>) -> Pid {
        *self
    }

    fn to_reference<M>(&self, registry: &Registry<M>) -> (r: Pid) {
        *self
    }
}

impl<'a> ToPid for &'a str {
    /// The most recent registration of the name; the invalid identifier
    /// when there is none.
    open spec fn resolve(&self, names: Seq<(Seq<char>, Pid)>) -> Pid {
        match name_lookup(names, self@) {
            Some(p) => p,
            None => Pid(INVALID_PID),
        }
    }

    fn to_reference<M>(&self, registry: &Registry<M>) -> (r: Pid) {
        match registry.lookup_name(self) {
            Some(p) => p,
            None => Pid::invalid(),
        }
    }
}

/// Allocates identifiers, holds the live processes and the names.
pub struct Registry<M> {
    next_pid: u64,
    actors: Table<M>,
    names: Vec<(String, Pid)>,
}

impl<M> Registry<M> {
    pub closed spec fn wf(&self) -> bool {
        self.actors.wf()
    }

    /// The identifier the next allocation returns.
    pub closed spec fn next_pid(&self) -> u64 {
        self.next_pid
    }

    /// Name registrations, oldest first.
    pub closed spec fn names(&self) -> Seq<(Seq<char>, Pid)> {
        self.names@.map_values(|e: (String, Pid)| (e.0@, e.1))
    }

    pub closed spec fn live(&self) -> Map<u64, HydratedActor<M>> {
        self.actors@
    }

    pub fn new() -> (r: Self)
        ensures
            r.wf(),
            r.next_pid() == 0,
            r.live() == Map::<u64, HydratedActor<M>>::empty(),
            r.names() == Seq::<(Seq<char>, Pid)>::empty(),
    {
        let r = Registry { next_pid: 0, actors: Table::new(), names: Vec::new() };
        assert(r.names() =~= Seq::<(Seq<char>, Pid)>::empty());
        r
    }

    /// Registers `name` for `actor`; a later registration of the same name
    /// wins.
    pub fn register(&mut self, name: &str, actor: Pid)
        ensures
            final(self).wf() == old(self).wf(),
            final(self).next_pid() == old(self).next_pid(),
            final(self).live() == old(self).live(),
            final(self).names() == old(self).names().push((name@, actor)),
            forall|n: Seq<char>| #[trigger] name_lookup(final(self).names(), n)
                == if n == name@ { Some(actor) } else { name_lookup(old(self).names(), n) },
    {
        let ghost before = self.names();
        self.names.push((name.to_owned(), actor));
        assert(self.names() =~= before.push((name@, actor)));
        assert forall|n: Seq<char>| #[trigger] name_lookup(self.names(), n)
            == if n == name@ { Some(actor) } else { name_lookup(before, n) } by {
            assert(self.names().drop_last() =~= before);
        }
    }

    /// The process most recently registered under `name`.
    pub fn lookup_name(&self, name: &str) -> (r: Option<Pid>)
        ensures
            r == name_lookup(self.names(), name@),
    {
        let mut i: usize = self.names.len();
        assert(self.names().subrange(0, i as int) =~= self.names());
        while i > 0
            invariant
                i <= self.names@.len(),
                name_lookup(self.names(), name@) == name_lookup(self.names().subrange(0, i as int), name@),
            decreases i,
        {
            let ghost p = self.names().subrange(0, i as int);
            assert(p.drop_last() =~= self.names().subrange(0, i as int - 1));
            assert(p.last() == (self.names@[i - 1].0@, self.names@[i - 1].1));
            let owned = name.to_owned();
            if self.names[i - 1].0 == owned {
                return Some(self.names[i - 1].1);
            }
            i = i - 1;
        }
        None
    }

    /// The identifier the next allocation returns.
    pub fn next_id(&self) -> (r: u64)
        ensures
            r == self.next_pid(),
    {
        self.next_pid
    }

    /// A fresh identifier; identifiers are never handed out twice.
    pub fn allocate_pid(&mut self) -> (r: Pid)
        requires
            old(self).next_pid() < INVALID_PID,
        ensures
            r.0 == old(self).next_pid(),
            r.is_valid(),
            final(self).next_pid() == old(self).next_pid() + 1,
            final(self).wf() == old(self).wf(),
            final(self).live() == old(self).live(),
            final(self).names() == old(self).names(),
    {
        let pid = Pid(self.next_pid);
        self.next_pid = self.next_pid + 1;
        pid
    }

    pub fn lookup_pid(&self, pid: Pid) -> (r: Option<&HydratedActor<M>>)
        requires
            self.wf(),
        ensures
            match r {
                Some(a) => self.live().contains_key(pid.0) && *a == self.live()[pid.0],
                None => !self.live().contains_key(pid.0),
            },
    {
        self.actors.lookup(pid)
    }

    pub fn add(&mut self, actor: HydratedActor<M>)
        requires
            old(self).wf(),
        ensures
            final(self).wf(),
            final(self).live() == old(self).live().insert(actor.control_block.pid.0, actor),
            final(self).next_pid() == old(self).next_pid(),
            final(self).names() == old(self).names(),
    {
        let pid = actor.control_block.pid;
        self.actors.add(pid, actor);
    }

    /// Removes the process and hands it back, if it was live.
    pub fn take(&mut self, pid: Pid) -> (r: Option<HydratedActor<M>>)
        requires
            old(self).wf(),
        ensures
            final(self).wf(),
            final(self).live() == old(self).live().remove(pid.0),
            final(self).next_pid() == old(self).next_pid(),
            final(self).names() == old(self).names(),
            match r {
                Some(a) => old(self).live().contains_key(pid.0) && a == old(self).live()[pid.0],
                None => !old(self).live().contains_key(pid.0),
            },
    {
        self.actors.take(pid)
    }

    pub fn remove(&mut self, pid: Pid)
        requires
            old(self).wf(),
        ensures
            final(self).wf(),
            final(self).live() == old(self).live().remove(pid.0),
            final(self).next_pid() == old(self).next_pid(),
            final(self).names() == old(self).names(),
    {
        self.actors.remove(pid);
    }

    /// Drops every live process; names and identifiers stay.
    pub fn remove_all(&mut self)
        requires
            old(self).wf(),
        ensures
            final(self).wf(),
            final(self).live() == Map::<u64, HydratedActor<M>>::empty(),
            final(self).next_pid() == old(self).next_pid(),
            final(self).names() == old(self).names(),
    {
        self.actors.clear();
    }
}

} // verus!
