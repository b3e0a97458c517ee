use vstd::prelude::*;
use crate::pid::Pid;
use crate::exit::Exit;

verus! {

/// When a child that exited is started again.
#[derive(Copy, Clone, Debug, PartialEq, Eq, Structural)]
pub enum RestartPolicy {
    /// Always.
    Permanent,
    /// Only after an abnormal exit.
    Transient,
    /// Never.
    Temporary,
}

/// Which children a failure affects.
#[derive(Copy, Clone, Debug, PartialEq, Eq, Structural)]
pub enum Strategy {
    /// Only the child that failed.
    OneForOne,
    /// Every child.
    OneForAll,
    /// The child that failed and every child started after it.
    RestForOne,
}

#[derive(Copy, Clone, Debug, PartialEq, Eq, Structural)]
pub enum ChildState {
    Running,
    Stopping,
    Restarting,
    Stopped,
    Dead,
}

#[derive(Copy, Clone, Debug, PartialEq, Eq, Structural)]
pub enum SupervisorState {
    Idle,
    /// Waiting for this many killed children to exit.
    Stopping(usize),
}

/// A supervised child. Its factory stays with the embedder, at the same
/// index.
#[derive(Copy, Clone, Debug, PartialEq, Eq, Structural)]
pub struct Child {
    pub pid: Pid,
    pub policy: RestartPolicy,
    pub state: ChildState,
}

pub open spec fn should_restart_spec(policy: RestartPolicy, reason: Exit) -> bool {
    match policy {
        RestartPolicy::Permanent => true,
        RestartPolicy::Transient => !(reason is Normal || reason is Shutdown),
        RestartPolicy::Temporary => false,
    }
}

impl Child {
    /// Whether this child is restarted after exiting with `reason`.
    pub fn should_restart(&self, reason: &Exit) -> (r: bool)
        ensures
            r == should_restart_spec(self.policy, *reason),
    {
        match self.policy {
            RestartPolicy::Permanent => true,
            RestartPolicy::Transient => match reason {
                Exit::Normal | Exit::Shutdown => false,
                _ => true,
            },
            RestartPolicy::Temporary => false,
        }
    }
}

pub open spec fn is_affected_spec(strategy: Strategy, index: int, failed_index: int) -> bool {
    match strategy {
        Strategy::OneForOne => index == failed_index,
        Strategy::OneForAll => true,
        Strategy::RestForOne => index >= failed_index,
    }
}

impl Strategy {
    /// Whether the child at `index` is affected by the failure of the
    /// child at `failed_index`.
    pub fn is_affected(self, index: usize, failed_index: usize) -> (r: bool)
        ensures
            r == is_affected_spec(self, index as int, failed_index as int),
    {
        match self {
            Strategy::OneForOne => index == failed_index,
            Strategy::OneForAll => true,
            Strategy::RestForOne => index >= failed_index,
        }
    }
}

/// What the supervisor's owner must do after an exit was handled.
pub struct SupervisorAction {
    /// The supervisor itself terminates with this reason.
    pub exit: Option<Exit>,
    /// Send `Kill` to these processes.
    pub kill: Vec<Pid>,
    /// Start these children again, in this order, then report each new
    /// identifier with `restarted`.
    pub restart: Vec<usize>,
}

/// First position of a child with identifier `pid`.
pub open spec fn first_child(children: Seq<Child>, pid: Pid, i: int) -> bool {
    &&& 0 <= i < children.len()
    &&& children[i].pid == pid
    &&& forall|j: int| 0 <= j < i ==> (#[trigger] children[j]).pid != pid
}

pub open spec fn has_child(children: Seq<Child>, pid: Pid) -> bool {
    exists|i: int| 0 <= i < children.len() && (#[trigger] children[i]).pid == pid
}

/// Identifiers of the running children that a failure at `failed` affects,
/// among the first `upto` children, in order.
pub open spec fn affected_pids(c: Seq<Child>, strategy: Strategy, failed: int, upto: int) -> Seq<Pid>
    decreases upto,
{
    if upto <= 0 {
        Seq::empty()
    } else {
        let prev = affected_pids(c, strategy, failed, upto - 1);
        let j = upto - 1;
        if c[j].state == ChildState::Running && is_affected_spec(strategy, j, failed) {
            prev.push(c[j].pid)
        } else {
            prev
        }
    }
}

/// The children after the kills that a failure at `failed` with `reason`
/// causes: each affected running child waits to restart, or to stop.
pub open spec fn marked(c: Seq<Child>, strategy: Strategy, failed: int, reason: Exit) -> Seq<Child> {
    Seq::new(c.len(), |j: int|
        if c[j].state == ChildState::Running && is_affected_spec(strategy, j, failed) {
            Child {
                state: if should_restart_spec(c[j].policy, reason) { ChildState::Restarting } else { ChildState::Stopping },
                ..c[j]
            }
        } else {
            c[j]
        })
}

/// Indices of the stopped children among the first `upto`, in order.
pub open spec fn stopped_indices(c: Seq<Child>, upto: int) -> Seq<usize>
    decreases upto,
{
    if upto <= 0 {
        Seq::empty()
    } else {
        let prev = stopped_indices(c, upto - 1);
        if c[upto - 1].state == ChildState::Stopped { prev.push((upto - 1) as usize) } else { prev }
    }
}

/// Every stopped child set running again.
pub open spec fn revived(c: Seq<Child>) -> Seq<Child> {
    Seq::new(c.len(), |j: int|
        if c[j].state == ChildState::Stopped { Child { state: ChildState::Running, ..c[j] } } else { c[j] })
}

/// The child at `i` after it exited during a group stop.
pub open spec fn settled(c: Seq<Child>, i: int) -> Seq<Child> {
    c.update(i, Child {
        state: if c[i].state == ChildState::Restarting { ChildState::Stopped } else { ChildState::Dead },
        ..c[i]
    })
}

/// The supervisor's state: its children, its strategy and whether it waits
/// for killed children.
pub struct SupervisorActor {
    children: Vec<Child>,
    strategy: Strategy,
    state: SupervisorState,
}

impl SupervisorActor {
    pub closed spec fn wf(&self) -> bool {
        self.state matches SupervisorState::Stopping(n) ==> n >= 1
    }

    pub closed spec fn children(&self) -> Seq<Child> {
        self.children@
    }

    pub closed spec fn strategy(&self) -> Strategy {
        self.strategy
    }

    pub closed spec fn state(&self) -> SupervisorState {
        self.state
    }

    pub fn new(strategy: Strategy) -> (r: Self)
        ensures
            r.wf(),
            r.children() == Seq::<Child>::empty(),
            r.strategy() == strategy,
            r.state() == SupervisorState::Idle,
    {
        SupervisorActor { children: Vec::new(), strategy, state: SupervisorState::Idle }
    }

    /// Records a child the owner started.
    pub fn add_child(&mut self, pid: Pid, policy: RestartPolicy)
        requires
            old(self).wf(),
        ensures
            final(self).wf(),
            final(self).children() == old(self).children().push(Child { pid, policy, state: ChildState::Running }),
            final(self).strategy() == old(self).strategy(),
            final(self).state() == old(self).state(),
    {
        self.children.push(Child { pid, policy, state: ChildState::Running });
    }

    /// Records the identifier of a child the owner started again.
    pub fn restarted(&mut self, index: usize, pid: Pid)
        requires
            old(self).wf(),
            index < old(self).children().len(),
        ensures
            final(self).wf(),
            final(self).children() == old(self).children().update(index as int,
                Child { pid, state: ChildState::Running, ..old(self).children()[index as int] }),
            final(self).strategy() == old(self).strategy(),
            final(self).state() == old(self).state(),
    {
        let c = self.children[index];
        self.children.set(index, Child { pid, state: ChildState::Running, ..c });
    }

    /// Position of the first child with identifier `pid`.
    pub fn failed_index(&self, pid: Pid) -> (r: Option<usize>)
        ensures
            match r {
                Some(i) => first_child(self.children(), pid, i as int),
                None => !has_child(self.children(), pid),
            },
    {
        let mut i: usize = 0;
        while i < self.children.len()
            invariant
                i <= self.children@.len(),
                forall|j: int| 0 <= j < i ==> (#[trigger] self.children@[j]).pid != pid,
            decreases self.children@.len() - i,
        {
            if self.children[i].pid == pid {
                return Some(i);
            }
            i = i + 1;
        }
        None
    }
    /// Handles the exit of process `from` with `reason`; `self_pid` is the
    /// supervisor's own identifier.
    ///
    /// An exit from a stranger that is not normal, or from the supervisor
    /// itself, ends the supervisor. With one-for-one, or a single child,
    /// the child is restarted if its policy allows. Otherwise, when idle,
    /// every running child the failure affects is killed and the
    /// supervisor waits for their exits; when the last one arrived, the
    /// children whose policy allowed it are restarted, in order.
    pub fn on_exit(&mut self, from: Pid, reason: Exit, self_pid: Pid) -> (r: SupervisorAction)
        requires
            old(self).wf(),
        ensures
            final(self).wf(),
            final(self).strategy() == old(self).strategy(),
            ({
                let c = old(self).children();
                let c2 = final(self).children();
                let is_child = has_child(c, from);
                let single = old(self).strategy() == Strategy::OneForOne || c.len() == 1;
                if (!is_child && !(reason is Normal)) || from == self_pid {
                    &&& r.exit == Some(reason)
                    &&& r.kill@.len() == 0 && r.restart@.len() == 0
                    &&& c2 == c && final(self).state() == old(self).state()
                } else if !is_child {
                    &&& r.exit is None && r.kill@.len() == 0 && r.restart@.len() == 0
                    &&& c2 == c && final(self).state() == old(self).state()
                } else {
                    exists|i: int| #[trigger] first_child(c, from, i) && {
                        &&& r.exit is None
                        &&& if single {
                            &&& r.kill@.len() == 0
                            &&& r.restart@ == if should_restart_spec(c[i].policy, reason) { seq![i as usize] } else { Seq::<usize>::empty() }
                            &&& c2 == c && final(self).state() == old(self).state()
                        } else if old(self).state() == SupervisorState::Idle {
                            let n = affected_pids(c, old(self).strategy(), i, c.len() as int).len();
                            &&& r.kill@ == affected_pids(c, old(self).strategy(), i, c.len() as int)
                            &&& r.restart@.len() == 0
                            &&& c2 == marked(c, old(self).strategy(), i, reason)
                            &&& final(self).state() == if n > 0 { SupervisorState::Stopping(n as usize) } else { SupervisorState::Idle }
                        } else {
                            let n = old(self).state()->Stopping_0;
                            let s = settled(c, i);
                            &&& r.kill@.len() == 0
                            &&& n - 1 > 0 ==> r.restart@.len() == 0 && c2 == s
                                && final(self).state() == SupervisorState::Stopping((n - 1) as usize)
                            &&& n - 1 == 0 ==> r.restart@ == stopped_indices(s, s.len() as int)
                                && c2 == revived(s) && final(self).state() == SupervisorState::Idle
                        }
                    }
                }
            }),
    {
        let ghost c = self.children@;
        let found = self.failed_index(from);
        let no_action = SupervisorAction { exit: None, kill: Vec::new(), restart: Vec::new() };
        let i = match found {
            None => {
                if reason.is_normal() && from != self_pid {
                    return no_action;
                }
                return SupervisorAction { exit: Some(reason), kill: Vec::new(), restart: Vec::new() };
            },
            Some(i) => i,
        };
        if from == self_pid {
            return SupervisorAction { exit: Some(reason), kill: Vec::new(), restart: Vec::new() };
        }
        assert(first_child(c, from, i as int));
        let single = match self.strategy {
            Strategy::OneForOne => true,
            _ => self.children.len() == 1,
        };
        if single {
            let mut restart: Vec<usize> = Vec::new();
            if self.children[i].should_restart(&reason) {
                restart.push(i);
            }
            assert(restart@ =~= if should_restart_spec(c[i as int].policy, reason) { seq![i] } else { Seq::<usize>::empty() });
            return SupervisorAction { exit: None, kill: Vec::new(), restart };
        }
        match self.state {
            SupervisorState::Idle => {
                let kill = self.kill_affected(i, &reason);
                let n = kill.len();
                if n > 0 {
                    self.state = SupervisorState::Stopping(n);
                }
                SupervisorAction { exit: None, kill, restart: Vec::new() }
            },
            SupervisorState::Stopping(n) => {
                let c_i = self.children[i];
                let next = if c_i.state == ChildState::Restarting { ChildState::Stopped } else { ChildState::Dead };
                self.children.set(i, Child { state: next, ..c_i });
                assert(self.children@ =~= settled(c, i as int));
                if n - 1 > 0 {
                    self.state = SupervisorState::Stopping(n - 1);
                    SupervisorAction { exit: None, kill: Vec::new(), restart: Vec::new() }
                } else {
                    let restart = self.revive_stopped();
                    self.state = SupervisorState::Idle;
                    SupervisorAction { exit: None, kill: Vec::new(), restart }
                }
            },
        }
    }

    /// Marks every running child that a failure at `failed` affects and
    /// returns their identifiers, in order.
    fn kill_affected(&mut self, failed: usize, reason: &Exit) -> (kill: Vec<Pid>)
        ensures
            kill@ == affected_pids(old(self).children(), old(self).strategy(), failed as int, old(self).children().len() as int),
            final(self).children() == marked(old(self).children(), old(self).strategy(), failed as int, *reason),
            final(self).strategy() == old(self).strategy(),
            final(self).state() == old(self).state(),
    {
        let ghost c = self.children@;
        let mut kill: Vec<Pid> = Vec::new();
        let mut j: usize = 0;
        while j < self.children.len()
            invariant
                self.children@.len() == c.len(),
                j <= c.len(),
                self.strategy == old(self).strategy,
                self.state == old(self).state,
                c == old(self).children@,
                kill@ == affected_pids(c, self.strategy, failed as int, j as int),
                forall|t: int| 0 <= t < j ==> #[trigger] self.children@[t] == marked(c, self.strategy, failed as int, *reason)[t],
                forall|t: int| j <= t < c.len() ==> #[trigger] self.children@[t] == c[t],
            decreases c.len() - j,
        {
            let ch = self.children[j];
            if ch.state == ChildState::Running && self.strategy.is_affected(j, failed) {
                let next = if ch.should_restart(reason) { ChildState::Restarting } else { ChildState::Stopping };
                self.children.set(j, Child { state: next, ..ch });
                kill.push(ch.pid);
            }
            j = j + 1;
        }
        assert(self.children@ =~= marked(c, self.strategy, failed as int, *reason));
        kill
    }

    /// Sets every stopped child running and returns their indices, in
    /// order.
    fn revive_stopped(&mut self) -> (restart: Vec<usize>)
        ensures
            restart@ == stopped_indices(old(self).children(), old(self).children().len() as int),
            final(self).children() == revived(old(self).children()),
            final(self).strategy() == old(self).strategy(),
            final(self).state() == old(self).state(),
    {
        let ghost c = self.children@;
        let mut restart: Vec<usize> = Vec::new();
        let mut j: usize = 0;
        while j < self.children.len()
            invariant
                self.children@.len() == c.len(),
                j <= c.len(),
                self.strategy == old(self).strategy,
                self.state == old(self).state,
                c == old(self).children@,
                restart@ == stopped_indices(c, j as int),
                forall|t: int| 0 <= t < j ==> #[trigger] self.children@[t] == revived(c)[t],
                forall|t: int| j <= t < c.len() ==> #[trigger] self.children@[t] == c[t],
            decreases c.len() - j,
        {
            let ch = self.children[j];
            if ch.state == ChildState::Stopped {
                self.children.set(j, Child { state: ChildState::Running, ..ch });
                restart.push(j);
            }
            j = j + 1;
        }
        assert(self.children@ =~= revived(c));
        restart
    }
}

} // verus!
