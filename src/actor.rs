use vstd::prelude::*;
use crate::pid::Pid;
use crate::exit::{Envelope, Exit, Signal, TrapExitMessage};
use crate::control_block::ActorControlBlock;
use crate::inbox::Inbox;
use crate::message_queue::{deterministic, first_match, lemma_receive_after_send, MessageQueue};

verus! {

/// The lifecycle of a process's user code: a factory waiting for the first
/// poll, the running task it built, or nothing once terminated.
pub enum ActorState<F, T> {
    Uninitialized,
    Waiting(F),
    Running(T),
}

impl<F, T> ActorState<F, T> {
    /// Builds the task from the factory on the first poll; a running task
    /// stays as it is.
    pub fn to_running<B: FnOnce(F) -> T>(&mut self, build: B)
        requires
            forall|f: F| #[trigger] build.requires((f,)),
        ensures
            match *old(self) {
                ActorState::Waiting(f) => exists|t: T| build.ensures((f,), t) && *final(self) == ActorState::<F, T>::Running(t),
                _ => *final(self) == *old(self),
            },
    {
        if let ActorState::Running(_) = self {
            return;
        }
        let mut state = ActorState::Uninitialized;
        std::mem::swap(self, &mut state);
        *self = state.to_running_inner(build);
    }

    fn to_running_inner<B: FnOnce(F) -> T>(self, build: B) -> (r: ActorState<F, T>)
        requires
            forall|f: F| #[trigger] build.requires((f,)),
        ensures
            match self {
                ActorState::Waiting(f) => exists|t: T| build.ensures((f,), t) && r == ActorState::<F, T>::Running(t),
                _ => r == self,
            },
    {
        match self {
            ActorState::Waiting(f) => ActorState::Running(build(f)),
            other => other,
        }
    }
}

/// A live process: its control block, its inbox of signals and its queue
/// of messages. Its user code lives with the embedder.
pub struct HydratedActor<M> {
    pub control_block: ActorControlBlock,
    pub inbox: Inbox<Signal<M>>,
    pub messages: MessageQueue<Envelope<M>>,
}

/// `after` differs from `before` in no field of the control block but the
/// links.
pub open spec fn same_but_links(before: ActorControlBlock, after: ActorControlBlock) -> bool {
    &&& after.pid == before.pid
    &&& after.trap_exit == before.trap_exit
    &&& after.is_scheduled == before.is_scheduled
    &&& after.is_running == before.is_running
    &&& after.worker_id == before.worker_id
    &&& after.metadata == before.metadata
    &&& after.wf()
}

/// The links of `after` are those of `before`, but for `p`.
pub open spec fn links_agree_except(before: ActorControlBlock, after: ActorControlBlock, p: Pid) -> bool {
    forall|q: Pid| q != p ==> (after.linked(q) <==> before.linked(q))
}

/// Applying `signal` to a process with control block `cb` and message
/// queue `msgs` gives `cb2`, `msgs2` and the termination reason `r`.
pub open spec fn signal_applied<M>(
    cb: ActorControlBlock,
    msgs: Seq<Envelope<M>>,
    signal: Signal<M>,
    cb2: ActorControlBlock,
    msgs2: Seq<Envelope<M>>,
    r: Option<Exit>,
) -> bool {
    match signal {
        Signal::Exit(from, reason) => {
            &&& !cb2.linked(from)
            &&& links_agree_except(cb, cb2, from)
            &&& same_but_links(cb, cb2)
            &&& cb.trap_exit ==> r is None
                && msgs2 == msgs.push(
                    Envelope::TrapExit(TrapExitMessage { pid: from, reason }))
            &&& !cb.trap_exit ==> msgs2 == msgs
                && r == (if reason is Normal { None } else { Some(reason) })
        },
        Signal::Kill => r == Some(Exit::Killed) && cb2 == cb
            && msgs2 == msgs,
        Signal::Link(p) => {
            &&& r is None
            &&& cb2.linked(p)
            &&& links_agree_except(cb, cb2, p)
            &&& same_but_links(cb, cb2)
            &&& msgs2 == msgs
        },
        Signal::Unlink(p) => {
            &&& r is None
            &&& !cb2.linked(p)
            &&& links_agree_except(cb, cb2, p)
            &&& same_but_links(cb, cb2)
            &&& msgs2 == msgs
        },
        Signal::TimerFired => r is None && cb2 == cb
            && msgs2 == msgs,
        Signal::Message(m) => r is None && cb2 == cb
            && msgs2 == msgs.push(Envelope::Message(m)),
    }
}

/// A message a process sends itself reaches its queue when the signal is
/// applied, and a receive whose matcher accepts it and none of the messages
/// queued before returns it.
pub proof fn lemma_send_then_receive<M, F: Fn(&Envelope<M>) -> bool>(
    matcher: F,
    cb: ActorControlBlock,
    msgs: Seq<Envelope<M>>,
    m: M,
    cb2: ActorControlBlock,
    msgs2: Seq<Envelope<M>>,
    r: Option<Exit>,
)
    requires
        signal_applied(cb, msgs, Signal::Message(m), cb2, msgs2, r),
        deterministic(matcher),
        forall|j: int| 0 <= j < msgs.len() ==> matcher.ensures((&#[trigger] msgs[j],), false),
        matcher.ensures((&Envelope::Message(m),), true),
    ensures
        r is None,
        cb2 == cb,
        forall|i: int| #[trigger] first_match(matcher, msgs2, i) <==> i == msgs.len(),
        msgs2[msgs.len() as int] == Envelope::<M>::Message(m),
{
    lemma_receive_after_send(matcher, msgs, Envelope::Message(m));
}

impl<M> HydratedActor<M> {
    pub open spec fn wf(&self) -> bool {
        self.control_block.wf() && self.inbox.wf()
    }

    pub open spec fn pid(&self) -> Pid {
        self.control_block.pid
    }

    pub fn new(control_block: ActorControlBlock) -> (r: Self)
        requires
            control_block.wf(),
        ensures
            r.wf(),
            r.control_block == control_block,
            r.inbox@ == Seq::<Signal<M>>::empty(),
            r.messages@ == Seq::<Envelope<M>>::empty(),
    {
        HydratedActor { control_block, inbox: Inbox::new(), messages: MessageQueue::new() }
    }

    pub fn control_block(&self) -> (r: &ActorControlBlock)
        ensures
            *r == self.control_block,
    {
        &self.control_block
    }

    /// Delivers a signal to the inbox. It is never dropped.
    pub fn send_signal(&mut self, signal: Signal<M>)
        requires
            old(self).wf(),
        ensures
            final(self).wf(),
            final(self).inbox@ == old(self).inbox@.push(signal),
            final(self).control_block == old(self).control_block,
            final(self).messages@ == old(self).messages@,
    {
        self.inbox.push(signal);
    }

    /// Whether signals wait in the inbox.
    pub fn has_messages(&self) -> (r: bool)
        requires
            self.wf(),
        ensures
            r == (self.inbox@.len() > 0),
    {
        !self.inbox.is_empty()
    }

    /// Applies one signal. Returns the reason to terminate with, if the
    /// signal ends the process.
    pub fn apply_signal(&mut self, signal: Signal<M>) -> (r: Option<Exit>)
        requires
            old(self).wf(),
        ensures
            final(self).wf(),
            final(self).inbox@ == old(self).inbox@,
            signal_applied(old(self).control_block, old(self).messages@, signal,
                final(self).control_block, final(self).messages@, r),
    {
        match signal {
            Signal::Exit(from, reason) => {
                let _ = self.control_block.remove_link(from);
                if self.control_block.trap_exit {
                    self.messages.push(Envelope::TrapExit(TrapExitMessage { pid: from, reason }));
                    None
                } else if reason.is_normal() {
                    None
                } else {
                    Some(reason)
                }
            },
            Signal::Kill => Some(Exit::Killed),
            Signal::Link(p) => {
                let ghost before = self.control_block;
                let _ = self.control_block.add_link(p);
                proof {
                    assert forall|q: Pid| q != p implies (self.control_block.linked(q) <==> before.linked(q)) by {
                        crate::unsorted_set::lemma_has_key_push(before.links.items(), p, q.0);
                    }
                }
                None
            },
            Signal::Unlink(p) => {
                let _ = self.control_block.remove_link(p);
                None
            },
            Signal::TimerFired => None,
            Signal::Message(m) => {
                self.messages.push(Envelope::Message(m));
                None
            },
        }
    }

    /// Takes one signal from the inbox, if any, and applies it. Only one is
    /// taken per poll so that a flood of signals does not starve the
    /// process's own progress.
    pub fn poll(&mut self) -> (r: Option<Exit>)
        requires
            old(self).wf(),
        ensures
            final(self).wf(),
            old(self).inbox@.len() == 0 ==> r is None && final(self).inbox@ == old(self).inbox@
                && final(self).control_block == old(self).control_block
                && final(self).messages@ == old(self).messages@,
            old(self).inbox@.len() > 0 ==> final(self).inbox@ == old(self).inbox@.subrange(1, old(self).inbox@.len() as int)
                && signal_applied(old(self).control_block, old(self).messages@, old(self).inbox@[0],
                    final(self).control_block, final(self).messages@, r),
    {
        match self.inbox.pop() {
            Some(signal) => self.apply_signal(signal),
            None => None,
        }
    }

    /// Removes the first queued message `matcher` accepts.
    pub fn receive<F: Fn(&Envelope<M>) -> bool>(&mut self, matcher: F) -> (r: Option<Envelope<M>>)
        requires
            forall|e: &Envelope<M>| #[trigger] matcher.requires((e,)),
        ensures
            final(self).control_block == old(self).control_block,
            final(self).inbox == old(self).inbox,
            match r {
                Some(e) => exists|i: int|
                    #[trigger] crate::message_queue::first_match(matcher, old(self).messages@, i)
                    && e == old(self).messages@[i]
                    && final(self).messages@ == old(self).messages@.remove(i),
                None => final(self).messages@ == old(self).messages@
                    && forall|j: int| 0 <= j < old(self).messages@.len() ==> matcher.ensures((&#[trigger] old(self).messages@[j],), false),
            },
    {
        self.messages.remove_matching(matcher)
    }
}

} // verus!
