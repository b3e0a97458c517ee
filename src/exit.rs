use vstd::prelude::*;
use crate::pid::Pid;

verus! {

/// Why a process terminated.
#[derive(Clone, Debug, PartialEq, Eq)]
pub enum Exit {
    /// Graceful shutdown: the process chose to stop.
    Normal,
    /// The process panicked; the payload is the panic message.
    Panic(String),
    /// The process was shut down as part of a system halt.
    Shutdown,
    /// The process was killed on purpose.
    Killed,
}

impl Exit {
    /// A copy of this reason that Verus knows to be equal to it.
    pub fn duplicate(&self) -> (r: Exit)
        ensures
            r == *self,
    {
        match self {
            Exit::Normal => Exit::Normal,
            Exit::Panic(s) => Exit::Panic(s.clone()),
            Exit::Shutdown => Exit::Shutdown,
            Exit::Killed => Exit::Killed,
        }
    }

    /// Whether a linked process that does not trap exits ignores this reason.
    pub fn is_normal(&self) -> (r: bool)
        ensures
            r == (*self is Normal),
    {
        match self {
            Exit::Normal => true,
            _ => false,
        }
    }
}

/// What a process's inbox transports. `M` is the message type the process
/// accepts.
pub enum Signal<M> {
    /// A linked process terminated with a reason.
    Exit(Pid, Exit),
    /// Terminate unconditionally.
    Kill,
    /// Add a link to the given process.
    Link(Pid),
    /// Remove the link to the given process.
    Unlink(Pid),
    /// A timer fired; it only wakes the process.
    TimerFired,
    /// An ordinary message.
    Message(M),
}

/// The message a process that traps exits receives when a linked process
/// terminates.
#[derive(Clone, Debug, PartialEq, Eq)]
pub struct TrapExitMessage {
    pub pid: Pid,
    pub reason: Exit,
}

/// An entry of a process's message queue: a message it was sent, or a
/// trapped exit.
pub enum Envelope<M> {
    Message(M),
    TrapExit(TrapExitMessage),
}

/// Why a selective receive returned without a message.
#[derive(Copy, Clone, Debug, PartialEq, Eq, Structural)]
pub enum RecvError {
    Timeout,
}

} // verus!
