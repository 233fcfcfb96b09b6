//! Exit reasons and the system messages that carry them.

use crate::pid::Pid;
use vstd::prelude::*;

verus! {

/// Why a particle exited.
#[derive(PartialEq, Debug)]
pub enum ExitReason {
    Normal,
    Kill,
    /// Killed by a `kill` that was sent at the particle.
    Killed,
    Shutdown(String),
    Exception(String),
    /// There was no such particle.
    NoProc,
    /// The node of the particle could not be reached.
    NoConnection,
}

impl Clone for ExitReason {
    fn clone(&self) -> (r: Self)
        ensures
            r == *self,
    {
        match self {
            ExitReason::Normal => ExitReason::Normal,
            ExitReason::Kill => ExitReason::Kill,
            ExitReason::Killed => ExitReason::Killed,
            ExitReason::Shutdown(why) => ExitReason::Shutdown(why.clone()),
            ExitReason::Exception(why) => ExitReason::Exception(why.clone()),
            ExitReason::NoProc => ExitReason::NoProc,
            ExitReason::NoConnection => ExitReason::NoConnection,
        }
    }
}

impl ExitReason {
    /// Whether the exit is anything but a normal one.
    pub fn is_abnormal(&self) -> (r: bool)
        ensures
            r == (*self !is Normal),
    {
        match self {
            ExitReason::Normal => false,
            _ => true,
        }
    }
}

/// A message from the runtime about another particle's end.
#[derive(PartialEq, Debug)]
pub enum SystemMessage {
    Exit { from: Pid, reason: ExitReason },
    Down { from: Pid, monitor_ref: u64, reason: ExitReason },
}

impl Clone for SystemMessage {
    fn clone(&self) -> (r: Self)
        ensures
            r == *self,
    {
        match self {
            SystemMessage::Exit { from, reason } => SystemMessage::Exit {
                from: *from,
                reason: reason.clone(),
            },
            SystemMessage::Down { from, monitor_ref, reason } => SystemMessage::Down {
                from: *from,
                monitor_ref: *monitor_ref,
                reason: reason.clone(),
            },
        }
    }
}

} // verus!
