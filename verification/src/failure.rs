//! What can go wrong, and what is done about each kind of failure.

use vstd::prelude::*;

verus! {

/// The kinds of failure.
#[derive(Clone, Copy, Debug, PartialEq, Eq, Structural)]
pub enum Failure {
    /// A connection names a port that is not there yet.
    Unavailable,
    /// The registry refused a subscription that was asked for.
    Rejected,
    /// The registry could not tell the name of a client or of a port,
    /// because it vanished in the meantime.
    LookupFailed,
    /// The connections could not be written.
    WriteFailed,
}

/// What is done about a failure.
#[derive(Clone, Copy, Debug, PartialEq, Eq, Structural)]
pub enum Recovery {
    /// Nothing is said; the connection waits until the port shows up.
    Defer,
    /// The failure is logged as an error, and the work goes on. The
    /// subscription is asked for again when one of its ports shows up next.
    LogAndContinue,
    /// The numeric name stands in for the one that could not be had.
    Fallback,
    /// The failure is logged and the process ends: going on would leave the
    /// written connections behind those in memory.
    Abort,
}

impl Failure {
    /// What is done about this kind of failure.
    pub open spec fn recovery_of(self) -> Recovery {
        match self {
            Failure::Unavailable => Recovery::Defer,
            Failure::Rejected => Recovery::LogAndContinue,
            Failure::LookupFailed => Recovery::Fallback,
            Failure::WriteFailed => Recovery::Abort,
        }
    }

    /// The failure can be met while a connection is attempted: a port is
    /// missing, or the registry refuses.
    pub open spec fn of_attempt(self) -> bool {
        self == Failure::Unavailable || self == Failure::Rejected
    }

    /// Tells what to do about this kind of failure.
    pub fn recovery(self) -> (recovery: Recovery)
        ensures
            recovery == self.recovery_of(),
    {
        match self {
            Failure::Unavailable => Recovery::Defer,
            Failure::Rejected => Recovery::LogAndContinue,
            Failure::LookupFailed => Recovery::Fallback,
            Failure::WriteFailed => Recovery::Abort,
        }
    }
}

/// An attempt to make a connection never ends the run, whatever the
/// registry answers: no failure that it can meet is answered with an abort.
/// Only a failed write is.
pub proof fn lemma_attempt_never_aborts(failure: Failure)
    ensures
        failure.of_attempt() ==> failure.recovery_of() != Recovery::Abort,
        failure.recovery_of() == Recovery::Abort <==> failure == Failure::WriteFailed,
{
}

} // verus!
