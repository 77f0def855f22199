use vstd::prelude::*;

verus! {

/// Where a task stands in its activation lifecycle.
#[derive(Copy, Clone, PartialEq, Eq, Structural, Debug)]
pub enum ActivationState {
    /// The next run time has yet to be computed.
    ToBeScheduled,
    /// The next run time is fixed, in seconds since the epoch.
    Scheduled(i64),
    /// The task is due and waits to be executed and reset.
    ReadyToRun,
}

} // verus!
