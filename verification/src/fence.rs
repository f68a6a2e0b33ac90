use vstd::prelude::*;

verus! {

/// What waiting on a fence reported.
#[derive(Clone, Copy, Debug, PartialEq, Eq, Structural)]
pub enum Signal {
    AlreadySignaled,
    ConditionSatisfied,
    TimeOutExpired,
    WaitFailed,
}

impl Signal {
    /// Whether the fence had been passed: it was already signalled, or became so in time.
    pub fn signalled(self) -> (r: bool)
        ensures
            r == (self == Signal::AlreadySignaled || self == Signal::ConditionSatisfied),
    {
        matches!(self, Self::AlreadySignaled | Self::ConditionSatisfied)
    }
}

} // verus!
