//! What a call reports, and how often a repeat runs.
use vstd::prelude::*;
use crate::duration::Duration;

verus! {

/// What one call of `advance` or `skip` reports.
///
/// `Done` carries the surplus: the part of the time handed in that the
/// timeline did not need to reach its end.
#[derive(Debug, Clone, Copy, PartialEq, Eq, Structural)]
pub enum TweenProgress {
    Running,
    Done { surplus: Duration },
}

/// The model of [`TweenProgress`], with the surplus as a natural number of
/// nanoseconds.
pub enum Progress {
    Running,
    Done { surplus: nat },
}

impl View for TweenProgress {
    type V = Progress;

    open spec fn view(&self) -> Progress {
        match self {
            TweenProgress::Running => Progress::Running,
            TweenProgress::Done { surplus } => Progress::Done { surplus: surplus@ },
        }
    }
}

impl Progress {
    /// The progress of a group whose members report `self` and `other`: done
    /// when both are, with the smaller surplus.
    pub open spec fn meet(self, other: Progress) -> Progress {
        match (self, other) {
            (Progress::Done { surplus: a }, Progress::Done { surplus: b }) => Progress::Done {
                surplus: if a <= b { a } else { b },
            },
            _ => Progress::Running,
        }
    }
}

impl TweenProgress {
    pub fn is_done(&self) -> (done: bool)
        ensures
            done == (self@ is Done),
    {
        match self {
            TweenProgress::Running => false,
            TweenProgress::Done { .. } => true,
        }
    }
}

/// How often a repeat runs its child.
#[derive(Debug, Clone, Copy, PartialEq, Eq, Structural)]
pub enum RepeatTimes {
    N(usize),
    Infinite,
}

impl RepeatTimes {
    /// Whether `count` completed runs exhaust the policy. `Infinite` is never
    /// exhausted.
    pub open spec fn exhausted_by(self, count: nat) -> bool {
        match self {
            RepeatTimes::N(amount) => count >= amount,
            RepeatTimes::Infinite => false,
        }
    }
}

impl Default for RepeatTimes {
    fn default() -> (times: RepeatTimes)
        ensures
            times == RepeatTimes::N(1),
    {
        RepeatTimes::N(1)
    }
}

} // verus!
