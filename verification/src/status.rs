//! The tri-state status that every node evaluation produces.

use vstd::prelude::*;

verus! {

/// What a node reports after being evaluated for one tick.
#[derive(Debug, Clone, Copy, PartialEq, Eq, Structural)]
pub enum NodeResult {
    /// Not resolved yet: evaluate the node again on a later tick.
    Running,
    /// The node did what it was asked to do.
    Success,
    /// The node could not do what it was asked to do.
    Failure,
}

impl NodeResult {
    /// The status that stands for a boolean answer.
    pub open spec fn of_flag(flag: bool) -> NodeResult {
        if flag {
            NodeResult::Success
        } else {
            NodeResult::Failure
        }
    }

    /// Whether the status ends an episode.
    pub open spec fn resolved(self) -> bool {
        self != NodeResult::Running
    }

    /// Turns a boolean answer into a status: `true` is `Success`, `false` is `Failure`.
    pub fn from_flag(flag: bool) -> (status: NodeResult)
        ensures
            status == Self::of_flag(flag),
    {
        if flag {
            NodeResult::Success
        } else {
            NodeResult::Failure
        }
    }

    /// Tells whether the status is `Success` or `Failure`.
    pub fn is_resolved(self) -> (done: bool)
        ensures
            done == self.resolved(),
    {
        match self {
            NodeResult::Running => false,
            NodeResult::Success => true,
            NodeResult::Failure => true,
        }
    }
}

} // verus!
