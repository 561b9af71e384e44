//! What a check concludes about its subject.

use vstd::prelude::*;

verus! {

/// The result a check files for one instance.
#[derive(Debug, Clone, Copy, PartialEq, Eq, Structural, Hash)]
pub enum CheckResult {
    /// The condition the check looks for is absent.
    Passed,
    /// The condition is developing and wants attention.
    Warning,
    /// The condition holds.
    Failed,
    /// The check could not be determined.
    Broken,
    /// The check is silenced.
    Skipped,
}

impl CheckResult {
    /// How urgent a result is: lower is more urgent.
    pub open spec fn urgency(self) -> int {
        match self {
            CheckResult::Failed => 0,
            CheckResult::Broken => 1,
            CheckResult::Warning => 2,
            CheckResult::Passed => 3,
            CheckResult::Skipped => 4,
        }
    }

    /// The urgency rank of a result: lower is more urgent.
    pub fn urgency_rank(self) -> (rank: u8)
        ensures
            rank == self.urgency(),
    {
        match self {
            CheckResult::Failed => 0,
            CheckResult::Broken => 1,
            CheckResult::Warning => 2,
            CheckResult::Passed => 3,
            CheckResult::Skipped => 4,
        }
    }
}

} // verus!
