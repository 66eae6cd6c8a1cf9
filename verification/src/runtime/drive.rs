//! Bounded Fixup execution: one execution drives one partition through the
//! split or merge state machine for at most a fixed number of steps.

use vstd::prelude::*;

use crate::maintenance::{merge, split};
use crate::observe::labels::{FixupExecution, FixupStepResult};
use crate::runtime::queue::SplitFollowups;

verus! {

/// What one maintenance step did. A failed step is `None` of its machine, and
/// a failure before the machine was known is `Failed`.
#[derive(Clone, Copy, Debug, PartialEq, Eq, Structural)]
pub enum StepOutcome {
    /// The partition needed nothing.
    Idle,
    /// The split state machine ran.
    Split(Option<split::Advance>),
    /// The merge state machine ran.
    Merge(Option<merge::Advance>),
    /// The partition's authority could not be read.
    Failed,
}

/// One finished execution and what a completed split makes worth offering.
#[derive(Clone, Copy, Debug, PartialEq, Eq, Structural)]
pub struct DrivenFixup {
    /// The outcome.
    pub execution: FixupExecution,
    /// The follow-ups of a completed split.
    pub split_followups: Option<SplitFollowups>,
}

/// An execution without follow-ups.
pub open spec fn driven(execution: FixupExecution) -> DrivenFixup {
    DrivenFixup { execution, split_followups: None }
}

impl DrivenFixup {
    /// An execution without follow-ups.
    pub fn new(execution: FixupExecution) -> (res: Self)
        ensures
            res == driven(execution),
    {
        DrivenFixup { execution, split_followups: None }
    }
}

/// What one step makes of an execution; `None` when progress goes on.
pub open spec fn verdict(step: StepOutcome) -> Option<DrivenFixup> {
    match step {
        StepOutcome::Idle => Some(driven(FixupExecution::Settled)),
        StepOutcome::Failed => Some(driven(FixupExecution::Retired)),
        StepOutcome::Split(None) => Some(driven(FixupExecution::Retired)),
        StepOutcome::Split(Some(advance)) => match advance {
            split::Advance::Idle => Some(driven(FixupExecution::Settled)),
            split::Advance::Completed { left, right, parent } => Some(
                DrivenFixup {
                    execution: FixupExecution::Settled,
                    split_followups: Some(SplitFollowups { left, right, parent }),
                },
            ),
            _ => None,
        },
        StepOutcome::Merge(None) => Some(driven(FixupExecution::Retired)),
        StepOutcome::Merge(Some(advance)) => match advance {
            merge::Advance::Idle => Some(driven(FixupExecution::Settled)),
            merge::Advance::Completed => Some(driven(FixupExecution::Settled)),
            merge::Advance::Stalled => Some(driven(FixupExecution::Stalled)),
            _ => None,
        },
    }
}

/// One execution in progress.
#[derive(Clone, Copy, Debug, PartialEq, Eq, Structural)]
pub struct Drive {
    /// The steps that may still run.
    pub steps_left: u32,
}

impl Drive {
    /// Starts an execution of at most `attempts` steps.
    pub fn new(attempts: u32) -> (res: Self)
        ensures
            res.steps_left == attempts,
    {
        Drive { steps_left: attempts }
    }

    /// Decides whether another step runs: `None` to run it. A spent step
    /// budget yields, and cancelled maintenance retires.
    pub fn begin_step(&mut self, cancelled: bool) -> (res: Option<DrivenFixup>)
        ensures
            if old(self).steps_left == 0 {
                &&& res == Some(driven(FixupExecution::Yielded))
                &&& *final(self) == *old(self)
            } else if cancelled {
                &&& res == Some(driven(FixupExecution::Retired))
                &&& *final(self) == *old(self)
            } else {
                &&& res is None
                &&& final(self).steps_left == old(self).steps_left - 1
            },
    {
        if self.steps_left == 0 {
            return Some(DrivenFixup::new(FixupExecution::Yielded));
        }
        if cancelled {
            return Some(DrivenFixup::new(FixupExecution::Retired));
        }
        self.steps_left = self.steps_left - 1;
        None
    }

    /// Decides what one step makes of the execution: `None` to go on. No work
    /// left settles, a merge without a target stalls, and any failure retires.
    pub fn finish_step(&self, step: StepOutcome) -> (res: Option<DrivenFixup>)
        ensures
            res == verdict(step),
    {
        match step {
            StepOutcome::Idle => Some(DrivenFixup::new(FixupExecution::Settled)),
            StepOutcome::Failed => Some(DrivenFixup::new(FixupExecution::Retired)),
            StepOutcome::Split(None) => Some(DrivenFixup::new(FixupExecution::Retired)),
            StepOutcome::Split(Some(advance)) => match advance {
                split::Advance::Idle => Some(DrivenFixup::new(FixupExecution::Settled)),
                split::Advance::Completed { left, right, parent } => Some(
                    DrivenFixup {
                        execution: FixupExecution::Settled,
                        split_followups: Some(SplitFollowups { left, right, parent }),
                    },
                ),
                split::Advance::Began { .. } => None,
                split::Advance::Exposed { .. } => None,
                split::Advance::Corrected { .. } => None,
                split::Advance::Drained { .. } => None,
            },
            StepOutcome::Merge(None) => Some(DrivenFixup::new(FixupExecution::Retired)),
            StepOutcome::Merge(Some(advance)) => match advance {
                merge::Advance::Idle => Some(DrivenFixup::new(FixupExecution::Settled)),
                merge::Advance::Completed => Some(DrivenFixup::new(FixupExecution::Settled)),
                merge::Advance::Stalled => Some(DrivenFixup::new(FixupExecution::Stalled)),
                merge::Advance::Began => None,
                merge::Advance::Drained { .. } => None,
            },
        }
    }
}

/// Only unfinished progress lets an execution go on: work that is done, stuck
/// or failed ends it, and only a completed split has follow-ups.
pub proof fn executions_end_without_progress(step: StepOutcome)
    ensures
        verdict(step) is None ==> {
            ||| step matches StepOutcome::Split(Some(advance)) && (advance is Began
                || advance is Exposed || advance is Corrected || advance is Drained)
            ||| step matches StepOutcome::Merge(Some(advance)) && (advance is Began
                || advance is Drained)
        },
        verdict(step) matches Some(ended) ==> (ended.split_followups is Some <==> (
        step matches StepOutcome::Split(Some(advance)) && advance is Completed)),
{
}

/// What one split step reports; a committed move was reported when it
/// committed.
pub fn observe_split_step(step: Option<split::Advance>) -> (res: Option<FixupStepResult>)
    ensures
        res == match step {
            None => Some(FixupStepResult::Failed),
            Some(split::Advance::Idle) => Some(FixupStepResult::Idle),
            Some(split::Advance::Began { .. }) => Some(FixupStepResult::Began),
            Some(split::Advance::Exposed { .. }) => Some(FixupStepResult::Exposed),
            Some(split::Advance::Completed { .. }) => Some(FixupStepResult::Completed),
            _ => None,
        },
{
    match step {
        None => Some(FixupStepResult::Failed),
        Some(split::Advance::Idle) => Some(FixupStepResult::Idle),
        Some(split::Advance::Began { .. }) => Some(FixupStepResult::Began),
        Some(split::Advance::Exposed { .. }) => Some(FixupStepResult::Exposed),
        Some(split::Advance::Completed { .. }) => Some(FixupStepResult::Completed),
        Some(split::Advance::Corrected { .. }) => None,
        Some(split::Advance::Drained { .. }) => None,
    }
}

/// What one merge step reports; a committed move was reported when it
/// committed.
pub fn observe_merge_step(step: Option<merge::Advance>) -> (res: Option<FixupStepResult>)
    ensures
        res == match step {
            None => Some(FixupStepResult::Failed),
            Some(merge::Advance::Idle) => Some(FixupStepResult::Idle),
            Some(merge::Advance::Began) => Some(FixupStepResult::Began),
            Some(merge::Advance::Stalled) => Some(FixupStepResult::Stalled),
            Some(merge::Advance::Completed) => Some(FixupStepResult::Completed),
            _ => None,
        },
{
    match step {
        None => Some(FixupStepResult::Failed),
        Some(merge::Advance::Idle) => Some(FixupStepResult::Idle),
        Some(merge::Advance::Began) => Some(FixupStepResult::Began),
        Some(merge::Advance::Stalled) => Some(FixupStepResult::Stalled),
        Some(merge::Advance::Completed) => Some(FixupStepResult::Completed),
        Some(merge::Advance::Drained { .. }) => None,
    }
}

} // verus!
