//! The bounded expose-then-drain split driver.
//!
//! A split runs through its durable states, `Ready`, `Splitting`,
//! `DrainingSplit`, and completed, one short independently retryable step at a
//! time. Every committed intermediate state stays searchable, so a driver may
//! stop anywhere and any other may resume.

use vstd::prelude::*;

use crate::api::error::{plain_error, Error, ErrorKind, Result};
use crate::api::identifiers::PartitionKey;
use crate::hashing::{le_bytes, xxh3_64_of};
use crate::maintenance::balance::{shortfall, SplitBalance};
use crate::maintenance::drain::remaining_after;
use crate::runtime::retry::{share, RetryPolicy};
use crate::topology::{Authority, PartitionHeader, PartitionTransition};

verus! {

/// The outcome of exposing both split targets.
#[derive(Clone, Copy, Debug, PartialEq, Eq, Structural)]
#[non_exhaustive]
pub enum TargetExposure {
    /// Both targets are published with their persisted centroids.
    Exposed {
        /// The left target.
        left: PartitionKey,
        /// The right target.
        right: PartitionKey,
    },
    /// The source is no longer splitting or draining.
    SourceAdvanced,
}

/// The outcome of one bounded drain batch.
#[derive(Clone, Copy, Debug, PartialEq, Eq, Structural)]
#[non_exhaustive]
pub enum DrainStep {
    /// The batch committed.
    Drained {
        /// The number of entries this batch moved.
        moved: usize,
        /// The source's exact entry count after the batch.
        remaining: u32,
    },
    /// The source is no longer draining: the split completed.
    SourceAdvanced,
    /// The source is not draining yet.
    NotDraining,
}

/// What one rediscovery pass did.
#[derive(Clone, Copy, Debug, PartialEq, Eq, Structural)]
#[non_exhaustive]
pub enum Advance {
    /// Nothing to do.
    Idle,
    /// The partition began a split.
    Began {
        /// The reserved left target.
        left: PartitionKey,
        /// The reserved right target.
        right: PartitionKey,
    },
    /// The partition's targets are exposed and it is now draining.
    Exposed {
        /// The left target.
        left: PartitionKey,
        /// The right target.
        right: PartitionKey,
    },
    /// One corrective pull batch committed into the split targets.
    Corrected {
        /// The number of entries moved from a `Ready` sibling or cousin.
        moved: usize,
    },
    /// One drain batch committed.
    Drained {
        /// The number of entries this batch moved.
        moved: usize,
        /// The source's exact entry count after the batch.
        remaining: u32,
    },
    /// The split completed and promoted both targets.
    Completed {
        /// The promoted left target.
        left: PartitionKey,
        /// The promoted right target.
        right: PartitionKey,
        /// The updated parent, or `None` when the root split in place.
        parent: Option<PartitionKey>,
    },
}

/// What committing the begin transition found.
#[derive(Clone, Copy, Debug, PartialEq, Eq, Structural)]
pub enum SplitStart {
    /// The split began.
    Started {
        /// The reserved left target.
        left: PartitionKey,
        /// The reserved right target.
        right: PartitionKey,
    },
    /// Another worker had begun it.
    AlreadySplitting {
        /// The reserved left target.
        left: PartitionKey,
        /// The reserved right target.
        right: PartitionKey,
    },
    /// The partition may not split now.
    NotEligible,
}

/// What committing one target installation found.
#[derive(Clone, Copy, Debug, PartialEq, Eq, Structural)]
pub enum TargetInstall {
    /// The target was created with its trained centroid.
    Created,
    /// The target existed and keeps its centroid.
    AlreadyExists,
    /// The source is no longer splitting.
    SourceAdvanced,
    /// The discovered parent accepts no new child now.
    ParentNotAccepting,
}

/// What committing the draining transition found.
#[derive(Clone, Copy, Debug, PartialEq, Eq, Structural)]
pub enum DrainStart {
    /// The source now drains.
    Advanced,
    /// It drained already.
    AlreadyDraining,
    /// It is not splitting.
    NotSplitting,
}

/// What committing the completion found.
#[derive(Clone, Copy, Debug, PartialEq, Eq, Structural)]
pub enum SplitCompletion {
    /// The split completed.
    Completed {
        /// The updated parent, or `None` when the root split in place.
        parent: Option<PartitionKey>,
    },
    /// Another worker had completed it.
    NotDraining,
    /// Entries arrived meanwhile.
    NotDrained,
}

/// The next thing a split pass does.
#[derive(Clone, Copy, Debug, PartialEq, Eq, Structural)]
pub enum SplitPhase {
    /// Commit the begin transition.
    Begin,
    /// Expose both targets.
    Expose,
    /// Commit the draining transition.
    AdvanceToDraining {
        /// The left target.
        left: PartitionKey,
        /// The right target.
        right: PartitionKey,
    },
    /// Run one bounded corrective pull.
    Correct {
        /// The left target.
        left: PartitionKey,
        /// The right target.
        right: PartitionKey,
    },
    /// Drain one bounded batch.
    Drain {
        /// The left target.
        left: PartitionKey,
        /// The right target.
        right: PartitionKey,
    },
    /// Commit the completion of an empty source.
    Complete {
        /// The left target.
        left: PartitionKey,
        /// The right target.
        right: PartitionKey,
        /// The number of entries the last batch moved.
        moved: usize,
    },
    /// The pass is over.
    Done {
        /// What it did.
        result: Advance,
    },
}

/// What happened in a phase.
#[derive(Clone, Copy, Debug, PartialEq, Eq, Structural)]
pub enum SplitEvent {
    /// The begin transition was committed.
    Begun(SplitStart),
    /// The targets were exposed.
    Exposed(TargetExposure),
    /// The draining transition was committed.
    Draining(DrainStart),
    /// The corrective pull moved this many entries.
    Pulled(usize),
    /// One batch was drained.
    Drained(DrainStep),
    /// The completion was committed.
    Finalized(SplitCompletion),
}

/// The first phase of a pass over one partition: `maximum` is the index's
/// partition entry bound.
pub open spec fn first_phase(authority: Option<Authority>, maximum: u32) -> SplitPhase {
    match authority {
        None => SplitPhase::Done { result: Advance::Idle },
        Some(found) => match found.transition {
            PartitionTransition::Ready { .. } => if found.header.entry_count > maximum {
                SplitPhase::Begin
            } else {
                SplitPhase::Done { result: Advance::Idle }
            },
            PartitionTransition::Splitting { .. } => SplitPhase::Expose,
            PartitionTransition::DrainingSplit { left, right, .. } => SplitPhase::Correct {
                left,
                right,
            },
            _ => SplitPhase::Done { result: Advance::Idle },
        },
    }
}

impl SplitPhase {
    /// Whether an event answers this phase.
    pub open spec fn answered_by(self, event: SplitEvent) -> bool {
        match self {
            SplitPhase::Begin => event is Begun,
            SplitPhase::Expose => event is Exposed,
            SplitPhase::AdvanceToDraining { .. } => event is Draining,
            SplitPhase::Correct { .. } => event is Pulled,
            SplitPhase::Drain { .. } => event is Drained,
            SplitPhase::Complete { .. } => event is Finalized,
            SplitPhase::Done { .. } => false,
        }
    }

    /// The phase behind this one, after an event that answers it.
    pub open spec fn next(self, event: SplitEvent) -> SplitPhase {
        match (self, event) {
            (SplitPhase::Begin, SplitEvent::Begun(start)) => match start {
                SplitStart::Started { left, right } => SplitPhase::Done {
                    result: Advance::Began { left, right },
                },
                SplitStart::AlreadySplitting { left, right } => SplitPhase::Done {
                    result: Advance::Began { left, right },
                },
                SplitStart::NotEligible => SplitPhase::Done { result: Advance::Idle },
            },
            (SplitPhase::Expose, SplitEvent::Exposed(exposure)) => match exposure {
                TargetExposure::Exposed { left, right } => SplitPhase::AdvanceToDraining {
                    left,
                    right,
                },
                TargetExposure::SourceAdvanced => SplitPhase::Done { result: Advance::Idle },
            },
            (
                SplitPhase::AdvanceToDraining { left, right },
                SplitEvent::Draining(start),
            ) => match start {
                DrainStart::NotSplitting => SplitPhase::Done { result: Advance::Idle },
                _ => SplitPhase::Done { result: Advance::Exposed { left, right } },
            },
            (SplitPhase::Correct { left, right }, SplitEvent::Pulled(moved)) => if moved == 0 {
                SplitPhase::Drain { left, right }
            } else {
                SplitPhase::Done { result: Advance::Corrected { moved } }
            },
            (SplitPhase::Drain { left, right }, SplitEvent::Drained(step)) => match step {
                DrainStep::Drained { moved, remaining } => if remaining == 0 {
                    SplitPhase::Complete { left, right, moved }
                } else {
                    SplitPhase::Done { result: Advance::Drained { moved, remaining } }
                },
                DrainStep::SourceAdvanced => SplitPhase::Done {
                    result: Advance::Completed { left, right, parent: None },
                },
                DrainStep::NotDraining => SplitPhase::Done { result: Advance::Idle },
            },
            (
                SplitPhase::Complete { left, right, moved },
                SplitEvent::Finalized(completion),
            ) => match completion {
                SplitCompletion::Completed { parent } => SplitPhase::Done {
                    result: Advance::Completed { left, right, parent },
                },
                SplitCompletion::NotDraining => SplitPhase::Done {
                    result: Advance::Completed { left, right, parent: None },
                },
                SplitCompletion::NotDrained => SplitPhase::Done {
                    result: Advance::Drained { moved, remaining: 0 },
                },
            },
            _ => self,
        }
    }

    /// The most steps left before the pass is over.
    pub open spec fn rank(self) -> nat {
        match self {
            SplitPhase::Begin => 1,
            SplitPhase::Expose => 2,
            SplitPhase::AdvanceToDraining { .. } => 1,
            SplitPhase::Correct { .. } => 3,
            SplitPhase::Drain { .. } => 2,
            SplitPhase::Complete { .. } => 1,
            SplitPhase::Done { .. } => 0,
        }
    }

    /// Chooses the first phase of a pass from the partition's authority
    /// values. A partition without them has nothing to advance.
    pub fn start(authority: Option<Authority>, maximum: u32) -> (res: Self)
        ensures
            res == first_phase(authority, maximum),
    {
        match authority {
            None => SplitPhase::Done { result: Advance::Idle },
            Some(found) => match found.transition {
                PartitionTransition::Ready { .. } => {
                    if found.header.entry_count > maximum {
                        SplitPhase::Begin
                    } else {
                        SplitPhase::Done { result: Advance::Idle }
                    }
                },
                PartitionTransition::Splitting { .. } => SplitPhase::Expose,
                PartitionTransition::DrainingSplit { left, right, .. } => SplitPhase::Correct {
                    left,
                    right,
                },
                PartitionTransition::ReceivingSplit { .. } => SplitPhase::Done {
                    result: Advance::Idle,
                },
                PartitionTransition::Merging { .. } => SplitPhase::Done { result: Advance::Idle },
            },
        }
    }

    /// Moves on to the phase behind this one.
    pub fn advance(self, event: SplitEvent) -> (res: Self)
        ensures
            res == self.next(event),
    {
        match (self, event) {
            (SplitPhase::Begin, SplitEvent::Begun(start)) => match start {
                SplitStart::Started { left, right } => SplitPhase::Done {
                    result: Advance::Began { left, right },
                },
                SplitStart::AlreadySplitting { left, right } => SplitPhase::Done {
                    result: Advance::Began { left, right },
                },
                SplitStart::NotEligible => SplitPhase::Done { result: Advance::Idle },
            },
            (SplitPhase::Expose, SplitEvent::Exposed(exposure)) => match exposure {
                TargetExposure::Exposed { left, right } => SplitPhase::AdvanceToDraining {
                    left,
                    right,
                },
                TargetExposure::SourceAdvanced => SplitPhase::Done { result: Advance::Idle },
            },
            (
                SplitPhase::AdvanceToDraining { left, right },
                SplitEvent::Draining(start),
            ) => match start {
                DrainStart::NotSplitting => SplitPhase::Done { result: Advance::Idle },
                _ => SplitPhase::Done { result: Advance::Exposed { left, right } },
            },
            (SplitPhase::Correct { left, right }, SplitEvent::Pulled(moved)) => {
                if moved == 0 {
                    SplitPhase::Drain { left, right }
                } else {
                    SplitPhase::Done { result: Advance::Corrected { moved } }
                }
            },
            (SplitPhase::Drain { left, right }, SplitEvent::Drained(step)) => match step {
                DrainStep::Drained { moved, remaining } => {
                    if remaining == 0 {
                        SplitPhase::Complete { left, right, moved }
                    } else {
                        SplitPhase::Done { result: Advance::Drained { moved, remaining } }
                    }
                },
                DrainStep::SourceAdvanced => SplitPhase::Done {
                    result: Advance::Completed { left, right, parent: None },
                },
                DrainStep::NotDraining => SplitPhase::Done { result: Advance::Idle },
            },
            (
                SplitPhase::Complete { left, right, moved },
                SplitEvent::Finalized(completion),
            ) => match completion {
                SplitCompletion::Completed { parent } => SplitPhase::Done {
                    result: Advance::Completed { left, right, parent },
                },
                SplitCompletion::NotDraining => SplitPhase::Done {
                    result: Advance::Completed { left, right, parent: None },
                },
                SplitCompletion::NotDrained => SplitPhase::Done {
                    result: Advance::Drained { moved, remaining: 0 },
                },
            },
            _ => self,
        }
    }
}

/// A pass is bounded: every answered phase leaves fewer steps, and no pass
/// starts with more than three.
pub proof fn split_passes_are_bounded(
    authority: Option<Authority>,
    maximum: u32,
    phase: SplitPhase,
    event: SplitEvent,
)
    ensures
        first_phase(authority, maximum).rank() <= 3,
        phase.answered_by(event) ==> phase.next(event).rank() < phase.rank(),
        phase.rank() == 0 <==> phase is Done,
{
}

/// A pass completes a split only when its source is empty or gone.
pub proof fn only_empty_sources_complete(phase: SplitPhase, event: SplitEvent)
    requires
        phase.answered_by(event),
        phase.next(event) matches SplitPhase::Done { result } && result is Completed,
    ensures
        phase is Complete || event == SplitEvent::Drained(DrainStep::SourceAdvanced),
{
}

/// Reads a split source's state from its two authority values: `None` when a
/// completed split removed both, Corruption when only a Header is left.
pub fn read_source_state(
    header: Option<PartitionHeader>,
    state: Option<PartitionTransition>,
) -> (res: Result<Option<PartitionTransition>>)
    ensures
        match state {
            Some(found) => res == Ok::<Option<PartitionTransition>, Error>(Some(found)),
            None => if header is None {
                res == Ok::<Option<PartitionTransition>, Error>(None)
            } else {
                res == Err::<Option<PartitionTransition>, Error>(
                    plain_error(ErrorKind::Corruption),
                )
            },
        },
{
    match (header, state) {
        (_, Some(state)) => Ok(Some(state)),
        (Some(_), None) => Err(Error::new(ErrorKind::Corruption)),
        (None, None) => Ok(None),
    }
}

/// The next thing exposing does.
#[derive(Clone, Copy, Debug, PartialEq, Eq, Structural)]
pub enum ExposeStep {
    /// Train both centroids, then install the left target.
    Train {
        /// The left target.
        left: PartitionKey,
        /// The right target.
        right: PartitionKey,
    },
    /// Install a target, after a wait.
    Install {
        /// Whether it is the right one.
        right_target: bool,
        /// The target.
        target: PartitionKey,
        /// The nanoseconds to wait first.
        wait_nanos: u64,
    },
    /// Exposing is over.
    Done {
        /// Its outcome.
        outcome: TargetExposure,
    },
}

/// What exposing does first, by the source's state.
pub open spec fn first_exposure(state: Option<PartitionTransition>) -> ExposeStep {
    match state {
        Some(PartitionTransition::Splitting { left, right, .. }) => ExposeStep::Train {
            left,
            right,
        },
        Some(PartitionTransition::DrainingSplit { left, right, .. }) => ExposeStep::Done {
            outcome: TargetExposure::Exposed { left, right },
        },
        _ => ExposeStep::Done { outcome: TargetExposure::SourceAdvanced },
    }
}

/// Decides what exposing does first: a splitting source trains, a draining
/// one proves that both targets are exposed.
pub fn begin_exposure(state: Option<PartitionTransition>) -> (res: ExposeStep)
    ensures
        res == first_exposure(state),
{
    match state {
        Some(PartitionTransition::Splitting { left, right, .. }) => ExposeStep::Train {
            left,
            right,
        },
        Some(PartitionTransition::DrainingSplit { left, right, .. }) => ExposeStep::Done {
            outcome: TargetExposure::Exposed { left, right },
        },
        _ => ExposeStep::Done { outcome: TargetExposure::SourceAdvanced },
    }
}

/// The two target installations of one split, left first.
#[derive(Clone, Copy, Debug, PartialEq, Eq, Structural)]
pub struct Exposure {
    /// The left target.
    pub left: PartitionKey,
    /// The right target.
    pub right: PartitionKey,
    /// Whether the left target is installed.
    pub on_right: bool,
    /// The failed attempts of the current target.
    pub failed_attempts: u32,
}

impl Exposure {
    /// Starts with the left target.
    pub fn new(left: PartitionKey, right: PartitionKey) -> (res: Self)
        ensures
            res == (Exposure { left, right, on_right: false, failed_attempts: 0 }),
    {
        Exposure { left, right, on_right: false, failed_attempts: 0 }
    }

    /// The target being installed.
    pub open spec fn target(self) -> PartitionKey {
        if self.on_right {
            self.right
        } else {
            self.left
        }
    }

    /// Decides what follows one installation. A parent that accepts no new
    /// child is retried under the policy, which numbers its retries with
    /// `sequence`; each target has its own attempts.
    pub fn installed(&mut self, install: TargetInstall, retry: RetryPolicy, sequence: u64) -> (res:
        Result<ExposeStep>)
        ensures
            final(self).left == old(self).left,
            final(self).right == old(self).right,
            match install {
                TargetInstall::SourceAdvanced => {
                    &&& res == Ok::<ExposeStep, Error>(
                        ExposeStep::Done { outcome: TargetExposure::SourceAdvanced },
                    )
                    &&& *final(self) == *old(self)
                },
                TargetInstall::ParentNotAccepting => {
                    if retry.exhausted_after(old(self).failed_attempts) {
                        &&& res == Err::<ExposeStep, Error>(
                            plain_error(ErrorKind::ContentionExhausted),
                        )
                        &&& *final(self) == *old(self)
                    } else {
                        &&& res matches Ok(ExposeStep::Install { right_target, target, wait_nanos })
                            && right_target == old(self).on_right && target == old(self).target()
                            && wait_nanos == share(
                            xxh3_64_of(le_bytes(sequence as nat, 8)),
                            retry.interval(old(self).failed_attempts),
                        )
                        &&& final(self).on_right == old(self).on_right
                        &&& final(self).failed_attempts == old(self).failed_attempts + 1
                    }
                },
                _ => if old(self).on_right {
                    &&& res == Ok::<ExposeStep, Error>(
                        ExposeStep::Done {
                            outcome: TargetExposure::Exposed {
                                left: old(self).left,
                                right: old(self).right,
                            },
                        },
                    )
                    &&& *final(self) == *old(self)
                } else {
                    &&& res == Ok::<ExposeStep, Error>(
                        ExposeStep::Install {
                            right_target: true,
                            target: old(self).right,
                            wait_nanos: 0,
                        },
                    )
                    &&& final(self).on_right
                    &&& final(self).failed_attempts == 0
                },
            },
    {
        match install {
            TargetInstall::SourceAdvanced => Ok(
                ExposeStep::Done { outcome: TargetExposure::SourceAdvanced },
            ),
            TargetInstall::ParentNotAccepting => {
                let target = if self.on_right {
                    self.right
                } else {
                    self.left
                };
                let wait_nanos: u64 = retry.wait_or_exhaust(&mut self.failed_attempts, sequence)?;
                Ok(ExposeStep::Install { right_target: self.on_right, target, wait_nanos })
            },
            TargetInstall::Created | TargetInstall::AlreadyExists => {
                if self.on_right {
                    return Ok(
                        ExposeStep::Done {
                            outcome: TargetExposure::Exposed {
                                left: self.left,
                                right: self.right,
                            },
                        },
                    );
                }
                self.on_right = true;
                self.failed_attempts = 0;
                Ok(
                    ExposeStep::Install {
                        right_target: true,
                        target: self.right,
                        wait_nanos: 0,
                    },
                )
            },
        }
    }
}

/// Whether a source drains, and where to.
#[derive(Clone, Copy, Debug, PartialEq, Eq, Structural)]
pub enum DrainGate {
    /// The source drains into these targets.
    Draining {
        /// The source's Header.
        header: PartitionHeader,
        /// The left target.
        left: PartitionKey,
        /// The right target.
        right: PartitionKey,
    },
    /// The batch is over before it began.
    Over {
        /// Its outcome.
        step: DrainStep,
    },
}

/// Whether a source drains, by its authority values.
pub open spec fn drain_gate(authority: Option<Authority>) -> DrainGate {
    match authority {
        None => DrainGate::Over { step: DrainStep::SourceAdvanced },
        Some(found) => match found.transition {
            PartitionTransition::DrainingSplit { left, right, .. } => DrainGate::Draining {
                header: found.header,
                left,
                right,
            },
            PartitionTransition::Splitting { .. } => DrainGate::Over {
                step: DrainStep::NotDraining,
            },
            _ => DrainGate::Over { step: DrainStep::SourceAdvanced },
        },
    }
}

/// Classifies a drain source: a completed split left no authority values.
pub fn begin_drain(authority: Option<Authority>) -> (res: DrainGate)
    ensures
        res == drain_gate(authority),
{
    match authority {
        None => DrainGate::Over { step: DrainStep::SourceAdvanced },
        Some(found) => match found.transition {
            PartitionTransition::DrainingSplit { left, right, .. } => DrainGate::Draining {
                header: found.header,
                left,
                right,
            },
            PartitionTransition::Splitting { .. } => DrainGate::Over {
                step: DrainStep::NotDraining,
            },
            _ => DrainGate::Over { step: DrainStep::SourceAdvanced },
        },
    }
}

/// Revalidates a drain source inside the write transaction: its Header while
/// it still drains into the same targets, `None` when the split moved on. The
/// targets are fixed at the transition, so another pair is Corruption.
pub fn revalidate_drain(
    authority: Option<Authority>,
    left: PartitionKey,
    right: PartitionKey,
) -> (res: Result<Option<PartitionHeader>>)
    ensures
        match authority {
            None => res == Ok::<Option<PartitionHeader>, Error>(None),
            Some(found) => if found.transition.drains_into(left, right) {
                res == Ok::<Option<PartitionHeader>, Error>(Some(found.header))
            } else if found.transition is DrainingSplit {
                res == Err::<Option<PartitionHeader>, Error>(plain_error(ErrorKind::Corruption))
            } else {
                res == Ok::<Option<PartitionHeader>, Error>(None)
            },
        },
{
    match authority {
        None => Ok(None),
        Some(found) => {
            if found.transition.is_draining_split_of(left, right) {
                return Ok(Some(found.header));
            }
            match found.transition {
                PartitionTransition::DrainingSplit { .. } => Err(
                    Error::new(ErrorKind::Corruption),
                ),
                _ => Ok(None),
            }
        },
    }
}

/// Fixes the counts that one drain transaction routes against; a missing
/// target is Corruption.
pub fn drain_balance(
    source: PartitionHeader,
    left: Option<PartitionHeader>,
    right: Option<PartitionHeader>,
    minimum: u32,
) -> (res: Result<SplitBalance>)
    ensures
        match res {
            Ok(balance) => {
                &&& left is Some
                &&& right is Some
                &&& balance == (SplitBalance {
                    source_remaining: source.entry_count as u64,
                    left_needed: shortfall(minimum, left->0.entry_count),
                    right_needed: shortfall(minimum, right->0.entry_count),
                })
            },
            Err(error) => {
                &&& left is None || right is None
                &&& error == plain_error(ErrorKind::Corruption)
            },
        },
{
    match (left, right) {
        (Some(left), Some(right)) => Ok(
            SplitBalance::new(source.entry_count, left.entry_count, right.entry_count, minimum),
        ),
        _ => Err(Error::new(ErrorKind::Corruption)),
    }
}

/// Reports one committed batch; moving more than the source held is
/// Corruption.
pub fn finish_drain(source: PartitionHeader, moved: usize) -> (res: Result<DrainStep>)
    ensures
        match res {
            Ok(step) => moved <= source.entry_count && step == (DrainStep::Drained {
                moved,
                remaining: (source.entry_count - moved) as u32,
            }),
            Err(error) => moved > source.entry_count && error == plain_error(
                ErrorKind::Corruption,
            ),
        },
{
    let remaining: u32 = remaining_after(source.entry_count, moved)?;
    Ok(DrainStep::Drained { moved, remaining })
}

} // verus!
