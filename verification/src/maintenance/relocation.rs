//! Write attempts that move entries, as state machines.
//!
//! An attempt runs in one write transaction. It protects and revalidates, in
//! order, everything its plan rests on, and moves entries only while all of it
//! still holds. Whatever moved on since the plan was read ends the attempt
//! without a move.

use std::collections::BTreeMap;

use vstd::prelude::*;

use crate::api::error::{plain_error, Error, ErrorKind, Result};
use crate::api::identifiers::PartitionKey;
use crate::api::number::Distance;
use crate::maintenance::balance::{
    capacity_of, drain_targets, levels_agree, ready_target_capacity, routable_at, routed_at,
    shortfall, DrainDistances, DrainState, SplitBalance,
};
use crate::maintenance::corrective::{
    attempt_capacity, attempt_ends_once, attempt_fails, attempt_moves, attempt_stops, attemptable,
    child_move_limit, pull_moves, ready_donor, split_still_pulls, target_room, PullDistances,
    PullMove, TargetCapacity,
};
use crate::maintenance::merge;
use crate::maintenance::merge::{
    distinct_targets, entry_failure, first_failure, merge_targets, revalidate_merge,
    revalidate_targets, routes_to, strictly_ascending, targets_verdict,
};
use crate::maintenance::split;
use crate::maintenance::split::{drain_balance, revalidate_drain};
use crate::topology::{
    receiving_at, Authority, LevelCandidate, PartitionHeader, PartitionState, PartitionTransition,
};

verus! {

/// What a pull attempt was planned with.
#[derive(Clone, Copy)]
pub struct PullTerms {
    /// The split's left target.
    pub left: PartitionKey,
    /// The split's right target.
    pub right: PartitionKey,
    /// The most entries of a partition.
    pub maximum: u32,
    /// Whether the batch holds Leaf Entries.
    pub leaf: bool,
}

/// What a pull attempt needs next.
pub enum PullAttempt {
    /// The donor's protected authority.
    LockDonor,
    /// The split source's protected authority.
    LockSplit {
        /// The donor's Header.
        donor: PartitionHeader,
    },
    /// The targets' protected Headers.
    LockTargets {
        /// The donor's Header.
        donor: PartitionHeader,
    },
    /// The distances of the batch's protected entries.
    LockEntries {
        /// The targets' room.
        capacity: TargetCapacity,
        /// The most entries to move.
        limit: Option<usize>,
    },
    /// These moves.
    Relocate {
        /// The moves, in batch order.
        moves: Vec<PullMove>,
    },
    /// Nothing: the attempt is over.
    Done {
        /// The entries moved.
        moved: usize,
    },
}

/// What a pull attempt protected or did.
pub enum PullLocked {
    /// The donor.
    Donor(Option<Authority>),
    /// The split source.
    Split(Option<Authority>),
    /// The targets.
    Targets {
        /// The left target's Header.
        left: Option<PartitionHeader>,
        /// The right target's Header.
        right: Option<PartitionHeader>,
    },
    /// The entries; `None` for one that left the donor.
    Entries(Vec<Option<PullDistances>>),
    /// So many entries moved.
    Relocated(usize),
}

/// Whether `moves` are those of a pull over these entries.
pub open spec fn are_pull_moves(
    entries: Seq<Option<PullDistances>>,
    capacity: TargetCapacity,
    limit: Option<usize>,
    moves: Seq<PullMove>,
) -> bool {
    exists|n: int|
        {
            &&& #[trigger] attempt_stops(entries, capacity, limit, n)
            &&& forall|i: int| 0 <= i < n ==> #[trigger] attemptable(entries, capacity, i)
            &&& moves == attempt_moves(entries, capacity, n as nat)
        }
}

impl PullAttempt {
    /// Whether an event is the one the attempt waits for.
    pub open spec fn waits_for(self, event: PullLocked) -> bool {
        match (self, event) {
            (PullAttempt::LockDonor, PullLocked::Donor(_)) => true,
            (PullAttempt::LockSplit { .. }, PullLocked::Split(_)) => true,
            (PullAttempt::LockTargets { .. }, PullLocked::Targets { .. }) => true,
            (PullAttempt::LockEntries { .. }, PullLocked::Entries(_)) => true,
            (PullAttempt::Relocate { .. }, PullLocked::Relocated(_)) => true,
            _ => false,
        }
    }

    /// Whether an event shows a state that contradicts the stored protocol: a
    /// split at another level than its donor, or an unknown distance.
    pub open spec fn contradicts(self, event: PullLocked) -> bool {
        match (self, event) {
            (PullAttempt::LockSplit { donor }, PullLocked::Split(split)) => split is Some
                && split->0.header.level != donor.level,
            (PullAttempt::LockEntries { capacity, limit }, PullLocked::Entries(entries)) => exists|
                n: int,
            |
                #[trigger] attempt_fails(entries@, capacity, limit, n),
            _ => false,
        }
    }

    /// Whether an event leads to `after`. A donor that left `Ready`, a split
    /// that moved on, targets without room, or an internal donor that must
    /// keep its last entry end the attempt.
    pub open spec fn leads_to(self, terms: PullTerms, event: PullLocked, after: Self) -> bool {
        match (self, event) {
            (PullAttempt::LockDonor, PullLocked::Donor(donor)) => after == match donor {
                Some(found) => if found.transition is Ready {
                    PullAttempt::LockSplit { donor: found.header }
                } else {
                    PullAttempt::Done { moved: 0 }
                },
                None => PullAttempt::Done { moved: 0 },
            },
            (PullAttempt::LockSplit { donor }, PullLocked::Split(split)) => after == match split {
                Some(found) => if found.transition.drains_into(terms.left, terms.right) {
                    PullAttempt::LockTargets { donor }
                } else {
                    PullAttempt::Done { moved: 0 }
                },
                None => PullAttempt::Done { moved: 0 },
            },
            (PullAttempt::LockTargets { donor }, PullLocked::Targets { left, right }) => {
                let capacity = target_room(
                    terms.maximum,
                    terms.left,
                    left->0,
                    terms.right,
                    right->0,
                );
                after == if !receiving_at(left, donor.level) || !receiving_at(right, donor.level)
                    || capacity.full() || (!terms.leaf && donor.entry_count <= 1) {
                    PullAttempt::Done { moved: 0 }
                } else {
                    let limit = if terms.leaf {
                        None
                    } else {
                        Some((donor.entry_count - 1) as usize)
                    };
                    PullAttempt::LockEntries { capacity, limit }
                }
            },
            (PullAttempt::LockEntries { capacity, limit }, PullLocked::Entries(entries)) => {
                &&& after matches PullAttempt::Relocate { moves }
                &&& are_pull_moves(entries@, capacity, limit, moves@)
            },
            (PullAttempt::Relocate { .. }, PullLocked::Relocated(moved)) => after
                == PullAttempt::Done { moved },
            _ => false,
        }
    }

    /// The most events the attempt still waits for.
    pub open spec fn events_left(self) -> int {
        match self {
            PullAttempt::LockDonor => 5,
            PullAttempt::LockSplit { .. } => 4,
            PullAttempt::LockTargets { .. } => 3,
            PullAttempt::LockEntries { .. } => 2,
            PullAttempt::Relocate { .. } => 1,
            PullAttempt::Done { .. } => 0,
        }
    }

    /// Goes on with what was protected or done. A state that contradicts the
    /// stored protocol is Corruption.
    pub fn advance(self, terms: PullTerms, event: PullLocked) -> (res: Result<Self>)
        requires
            self.waits_for(event),
        ensures
            match res {
                Ok(after) => !self.contradicts(event) && self.leads_to(terms, event, after),
                Err(error) => self.contradicts(event) && error == plain_error(
                    ErrorKind::Corruption,
                ),
            },
    {
        match (self, event) {
            (PullAttempt::LockDonor, PullLocked::Donor(donor)) => {
                match ready_donor(donor) {
                    Some(donor) => Ok(PullAttempt::LockSplit { donor }),
                    None => Ok(PullAttempt::Done { moved: 0 }),
                }
            },
            (PullAttempt::LockSplit { donor }, PullLocked::Split(split)) => {
                if split_still_pulls(donor, split, terms.left, terms.right)? {
                    Ok(PullAttempt::LockTargets { donor })
                } else {
                    Ok(PullAttempt::Done { moved: 0 })
                }
            },
            (PullAttempt::LockTargets { donor }, PullLocked::Targets { left, right }) => {
                let room = attempt_capacity(
                    donor.level,
                    terms.maximum,
                    terms.left,
                    left,
                    terms.right,
                    right,
                );
                let capacity = match room {
                    Some(capacity) => capacity,
                    None => {
                        return Ok(PullAttempt::Done { moved: 0 });
                    },
                };
                if terms.leaf {
                    return Ok(PullAttempt::LockEntries { capacity, limit: None });
                }
                match child_move_limit(donor) {
                    Some(limit) => Ok(PullAttempt::LockEntries { capacity, limit: Some(limit) }),
                    None => Ok(PullAttempt::Done { moved: 0 }),
                }
            },
            (PullAttempt::LockEntries { capacity, limit }, PullLocked::Entries(entries)) => {
                let moves = pull_moves(&entries, &capacity, limit)?;
                proof {
                    assert(are_pull_moves(entries@, capacity, limit, moves@));
                    let n = choose|n: int|
                        {
                            &&& #[trigger] attempt_stops(entries@, capacity, limit, n)
                            &&& forall|i: int|
                                0 <= i < n ==> #[trigger] attemptable(entries@, capacity, i)
                            &&& moves@ == attempt_moves(entries@, capacity, n as nat)
                        };
                    assert forall|m: int|
                        !(#[trigger] attempt_fails(entries@, capacity, limit, m)) by {
                        attempt_ends_once(entries@, capacity, limit, n, m);
                    }
                }
                Ok(PullAttempt::Relocate { moves })
            },
            (PullAttempt::Relocate { .. }, PullLocked::Relocated(moved)) => Ok(
                PullAttempt::Done { moved },
            ),
            _ => {
                assert(false);
                Err(Error::new(ErrorKind::Backend))
            },
        }
    }
}

/// A pull attempt ends after at most five events, and entries move only behind
/// a `Ready` donor, a split that still drains, and targets that still receive.
pub proof fn pull_attempts_end(
    attempt: PullAttempt,
    terms: PullTerms,
    event: PullLocked,
    after: PullAttempt,
)
    requires
        attempt.leads_to(terms, event, after),
    ensures
        after.events_left() < attempt.events_left(),
        after is LockSplit ==> (event matches PullLocked::Donor(donor) && donor is Some
            && donor->0.transition is Ready),
        after is LockTargets ==> (event matches PullLocked::Split(split) && split is Some
            && split->0.transition.drains_into(terms.left, terms.right)),
        after is LockEntries ==> attempt is LockTargets,
        after is Relocate ==> attempt is LockEntries,
        after matches PullAttempt::Done { moved } ==> moved == 0 || attempt is Relocate,
{
}

/// What a split drain attempt was planned with.
pub struct SplitTerms {
    /// The left target.
    pub left: PartitionKey,
    /// The right target.
    pub right: PartitionKey,
    /// The fewest entries of a partition.
    pub minimum: u32,
    /// The most entries of a partition.
    pub maximum: u32,
    /// The `Ready` partitions found.
    pub candidates: Vec<PartitionKey>,
}

/// What a split drain attempt needs next.
pub enum SplitAttempt {
    /// The source's protected authority.
    LockSource,
    /// The targets' protected Headers.
    LockTargets {
        /// The source's Header.
        source: PartitionHeader,
    },
    /// The candidates' protected Headers.
    LockCandidates {
        /// The source's Header.
        source: PartitionHeader,
        /// The counts to route against.
        balance: SplitBalance,
    },
    /// The distances of the batch's protected entries.
    LockEntries {
        /// The source's Header.
        source: PartitionHeader,
        /// The counts to route against.
        balance: SplitBalance,
        /// The room of each candidate.
        ready: BTreeMap<u64, u32>,
    },
    /// These moves.
    Relocate {
        /// The source's Header.
        source: PartitionHeader,
        /// The target of each entry.
        targets: Vec<PartitionKey>,
    },
    /// Nothing: the attempt is over.
    Done {
        /// What it did.
        step: split::DrainStep,
    },
}

/// What a split drain attempt protected or did.
pub enum SplitLocked {
    /// The source.
    Source(Option<Authority>),
    /// The targets.
    Targets {
        /// The left target's Header.
        left: Option<PartitionHeader>,
        /// The right target's Header.
        right: Option<PartitionHeader>,
    },
    /// The candidates' Headers.
    Candidates(Vec<Option<PartitionHeader>>),
    /// The entries still there.
    Entries(Vec<DrainDistances>),
    /// So many entries moved.
    Relocated(usize),
}

impl SplitAttempt {
    /// Whether an event is the one the attempt waits for: one Header for each
    /// candidate, and one distance to each of them for each entry.
    pub open spec fn waits_for(self, terms: SplitTerms, event: SplitLocked) -> bool {
        match (self, event) {
            (SplitAttempt::LockSource, SplitLocked::Source(_)) => true,
            (SplitAttempt::LockTargets { .. }, SplitLocked::Targets { .. }) => true,
            (
                SplitAttempt::LockCandidates { .. },
                SplitLocked::Candidates(headers),
            ) => headers@.len() == terms.candidates@.len(),
            (SplitAttempt::LockEntries { .. }, SplitLocked::Entries(entries)) => forall|i: int|
                0 <= i < entries@.len() ==> (#[trigger] entries@[i]).ready@.len()
                    == terms.candidates@.len(),
            (SplitAttempt::Relocate { .. }, SplitLocked::Relocated(_)) => true,
            _ => false,
        }
    }

    /// Whether an event shows a state that contradicts the stored protocol:
    /// other targets, a missing target, a candidate at another level, an
    /// unknown distance, or more entries moved than the source held.
    pub open spec fn contradicts(self, terms: SplitTerms, event: SplitLocked) -> bool {
        match (self, event) {
            (SplitAttempt::LockSource, SplitLocked::Source(source)) => {
                &&& source is Some
                &&& source->0.transition is DrainingSplit
                &&& !source->0.transition.drains_into(terms.left, terms.right)
            },
            (SplitAttempt::LockTargets { .. }, SplitLocked::Targets { left, right }) => left is None
                || right is None,
            (
                SplitAttempt::LockCandidates { source, .. },
                SplitLocked::Candidates(headers),
            ) => !levels_agree(source.level, headers@),
            (
                SplitAttempt::LockEntries { balance, ready, .. },
                SplitLocked::Entries(entries),
            ) => exists|i: int|
                0 <= i < entries@.len() && !#[trigger] routable_at(
                    DrainState { balance, ready: ready@ },
                    terms.left,
                    terms.right,
                    entries@,
                    terms.candidates@,
                    i,
                ),
            (SplitAttempt::Relocate { source, .. }, SplitLocked::Relocated(moved)) => moved
                > source.entry_count,
            _ => false,
        }
    }

    /// Whether an event leads to `after`. A source that no longer drains ends
    /// the attempt.
    pub open spec fn leads_to(self, terms: SplitTerms, event: SplitLocked, after: Self) -> bool {
        match (self, event) {
            (SplitAttempt::LockSource, SplitLocked::Source(source)) => after == if source is Some
                && source->0.transition is DrainingSplit {
                SplitAttempt::LockTargets { source: source->0.header }
            } else {
                SplitAttempt::Done { step: split::DrainStep::SourceAdvanced }
            },
            (SplitAttempt::LockTargets { source }, SplitLocked::Targets { left, right }) => after
                == (SplitAttempt::LockCandidates {
                source,
                balance: SplitBalance {
                    source_remaining: source.entry_count as u64,
                    left_needed: shortfall(terms.minimum, left->0.entry_count),
                    right_needed: shortfall(terms.minimum, right->0.entry_count),
                },
            }),
            (
                SplitAttempt::LockCandidates { source, balance },
                SplitLocked::Candidates(headers),
            ) => {
                &&& after matches SplitAttempt::LockEntries { source: s, balance: b, ready }
                &&& s == source
                &&& b == balance
                &&& ready@ == capacity_of(
                    terms.maximum,
                    terms.candidates@,
                    headers@,
                    headers@.len(),
                )
            },
            (
                SplitAttempt::LockEntries { source, balance, ready },
                SplitLocked::Entries(entries),
            ) => {
                &&& after matches SplitAttempt::Relocate { source: s, targets }
                &&& s == source
                &&& targets@.len() == entries@.len()
                &&& forall|i: int|
                    0 <= i < entries@.len() ==> routed_at(
                        DrainState { balance, ready: ready@ },
                        terms.left,
                        terms.right,
                        entries@,
                        terms.candidates@,
                        #[trigger] targets@[i],
                        i,
                    )
            },
            (SplitAttempt::Relocate { source, .. }, SplitLocked::Relocated(moved)) => after
                == (SplitAttempt::Done {
                step: split::DrainStep::Drained {
                    moved,
                    remaining: (source.entry_count - moved) as u32,
                },
            }),
            _ => false,
        }
    }

    /// The most events the attempt still waits for.
    pub open spec fn events_left(self) -> int {
        match self {
            SplitAttempt::LockSource => 5,
            SplitAttempt::LockTargets { .. } => 4,
            SplitAttempt::LockCandidates { .. } => 3,
            SplitAttempt::LockEntries { .. } => 2,
            SplitAttempt::Relocate { .. } => 1,
            SplitAttempt::Done { .. } => 0,
        }
    }

    /// Goes on with what was protected or done. A state that contradicts the
    /// stored protocol is Corruption.
    pub fn advance(self, terms: &SplitTerms, event: SplitLocked) -> (res: Result<Self>)
        requires
            self.waits_for(*terms, event),
        ensures
            match res {
                Ok(after) => !self.contradicts(*terms, event) && self.leads_to(
                    *terms,
                    event,
                    after,
                ),
                Err(error) => self.contradicts(*terms, event) && error == plain_error(
                    ErrorKind::Corruption,
                ),
            },
    {
        match (self, event) {
            (SplitAttempt::LockSource, SplitLocked::Source(source)) => {
                match revalidate_drain(source, terms.left, terms.right)? {
                    Some(source) => Ok(SplitAttempt::LockTargets { source }),
                    None => Ok(SplitAttempt::Done { step: split::DrainStep::SourceAdvanced }),
                }
            },
            (SplitAttempt::LockTargets { source }, SplitLocked::Targets { left, right }) => {
                let balance = drain_balance(source, left, right, terms.minimum)?;
                Ok(SplitAttempt::LockCandidates { source, balance })
            },
            (
                SplitAttempt::LockCandidates { source, balance },
                SplitLocked::Candidates(headers),
            ) => {
                let ready = ready_target_capacity(
                    source.level,
                    terms.maximum,
                    &terms.candidates,
                    &headers,
                )?;
                Ok(SplitAttempt::LockEntries { source, balance, ready })
            },
            (
                SplitAttempt::LockEntries { source, balance, ready },
                SplitLocked::Entries(entries),
            ) => {
                let mut balance = balance;
                let mut ready = ready;
                let ghost before = DrainState { balance, ready: ready@ };
                let targets = drain_targets(
                    terms.left,
                    terms.right,
                    &entries,
                    &terms.candidates,
                    &mut ready,
                    &mut balance,
                )?;
                proof {
                    assert forall|i: int| 0 <= i < entries@.len() implies #[trigger] routable_at(
                        before,
                        terms.left,
                        terms.right,
                        entries@,
                        terms.candidates@,
                        i,
                    ) by {
                        assert(routed_at(
                            before,
                            terms.left,
                            terms.right,
                            entries@,
                            terms.candidates@,
                            targets@[i],
                            i,
                        ));
                    }
                }
                Ok(SplitAttempt::Relocate { source, targets })
            },
            (SplitAttempt::Relocate { source, .. }, SplitLocked::Relocated(moved)) => {
                let step = split::finish_drain(source, moved)?;
                Ok(SplitAttempt::Done { step })
            },
            _ => {
                assert(false);
                Err(Error::new(ErrorKind::Backend))
            },
        }
    }
}

/// A split drain attempt ends after at most five events, and entries move only
/// while the source drains into the planned targets.
pub proof fn split_attempts_end(
    attempt: SplitAttempt,
    terms: SplitTerms,
    event: SplitLocked,
    after: SplitAttempt,
)
    requires
        attempt.leads_to(terms, event, after),
        !attempt.contradicts(terms, event),
    ensures
        after.events_left() < attempt.events_left(),
        after is LockTargets ==> (event matches SplitLocked::Source(source) && source is Some
            && source->0.transition.drains_into(terms.left, terms.right)),
        after is LockCandidates ==> attempt is LockTargets,
        after is LockEntries ==> attempt is LockCandidates,
        after is Relocate ==> attempt is LockEntries,
        after matches SplitAttempt::Done { step } ==> step is SourceAdvanced || attempt is Relocate,
{
}

/// What a merge drain attempt was planned with.
pub struct MergeTerms {
    /// The merging source.
    pub source: PartitionKey,
    /// The partitions of its level.
    pub candidates: Vec<LevelCandidate>,
}

/// What a merge drain attempt needs next.
pub enum MergeAttempt {
    /// The source's protected authority values.
    LockSource,
    /// The distances of the batch's protected entries.
    LockEntries {
        /// The source's Header.
        header: PartitionHeader,
    },
    /// The chosen targets' protected Headers.
    LockTargets {
        /// The source's Header.
        header: PartitionHeader,
        /// The target of each entry.
        targets: Vec<PartitionKey>,
        /// The distinct targets in ascending order.
        distinct: Vec<PartitionKey>,
    },
    /// These moves.
    Relocate {
        /// The source's Header.
        header: PartitionHeader,
        /// The target of each entry.
        targets: Vec<PartitionKey>,
    },
    /// Another plan: a chosen target is no longer `Ready`.
    Reselect,
    /// Nothing: the attempt is over.
    Done {
        /// What it did.
        step: merge::DrainStep,
    },
}

/// What a merge drain attempt protected or did.
pub enum MergeLocked {
    /// The source's authority values.
    Source {
        /// The Header.
        header: Option<PartitionHeader>,
        /// The State.
        transition: Option<PartitionTransition>,
    },
    /// The entries still there; `None` for an unusable vector.
    Entries(Vec<Option<Vec<Option<Distance>>>>),
    /// The targets' Headers.
    Targets(Vec<Option<PartitionHeader>>),
    /// So many entries moved.
    Relocated(usize),
}

impl MergeAttempt {
    /// Whether an event is the one the attempt waits for: one distance to each
    /// candidate for each entry, and one Header for each distinct target.
    pub open spec fn waits_for(self, terms: MergeTerms, event: MergeLocked) -> bool {
        match (self, event) {
            (MergeAttempt::LockSource, MergeLocked::Source { .. }) => true,
            (MergeAttempt::LockEntries { .. }, MergeLocked::Entries(entries)) => forall|i: int|
                0 <= i < entries@.len() ==> ((#[trigger] entries@[i]) matches Some(distances)
                    ==> distances@.len() == terms.candidates@.len()),
            (
                MergeAttempt::LockTargets { distinct, .. },
                MergeLocked::Targets(headers),
            ) => headers@.len() == distinct@.len(),
            (MergeAttempt::Relocate { .. }, MergeLocked::Relocated(_)) => true,
            _ => false,
        }
    }

    /// Whether an event fails the attempt with a kind of error: a torn source
    /// or one that stopped merging, an entry without a target, a target at
    /// another level, or more entries moved than the source held.
    pub open spec fn fails_with(
        self,
        terms: MergeTerms,
        event: MergeLocked,
        kind: ErrorKind,
    ) -> bool {
        match (self, event) {
            (MergeAttempt::LockSource, MergeLocked::Source { header, transition }) => {
                &&& kind == ErrorKind::Corruption
                &&& header is Some || transition is Some
                &&& !(header is Some && header->0.state == PartitionState::Merging
                    && transition is Some && transition->0 is Merging)
            },
            (MergeAttempt::LockEntries { .. }, MergeLocked::Entries(entries)) => exists|i: int|
                #[trigger] first_failure(terms.source, terms.candidates@, entries@, i) && kind
                    == entry_failure(terms.source, terms.candidates@, entries@[i])->0,
            (MergeAttempt::LockTargets { header, .. }, MergeLocked::Targets(headers)) => kind
                == ErrorKind::Corruption && targets_verdict(headers@, header.level, 0) is None,
            (MergeAttempt::Relocate { header, .. }, MergeLocked::Relocated(moved)) => kind
                == ErrorKind::Corruption && moved > header.entry_count,
            _ => false,
        }
    }

    /// Whether an event leads to `after`. A source that is gone ends the
    /// attempt, and a target that left `Ready` calls for another plan.
    pub open spec fn leads_to(self, terms: MergeTerms, event: MergeLocked, after: Self) -> bool {
        match (self, event) {
            (MergeAttempt::LockSource, MergeLocked::Source { header, .. }) => after == match header {
                Some(header) => MergeAttempt::LockEntries { header },
                None => MergeAttempt::Done { step: merge::DrainStep::SourceAdvanced },
            },
            (MergeAttempt::LockEntries { header }, MergeLocked::Entries(entries)) => {
                &&& after matches MergeAttempt::LockTargets { header: h, targets, distinct }
                &&& h == header
                &&& targets@.len() == entries@.len()
                &&& forall|i: int|
                    0 <= i < entries@.len() ==> routes_to(
                        terms.source,
                        terms.candidates@,
                        entries@[i],
                        #[trigger] targets@[i],
                    )
                &&& strictly_ascending(distinct@)
                &&& forall|key: PartitionKey| #[trigger]
                    distinct@.contains(key) <==> targets@.contains(key)
            },
            (
                MergeAttempt::LockTargets { header, targets, .. },
                MergeLocked::Targets(headers),
            ) => after == if targets_verdict(headers@, header.level, 0) == Some(true) {
                MergeAttempt::Relocate { header, targets }
            } else {
                MergeAttempt::Reselect
            },
            (MergeAttempt::Relocate { header, .. }, MergeLocked::Relocated(moved)) => after
                == (MergeAttempt::Done {
                step: merge::DrainStep::Drained {
                    moved,
                    remaining: (header.entry_count - moved) as u32,
                },
            }),
            _ => false,
        }
    }

    /// The most events the attempt still waits for.
    pub open spec fn events_left(self) -> int {
        match self {
            MergeAttempt::LockSource => 4,
            MergeAttempt::LockEntries { .. } => 3,
            MergeAttempt::LockTargets { .. } => 2,
            MergeAttempt::Relocate { .. } => 1,
            MergeAttempt::Reselect | MergeAttempt::Done { .. } => 0,
        }
    }

    /// Goes on with what was protected or done.
    pub fn advance(self, terms: &MergeTerms, event: MergeLocked) -> (res: Result<Self>)
        requires
            self.waits_for(*terms, event),
        ensures
            match res {
                Ok(after) => {
                    &&& self.leads_to(*terms, event, after)
                    &&& forall|kind: ErrorKind| !#[trigger] self.fails_with(*terms, event, kind)
                },
                Err(error) => exists|kind: ErrorKind| #[trigger]
                    self.fails_with(*terms, event, kind) && error == plain_error(kind),
            },
    {
        let ghost before = self;
        match (self, event) {
            (MergeAttempt::LockSource, MergeLocked::Source { header, transition }) => {
                match revalidate_merge(header, transition) {
                    Ok(Some(header)) => Ok(MergeAttempt::LockEntries { header }),
                    Ok(None) => Ok(MergeAttempt::Done { step: merge::DrainStep::SourceAdvanced }),
                    Err(error) => {
                        assert(before.fails_with(*terms, event, ErrorKind::Corruption));
                        Err(error)
                    },
                }
            },
            (MergeAttempt::LockEntries { header }, MergeLocked::Entries(entries)) => {
                match merge_targets(terms.source, &terms.candidates, &entries) {
                    Ok(targets) => {
                        let distinct = distinct_targets(&targets);
                        proof {
                            assert forall|i: int|
                                !(#[trigger] first_failure(
                                    terms.source,
                                    terms.candidates@,
                                    entries@,
                                    i,
                                )) by {
                                if 0 <= i < entries@.len() {
                                    assert(routes_to(
                                        terms.source,
                                        terms.candidates@,
                                        entries@[i],
                                        targets@[i],
                                    ));
                                }
                            }
                        }
                        Ok(MergeAttempt::LockTargets { header, targets, distinct })
                    },
                    Err(error) => {
                        proof {
                            let at = choose|i: int|
                                #[trigger] first_failure(
                                    terms.source,
                                    terms.candidates@,
                                    entries@,
                                    i,
                                ) && error == plain_error(
                                    entry_failure(terms.source, terms.candidates@, entries@[i])->0,
                                );
                            let kind = entry_failure(
                                terms.source,
                                terms.candidates@,
                                entries@[at],
                            )->0;
                            assert(before.fails_with(*terms, event, kind));
                        }
                        Err(error)
                    },
                }
            },
            (
                MergeAttempt::LockTargets { header, targets, distinct: _ },
                MergeLocked::Targets(headers),
            ) => {
                match revalidate_targets(header.level, &headers) {
                    Ok(true) => Ok(MergeAttempt::Relocate { header, targets }),
                    Ok(false) => Ok(MergeAttempt::Reselect),
                    Err(error) => {
                        assert(before.fails_with(*terms, event, ErrorKind::Corruption));
                        Err(error)
                    },
                }
            },
            (MergeAttempt::Relocate { header, .. }, MergeLocked::Relocated(moved)) => {
                match merge::finish_drain(header, moved) {
                    Ok(step) => Ok(MergeAttempt::Done { step }),
                    Err(error) => {
                        assert(before.fails_with(*terms, event, ErrorKind::Corruption));
                        Err(error)
                    },
                }
            },
            _ => {
                assert(false);
                Err(Error::new(ErrorKind::Backend))
            },
        }
    }
}

/// A merge drain attempt ends after at most four events, and entries move only
/// behind targets that are all still `Ready`.
pub proof fn merge_attempts_end(
    attempt: MergeAttempt,
    terms: MergeTerms,
    event: MergeLocked,
    after: MergeAttempt,
)
    requires
        attempt.waits_for(terms, event),
        attempt.leads_to(terms, event, after),
    ensures
        after.events_left() < attempt.events_left(),
        after is LockTargets ==> attempt is LockEntries,
        after is Relocate ==> {
            &&& attempt matches MergeAttempt::LockTargets { header, distinct, .. }
            &&& event matches MergeLocked::Targets(headers)
            &&& forall|i: int|
                0 <= i < distinct@.len() ==> {
                    &&& (#[trigger] headers@[i]) is Some
                    &&& headers@[i]->0.level == header.level
                    &&& headers@[i]->0.state == PartitionState::Ready
                }
        },
        after matches MergeAttempt::Done { step } ==> step is SourceAdvanced || attempt is Relocate,
{
    if let MergeLocked::Targets(headers) = event {
        if let MergeAttempt::LockTargets { header, .. } = attempt {
            if after is Relocate {
                assert forall|i: int| 0 <= i < headers@.len() implies {
                    &&& (#[trigger] headers@[i]) is Some
                    &&& headers@[i]->0.level == header.level
                    &&& headers@[i]->0.state == PartitionState::Ready
                } by {
                    merge::merges_move_only_into_ready_targets(headers@, header.level, 0, i);
                }
            }
        }
    }
}

} // verus!
