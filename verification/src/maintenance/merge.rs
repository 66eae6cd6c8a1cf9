//! The bounded reselect-then-drain merge driver.
//!
//! A merge runs from `Ready` through `Merging` to completed. It stores no
//! target: each bounded batch reselects the nearest current `Ready` partition
//! of the level for every entry, and a target that left `Ready` meanwhile
//! discards the route.

use vstd::prelude::*;

use crate::api::error::{plain_error, Error, ErrorKind, Result};
use crate::api::identifiers::{partition_key_of_view, PartitionKey};
use crate::api::number::Distance;
use crate::maintenance::drain::remaining_after;
use crate::maintenance::ranking::{nearest_legal, nearest_ready_candidate};
use crate::topology::{
    Authority, LevelCandidate, PartitionHeader, PartitionState, PartitionTransition,
};

verus! {

broadcast use partition_key_of_view;

/// The outcome of one bounded drain batch.
#[derive(Clone, Copy, Debug, PartialEq, Eq, Structural)]
#[non_exhaustive]
pub enum DrainStep {
    /// The batch committed.
    Drained {
        /// The number of entries this batch moved.
        moved: usize,
        /// The source's exact entry count after the batch.
        remaining: u32,
    },
    /// The source is gone: the merge completed.
    SourceAdvanced,
    /// The source is not merging.
    NotMerging,
    /// No legal target exists now; the source stays searchable.
    NoReadyTarget,
}

/// What one rediscovery pass did.
#[derive(Clone, Copy, Debug, PartialEq, Eq, Structural)]
#[non_exhaustive]
pub enum Advance {
    /// Nothing to do.
    Idle,
    /// The partition began a merge.
    Began,
    /// One drain batch committed.
    Drained {
        /// The number of entries this batch moved.
        moved: usize,
        /// The source's exact entry count after the batch.
        remaining: u32,
    },
    /// The partition is merging but has no legal target.
    Stalled,
    /// The merge completed.
    Completed,
}

/// What committing the begin transition found.
#[derive(Clone, Copy, Debug, PartialEq, Eq, Structural)]
pub enum MergeStart {
    /// The merge began.
    Started,
    /// Another worker had begun it.
    AlreadyMerging,
    /// The partition may not merge now.
    NotEligible,
    /// No legal target exists.
    NoReadyTarget,
}

/// What committing the completion found.
#[derive(Clone, Copy, Debug, PartialEq, Eq, Structural)]
pub enum MergeCompletion {
    /// The merge completed.
    Completed,
    /// Another worker had completed it.
    NotMerging,
    /// Entries arrived meanwhile.
    NotDrained,
}

/// The next thing a merge pass does.
#[derive(Clone, Copy, Debug, PartialEq, Eq, Structural)]
pub enum MergePhase {
    /// Commit the begin transition.
    Begin,
    /// Drain one bounded batch.
    Drain,
    /// Commit the completion of an empty source.
    Complete {
        /// The number of entries the last batch moved.
        moved: usize,
    },
    /// The pass is over.
    Done {
        /// What it did.
        result: Advance,
    },
}

/// What happened in a phase.
#[derive(Clone, Copy, Debug, PartialEq, Eq, Structural)]
pub enum MergeEvent {
    /// The begin transition was committed.
    Begun(MergeStart),
    /// One batch was drained.
    Drained(DrainStep),
    /// The completion was committed.
    Finalized(MergeCompletion),
}

/// The first phase of a pass over one partition: `minimum` is the index's
/// partition entry bound.
pub open spec fn first_phase(
    partition: PartitionKey,
    authority: Option<Authority>,
    minimum: u32,
) -> MergePhase {
    match authority {
        None => MergePhase::Done { result: Advance::Idle },
        Some(found) => match found.transition {
            PartitionTransition::Ready { .. } => if partition@ == 1 || found.header.entry_count
                >= minimum {
                MergePhase::Done { result: Advance::Idle }
            } else {
                MergePhase::Begin
            },
            PartitionTransition::Merging { .. } => MergePhase::Drain,
            _ => MergePhase::Done { result: Advance::Idle },
        },
    }
}

impl MergePhase {
    /// Whether an event answers this phase.
    pub open spec fn answered_by(self, event: MergeEvent) -> bool {
        match self {
            MergePhase::Begin => event is Begun,
            MergePhase::Drain => event is Drained,
            MergePhase::Complete { .. } => event is Finalized,
            MergePhase::Done { .. } => false,
        }
    }

    /// The phase behind this one, after an event that answers it.
    pub open spec fn next(self, event: MergeEvent) -> MergePhase {
        match (self, event) {
            (MergePhase::Begin, MergeEvent::Begun(start)) => match start {
                MergeStart::Started => MergePhase::Done { result: Advance::Began },
                MergeStart::AlreadyMerging => MergePhase::Done { result: Advance::Began },
                _ => MergePhase::Done { result: Advance::Idle },
            },
            (MergePhase::Drain, MergeEvent::Drained(step)) => match step {
                DrainStep::Drained { moved, remaining } => if remaining == 0 {
                    MergePhase::Complete { moved }
                } else {
                    MergePhase::Done { result: Advance::Drained { moved, remaining } }
                },
                DrainStep::SourceAdvanced => MergePhase::Done { result: Advance::Completed },
                DrainStep::NotMerging => MergePhase::Done { result: Advance::Idle },
                DrainStep::NoReadyTarget => MergePhase::Done { result: Advance::Stalled },
            },
            (MergePhase::Complete { moved }, MergeEvent::Finalized(completion)) => match completion {
                MergeCompletion::NotDrained => MergePhase::Done {
                    result: Advance::Drained { moved, remaining: 0 },
                },
                _ => MergePhase::Done { result: Advance::Completed },
            },
            _ => self,
        }
    }

    /// The most steps left before the pass is over.
    pub open spec fn rank(self) -> nat {
        match self {
            MergePhase::Begin => 1,
            MergePhase::Drain => 2,
            MergePhase::Complete { .. } => 1,
            MergePhase::Done { .. } => 0,
        }
    }

    /// Chooses the first phase of a pass from the partition's authority
    /// values. Roots never merge, and a partition without authority values has
    /// nothing to advance.
    pub fn start(partition: PartitionKey, authority: Option<Authority>, minimum: u32) -> (res: Self)
        ensures
            res == first_phase(partition, authority, minimum),
    {
        match authority {
            None => MergePhase::Done { result: Advance::Idle },
            Some(found) => match found.transition {
                PartitionTransition::Ready { .. } => {
                    if partition.get() == 1 || found.header.entry_count >= minimum {
                        MergePhase::Done { result: Advance::Idle }
                    } else {
                        MergePhase::Begin
                    }
                },
                PartitionTransition::Merging { .. } => MergePhase::Drain,
                _ => MergePhase::Done { result: Advance::Idle },
            },
        }
    }

    /// Moves on to the phase behind this one.
    pub fn advance(self, event: MergeEvent) -> (res: Self)
        ensures
            res == self.next(event),
    {
        match (self, event) {
            (MergePhase::Begin, MergeEvent::Begun(start)) => match start {
                MergeStart::Started => MergePhase::Done { result: Advance::Began },
                MergeStart::AlreadyMerging => MergePhase::Done { result: Advance::Began },
                MergeStart::NotEligible => MergePhase::Done { result: Advance::Idle },
                MergeStart::NoReadyTarget => MergePhase::Done { result: Advance::Idle },
            },
            (MergePhase::Drain, MergeEvent::Drained(step)) => match step {
                DrainStep::Drained { moved, remaining } => {
                    if remaining == 0 {
                        MergePhase::Complete { moved }
                    } else {
                        MergePhase::Done { result: Advance::Drained { moved, remaining } }
                    }
                },
                DrainStep::SourceAdvanced => MergePhase::Done { result: Advance::Completed },
                DrainStep::NotMerging => MergePhase::Done { result: Advance::Idle },
                DrainStep::NoReadyTarget => MergePhase::Done { result: Advance::Stalled },
            },
            (MergePhase::Complete { moved }, MergeEvent::Finalized(completion)) => match completion {
                MergeCompletion::Completed => MergePhase::Done { result: Advance::Completed },
                MergeCompletion::NotMerging => MergePhase::Done { result: Advance::Completed },
                MergeCompletion::NotDrained => MergePhase::Done {
                    result: Advance::Drained { moved, remaining: 0 },
                },
            },
            _ => self,
        }
    }
}

/// A pass is bounded: every answered phase leaves fewer steps, and no pass
/// starts with more than two.
pub proof fn merge_passes_are_bounded(
    partition: PartitionKey,
    authority: Option<Authority>,
    minimum: u32,
    phase: MergePhase,
    event: MergeEvent,
)
    ensures
        first_phase(partition, authority, minimum).rank() <= 2,
        phase.answered_by(event) ==> phase.next(event).rank() < phase.rank(),
        phase.rank() == 0 <==> phase is Done,
{
}

/// A pass completes a merge only when its source is empty or gone.
pub proof fn only_empty_sources_complete(phase: MergePhase, event: MergeEvent)
    requires
        phase.answered_by(event),
        phase.next(event) == (MergePhase::Done { result: Advance::Completed }),
    ensures
        phase is Complete || event == MergeEvent::Drained(DrainStep::SourceAdvanced),
{
}

/// Classifies a drain source: its Header while it merges, else the outcome of
/// the batch. A completed merge left no authority values.
pub fn begin_drain(authority: Option<Authority>) -> (res: core::result::Result<
    PartitionHeader,
    DrainStep,
>)
    ensures
        res == match authority {
            None => Err::<PartitionHeader, DrainStep>(DrainStep::SourceAdvanced),
            Some(found) => if found.transition is Merging {
                Ok::<PartitionHeader, DrainStep>(found.header)
            } else {
                Err::<PartitionHeader, DrainStep>(DrainStep::NotMerging)
            },
        },
{
    match authority {
        None => Err(DrainStep::SourceAdvanced),
        Some(found) => match found.transition {
            PartitionTransition::Merging { .. } => Ok(found.header),
            _ => Err(DrainStep::NotMerging),
        },
    }
}

/// Returns whether any candidate may take entries of a merging source.
pub fn has_legal_target(source: PartitionKey, candidates: &Vec<LevelCandidate>) -> (res: bool)
    ensures
        res == exists|i: int|
            0 <= i < candidates@.len() && (#[trigger] candidates@[i]).legal_for(source),
{
    let mut at: usize = 0;
    while at < candidates.len()
        invariant
            at <= candidates@.len(),
            forall|i: int| 0 <= i < at ==> !(#[trigger] candidates@[i]).legal_for(source),
        decreases candidates@.len() - at,
    {
        if candidates[at].is_legal_merge_target(source) {
            assert(candidates@[at as int].legal_for(source));
            return true;
        }
        at = at + 1;
    }
    false
}

/// Revalidates a merging source inside the write transaction: its Header, or
/// `None` when the merge completed. A half-present pair is a torn state, and
/// merging never reverts to another one: both are Corruption.
pub fn revalidate_merge(
    header: Option<PartitionHeader>,
    state: Option<PartitionTransition>,
) -> (res: Result<Option<PartitionHeader>>)
    ensures
        match res {
            Ok(None) => header is None && state is None,
            Ok(Some(found)) => {
                &&& header == Some(found)
                &&& state matches Some(transition) && transition is Merging
                &&& found.state == PartitionState::Merging
            },
            Err(error) => {
                &&& error == plain_error(ErrorKind::Corruption)
                &&& header is Some || state is Some
                &&& !(header is Some && header->0.state == PartitionState::Merging && state is Some
                    && state->0 is Merging)
            },
        },
{
    match (header, state) {
        (None, None) => Ok(None),
        (Some(header), Some(state)) => match state {
            PartitionTransition::Merging { .. } => {
                if header.state != PartitionState::Merging {
                    return Err(Error::new(ErrorKind::Corruption));
                }
                Ok(Some(header))
            },
            _ => Err(Error::new(ErrorKind::Corruption)),
        },
        _ => Err(Error::new(ErrorKind::Corruption)),
    }
}

/// Whether an entry's routing fails: its vector is unusable, or a legal target
/// has no distance to it.
pub open spec fn unmeasured(
    source: PartitionKey,
    candidates: Seq<LevelCandidate>,
    entry: Option<Vec<Option<Distance>>>,
) -> bool {
    ||| entry is None
    ||| exists|i: int|
        0 <= i < candidates.len() && (#[trigger] candidates[i]).legal_for(source)
            && entry->0@[i] is None
}

/// Why an entry has no target: an unusable distance is Corruption, and a plan
/// without a legal target is a Backend failure.
pub open spec fn entry_failure(
    source: PartitionKey,
    candidates: Seq<LevelCandidate>,
    entry: Option<Vec<Option<Distance>>>,
) -> Option<ErrorKind> {
    if unmeasured(source, candidates, entry) {
        Some(ErrorKind::Corruption)
    } else if exists|i: int|
        0 <= i < candidates.len() && (#[trigger] candidates[i]).legal_for(source) {
        None
    } else {
        Some(ErrorKind::Backend)
    }
}

/// Whether the entry at `at` is the first without a target.
pub open spec fn first_failure(
    source: PartitionKey,
    candidates: Seq<LevelCandidate>,
    entries: Seq<Option<Vec<Option<Distance>>>>,
    at: int,
) -> bool {
    &&& 0 <= at < entries.len()
    &&& entry_failure(source, candidates, entries[at]) is Some
    &&& forall|i: int|
        0 <= i < at ==> entry_failure(source, candidates, #[trigger] entries[i]) is None
}

/// Whether `target` is the nearest legal target of an entry.
pub open spec fn routes_to(
    source: PartitionKey,
    candidates: Seq<LevelCandidate>,
    entry: Option<Vec<Option<Distance>>>,
    target: PartitionKey,
) -> bool {
    exists|best: int|
        {
            &&& #[trigger] nearest_legal(
                source,
                candidates,
                entry->0@,
                best,
                candidates.len() as int,
            )
            &&& target == candidates[best].partition
        }
}

/// Routes the entries of one drain batch to their nearest legal targets. An
/// entry without a distance to some legal target is Corruption; a batch with
/// no legal target at all contradicts its plan and is a Backend failure. The
/// first entry that fails decides.
pub fn merge_targets(
    source: PartitionKey,
    candidates: &Vec<LevelCandidate>,
    entries: &Vec<Option<Vec<Option<Distance>>>>,
) -> (res: Result<Vec<PartitionKey>>)
    requires
        forall|i: int|
            0 <= i < entries@.len() ==> ((#[trigger] entries@[i]) matches Some(distances)
                ==> distances@.len() == candidates@.len()),
    ensures
        match res {
            Ok(targets) => {
                &&& targets@.len() == entries@.len()
                &&& forall|i: int|
                    0 <= i < entries@.len() ==> routes_to(
                        source,
                        candidates@,
                        entries@[i],
                        #[trigger] targets@[i],
                    ) && entry_failure(source, candidates@, entries@[i]) is None
            },
            Err(error) => exists|i: int|
                #[trigger] first_failure(source, candidates@, entries@, i) && error
                    == plain_error(entry_failure(source, candidates@, entries@[i])->0),
        },
{
    let mut targets: Vec<PartitionKey> = Vec::new();
    let mut at: usize = 0;
    while at < entries.len()
        invariant
            at <= entries@.len(),
            targets@.len() == at,
            forall|i: int|
                0 <= i < entries@.len() ==> ((#[trigger] entries@[i]) matches Some(distances)
                    ==> distances@.len() == candidates@.len()),
            forall|i: int|
                0 <= i < at ==> routes_to(
                    source,
                    candidates@,
                    entries@[i],
                    #[trigger] targets@[i],
                ) && entry_failure(source, candidates@, entries@[i]) is None,
            forall|i: int|
                0 <= i < at ==> entry_failure(source, candidates@, #[trigger] entries@[i]) is None,
        decreases entries@.len() - at,
    {
        let distances = match &entries[at] {
            Some(distances) => distances,
            None => {
                assert(first_failure(source, candidates@, entries@, at as int));
                return Err(Error::new(ErrorKind::Corruption));
            },
        };
        match nearest_ready_candidate(source, candidates, distances) {
            Ok(Some(best)) => {
                let target = candidates[best].partition;
                assert(routes_to(source, candidates@, entries@[at as int], target)) by {
                    assert(nearest_legal(
                        source,
                        candidates@,
                        distances@,
                        best as int,
                        candidates@.len() as int,
                    ));
                }
                assert(candidates@[best as int].legal_for(source));
                targets.push(target);
            },
            Ok(None) => {
                assert(first_failure(source, candidates@, entries@, at as int));
                return Err(Error::new(ErrorKind::Backend));
            },
            Err(error) => {
                assert(unmeasured(source, candidates@, entries@[at as int]));
                assert(first_failure(source, candidates@, entries@, at as int));
                return Err(error);
            },
        }
        at = at + 1;
    }
    Ok(targets)
}

/// Whether keys are in strictly ascending order.
pub open spec fn strictly_ascending(keys: Seq<PartitionKey>) -> bool {
    forall|i: int, j: int|
        0 <= i < j < keys.len() ==> (#[trigger] keys[i])@ < (#[trigger] keys[j])@
}

/// Returns the distinct targets of a batch in ascending key order.
pub fn distinct_targets(targets: &Vec<PartitionKey>) -> (res: Vec<PartitionKey>)
    ensures
        strictly_ascending(res@),
        forall|key: PartitionKey| #[trigger] res@.contains(key) <==> targets@.contains(key),
{
    let mut distinct: Vec<PartitionKey> = Vec::new();
    let mut at: usize = 0;
    while at < targets.len()
        invariant
            at <= targets@.len(),
            strictly_ascending(distinct@),
            forall|key: PartitionKey| #[trigger]
                distinct@.contains(key) <==> targets@.take(at as int).contains(key),
        decreases targets@.len() - at,
    {
        let target = targets[at];
        let ghost before = distinct@;
        let mut position: usize = 0;
        while position < distinct.len() && distinct[position].get() < target.get()
            invariant
                distinct@ == before,
                position <= before.len(),
                forall|i: int| 0 <= i < position ==> (#[trigger] before[i])@ < target@,
            decreases before.len() - position,
        {
            position = position + 1;
        }
        let ghost taken = targets@.take(at as int);
        let ghost more = targets@.take(at + 1);
        proof {
            assert(more =~= taken.push(target));
        }
        if position < distinct.len() && distinct[position].get() == target.get() {
            proof {
                assert(PartitionKey::of(before[position as int]@) == before[position as int]);
                assert(PartitionKey::of(target@) == target);
                assert(before.contains(before[position as int]));
                assert forall|key: PartitionKey| #[trigger] before.contains(key)
                    <==> more.contains(key) by {
                    pushed_contains(taken, target, key);
                }
            }
        } else {
            distinct.insert(position, target);
            proof {
                let p = position as int;
                assert(distinct@ == before.insert(p, target));
                assert forall|i: int, j: int| 0 <= i < j < distinct@.len() implies (
                #[trigger] distinct@[i])@ < (#[trigger] distinct@[j])@ by {
                    let bi = if i < p {
                        i
                    } else {
                        i - 1
                    };
                    let bj = if j < p {
                        j
                    } else {
                        j - 1
                    };
                    if i == p {
                        assert(distinct@[j] == before[j - 1]);
                        if j - 1 > p {
                            assert(before[p]@ < before[j - 1]@);
                        }
                    } else if j == p {
                        assert(distinct@[i] == before[i]);
                    } else {
                        assert(distinct@[i] == before[bi]);
                        assert(distinct@[j] == before[bj]);
                        assert(before[bi]@ < before[bj]@);
                    }
                }
                assert forall|key: PartitionKey| #[trigger] distinct@.contains(key)
                    <==> more.contains(key) by {
                    pushed_contains(taken, target, key);
                    if before.contains(key) {
                        let k = choose|k: int| 0 <= k < before.len() && before[k] == key;
                        assert(distinct@[if k < p {
                            k
                        } else {
                            k + 1
                        }] == key);
                    }
                    if key == target {
                        assert(distinct@[p] == key);
                    }
                    if distinct@.contains(key) {
                        let k = choose|k: int| 0 <= k < distinct@.len() && distinct@[k] == key;
                        if k < p {
                            assert(before[k] == key);
                        } else if k > p {
                            assert(before[k - 1] == key);
                        }
                    }
                }
            }
        }
        at = at + 1;
    }
    assert(targets@.take(at as int) =~= targets@);
    distinct
}

proof fn pushed_contains(keys: Seq<PartitionKey>, last: PartitionKey, key: PartitionKey)
    ensures
        keys.push(last).contains(key) <==> keys.contains(key) || key == last,
{
    let more = keys.push(last);
    if keys.contains(key) {
        let k = choose|k: int| 0 <= k < keys.len() && keys[k] == key;
        assert(more[k] == key);
    }
    if key == last {
        assert(more[keys.len() as int] == key);
    }
    if more.contains(key) {
        let k = choose|k: int| 0 <= k < more.len() && more[k] == key;
        if k < keys.len() {
            assert(keys[k] == key);
        }
    }
}

/// Whether a target may still take entries at a level; `None` is Corruption.
pub open spec fn target_verdict(header: Option<PartitionHeader>, level: u32) -> Option<bool> {
    match header {
        None => Some(false),
        Some(found) => if found.level != level {
            None
        } else {
            Some(found.state == PartitionState::Ready)
        },
    }
}

/// The verdict on all targets from `at` on: the first that fails decides.
pub open spec fn targets_verdict(
    headers: Seq<Option<PartitionHeader>>,
    level: u32,
    at: int,
) -> Option<bool>
    decreases headers.len() - at,
{
    if at >= headers.len() {
        Some(true)
    } else {
        match target_verdict(headers[at], level) {
            Some(true) => targets_verdict(headers, level, at + 1),
            other => other,
        }
    }
}

/// Revalidates every chosen target inside the write transaction: `false` when
/// one vanished or left `Ready`, which discards the route; one at another
/// level is Corruption.
pub fn revalidate_targets(level: u32, headers: &Vec<Option<PartitionHeader>>) -> (res: Result<bool>)
    ensures
        res == match targets_verdict(headers@, level, 0) {
            Some(verdict) => Ok::<bool, Error>(verdict),
            None => Err::<bool, Error>(plain_error(ErrorKind::Corruption)),
        },
{
    let mut at: usize = 0;
    while at < headers.len()
        invariant
            at <= headers@.len(),
            targets_verdict(headers@, level, 0) == targets_verdict(headers@, level, at as int),
        decreases headers@.len() - at,
    {
        match headers[at] {
            None => {
                return Ok(false);
            },
            Some(header) => {
                if header.level != level {
                    return Err(Error::new(ErrorKind::Corruption));
                }
                if header.state != PartitionState::Ready {
                    return Ok(false);
                }
            },
        }
        at = at + 1;
    }
    Ok(true)
}

/// Entries move only while every chosen target is `Ready` at the source's
/// level.
pub proof fn merges_move_only_into_ready_targets(
    headers: Seq<Option<PartitionHeader>>,
    level: u32,
    at: int,
    target: int,
)
    requires
        targets_verdict(headers, level, at) == Some(true),
        0 <= at <= target < headers.len(),
    ensures
        headers[target] is Some,
        headers[target]->0.level == level,
        headers[target]->0.state == PartitionState::Ready,
    decreases headers.len() - at,
{
    if at < target {
        merges_move_only_into_ready_targets(headers, level, at + 1, target);
    }
}

/// Reports one committed batch; moving more than the source held is
/// Corruption.
pub fn finish_drain(source: PartitionHeader, moved: usize) -> (res: Result<DrainStep>)
    ensures
        match res {
            Ok(step) => moved <= source.entry_count && step == (DrainStep::Drained {
                moved,
                remaining: (source.entry_count - moved) as u32,
            }),
            Err(error) => moved > source.entry_count && error == plain_error(
                ErrorKind::Corruption,
            ),
        },
{
    let remaining: u32 = remaining_after(source.entry_count, moved)?;
    Ok(DrainStep::Drained { moved, remaining })
}

} // verus!
