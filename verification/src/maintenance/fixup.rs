//! Actionable Structure Maintenance discovery and execution dispatch.
//!
//! A partition is worth offering only when its committed Header can advance:
//! an oversized `Ready` partition can split, an undersized non-root `Ready`
//! partition can merge, and split and merge source states can resume.

use vstd::prelude::*;

use crate::api::config::IndexConfig;
use crate::api::duration::{Duration, NANOS_PER_MILLI};
use crate::api::identifiers::{partition_key_of_view, PartitionKey};
use crate::topology::{Authority, PartitionHeader, PartitionState, PartitionTransition};

verus! {

broadcast use partition_key_of_view;

/// The state machine selected by one committed Partition Header.
#[derive(Clone, Copy, Debug, PartialEq, Eq, Structural)]
pub enum Action {
    /// The split state machine.
    Split,
    /// The merge state machine.
    Merge,
}

/// The state machine a Header selects: `minimum` and `maximum` are the index's
/// partition entry bounds.
pub open spec fn selected_action(
    minimum: u32,
    maximum: u32,
    partition: PartitionKey,
    header: PartitionHeader,
) -> Option<Action> {
    match header.state {
        PartitionState::Ready => if header.entry_count > maximum {
            Some(Action::Split)
        } else if partition@ != 1 && header.entry_count < minimum {
            Some(Action::Merge)
        } else {
            None
        },
        PartitionState::Splitting => Some(Action::Split),
        PartitionState::DrainingSplit => Some(Action::Split),
        PartitionState::Merging => Some(Action::Merge),
        PartitionState::ReceivingSplit => None,
    }
}

/// Classifies one Header without reading any additional persistent state.
pub fn action(config: &IndexConfig, partition: PartitionKey, header: PartitionHeader) -> (res:
    Option<Action>)
    ensures
        res == selected_action(
            config@.min_partition_entries,
            config@.max_partition_entries,
            partition,
            header,
        ),
{
    match header.state {
        PartitionState::Ready => {
            if header.entry_count > config.max_partition_entries() {
                Some(Action::Split)
            } else if partition.get() != 1 && header.entry_count < config.min_partition_entries() {
                Some(Action::Merge)
            } else {
                None
            }
        },
        PartitionState::Splitting => Some(Action::Split),
        PartitionState::DrainingSplit => Some(Action::Split),
        PartitionState::Merging => Some(Action::Merge),
        PartitionState::ReceivingSplit => None,
    }
}

/// Returns whether one committed Header identifies actionable maintenance.
pub fn is_actionable(config: &IndexConfig, partition: PartitionKey, header: PartitionHeader) -> (res:
    bool)
    ensures
        res == (selected_action(
            config@.min_partition_entries,
            config@.max_partition_entries,
            partition,
            header,
        ) is Some),
{
    action(config, partition, header).is_some()
}

/// A `Ready` root never merges, whatever its count, and no partition of valid
/// bounds is both too large and too small.
pub proof fn roots_never_begin_a_merge(
    minimum: u32,
    maximum: u32,
    root: PartitionKey,
    header: PartitionHeader,
)
    requires
        root@ == 1,
        header.state == PartitionState::Ready,
    ensures
        selected_action(minimum, maximum, root, header) != Some(Action::Merge),
{
}

/// Whether a rediscovered state is old enough to recover.
pub open spec fn due(state: PartitionTransition, now: u64, timeout: nat) -> bool {
    let started = state.spec_started();
    ||| state is Ready
    ||| now == 0
    ||| started == 0
    ||| (now >= started && (now - started) * NANOS_PER_MILLI >= timeout)
}

/// Returns whether a rediscovered state is old enough to recover. A `Ready`
/// state needs no age, an unknown time permits recovery, and a state from the
/// future waits for the clock.
pub fn recovery_due(state: PartitionTransition, now: u64, timeout: Duration) -> (res: bool)
    ensures
        res == due(state, now, timeout@),
{
    if state.state() == PartitionState::Ready {
        return true;
    }
    let started: u64 = state.started_at_unix_millis();
    if now == 0 || started == 0 {
        return true;
    }
    if now < started {
        return false;
    }
    let age = Duration::from_millis(now - started);
    !timeout.exceeds(age)
}

/// Plans one maintenance step from the partition's authority values: which
/// state machine runs, if any. `recovery_timeout` applies to rediscovery; a
/// worker that is already progressing has no age gate.
pub fn plan_step(
    config: &IndexConfig,
    partition: PartitionKey,
    pair: Option<Authority>,
    now: u64,
    recovery_timeout: Option<Duration>,
) -> (res: Option<Action>)
    ensures
        res == match pair {
            None => None,
            Some(authority) => if recovery_timeout is Some && !due(
                authority.transition,
                now,
                recovery_timeout->0@,
            ) {
                None
            } else {
                selected_action(
                    config@.min_partition_entries,
                    config@.max_partition_entries,
                    partition,
                    authority.header,
                )
            },
        },
{
    let authority = match pair {
        Some(authority) => authority,
        None => {
            return None;
        },
    };
    if let Some(timeout) = recovery_timeout {
        if !recovery_due(authority.transition, now, timeout) {
            return None;
        }
    }
    action(config, partition, authority.header)
}

} // verus!
