use std::collections::BTreeMap;

use ktann::api::duration::Duration;
use ktann::api::error::{Error, ErrorKind};
use ktann::api::identifiers::PartitionKey;
use ktann::api::number::{Distance, Float64};
use ktann::maintenance::balance::{
    corrective_split_target, drain_targets, nearer_distance, ready_target_capacity,
    strictly_better_owner, DrainDistances, Owner, SplitBalance,
};
use ktann::maintenance::corrective::{
    corrective_capacity, corrective_donors, corrective_pull_target, pull_moves, ready_donor,
    select_pulled, split_still_pulls, PullDistances, PullRotation, PullScan, TargetCapacity,
};
use ktann::maintenance::drain::{
    collect_drain_batch, next_drain_batch, plan_drain_batch, remaining_after, DrainBatch, DrainItem,
};
use ktann::maintenance::merge;
use ktann::maintenance::split;
use ktann::runtime::retry::RetryPolicy;
use ktann::topology::{
    Authority, LevelCandidate, PartitionHeader, PartitionState, PartitionTransition,
};

fn ok<T>(result: Result<T, Error>) -> T {
    match result {
        Ok(value) => value,
        Err(error) => panic!("{}", error.describe()),
    }
}

fn kind_of<T>(result: Result<T, Error>) -> Option<ErrorKind> {
    result.err().map(|error| error.kind())
}

const CORRUPTION: Option<ErrorKind> = Some(ErrorKind::Corruption);

fn p(value: u64) -> PartitionKey {
    ok(PartitionKey::new(value))
}

fn d(value: f64) -> Distance {
    Distance::new(Float64 { bits: value.to_bits() }).expect("finite distance")
}

fn header(level: u32, count: u32, state: PartitionState) -> PartitionHeader {
    ok(PartitionHeader::new(level, count, 0, state))
}

fn pair(count: u32, transition: PartitionTransition) -> Option<Authority> {
    Some(ok(Authority::new(header(1, count, transition.state()), transition)))
}

fn ready(count: u32) -> Option<Authority> {
    pair(count, PartitionTransition::Ready { started_at_unix_millis: 0 })
}

fn draining(count: u32) -> Option<Authority> {
    pair(
        count,
        PartitionTransition::DrainingSplit {
            left: p(2),
            right: p(3),
            started_at_unix_millis: 0,
        },
    )
}

fn candidate(partition: u64, count: u32, state: PartitionState) -> LevelCandidate {
    LevelCandidate { partition: p(partition), parent: p(1), header: header(1, count, state) }
}

#[test]
fn entries_leave_only_for_a_strictly_nearer_owner() {
    let owners = vec![
        Owner { partition: p(4), distance: d(2.0) },
        Owner { partition: p(3), distance: d(1.0) },
        Owner { partition: p(2), distance: d(1.0) },
    ];
    assert_eq!(strictly_better_owner(d(3.0), &owners), Some(p(2)));
    assert_eq!(strictly_better_owner(d(1.0), &owners), None);
    assert_eq!(nearer_distance(d(1.0), d(2.0)), d(1.0));
}

#[test]
fn drained_entries_keep_both_minima_attainable() {
    let mut balance = SplitBalance::new(4, 0, 0, 2);
    let near_left = || DrainDistances {
        left: Some(d(0.0)),
        right: Some(d(9.0)),
        ready: vec![],
    };
    let entries = vec![near_left(), near_left(), near_left(), near_left()];
    let mut capacity: BTreeMap<u64, u32> = BTreeMap::new();
    let targets = ok(drain_targets(p(2), p(3), &entries, &vec![], &mut capacity, &mut balance));
    let left = targets.iter().filter(|target| **target == p(2)).count();
    assert_eq!(left, 2);
    assert_eq!(targets.len(), 4);
}

#[test]
fn surplus_entries_move_to_a_nearer_ready_sibling() {
    let mut balance = SplitBalance::new(3, 0, 0, 1);
    let mut capacity =
        ok(ready_target_capacity(1, 8, &vec![p(7)], &vec![Some(header(1, 7, PartitionState::Ready))]));
    assert_eq!(capacity.get(&7), Some(&1));
    let entry = DrainDistances {
        left: Some(d(5.0)),
        right: Some(d(6.0)),
        ready: vec![Some(d(1.0))],
    };
    let candidates = vec![p(7)];
    let first =
        corrective_split_target(p(2), p(3), &entry, &candidates, &mut capacity, &mut balance);
    assert_eq!(ok(first), p(7));
    let second =
        corrective_split_target(p(2), p(3), &entry, &candidates, &mut capacity, &mut balance);
    assert_eq!(ok(second), p(2));
}

#[test]
fn pulls_take_entries_that_prefer_a_target() {
    let mut capacity = TargetCapacity {
        left: p(2),
        left_remaining: 1,
        right: p(3),
        right_remaining: 0,
    };
    assert!(!capacity.is_full());
    let near_left = PullDistances {
        source: Some(d(4.0)),
        left: Some(d(1.0)),
        right: Some(d(2.0)),
    };
    assert_eq!(ok(corrective_pull_target(near_left, &mut capacity)), Some(p(2)));
    assert!(capacity.is_full());
    assert_eq!(ok(corrective_pull_target(near_left, &mut capacity)), None);
    let missing = PullDistances { source: None, left: Some(d(1.0)), right: Some(d(2.0)) };
    let mut fresh = TargetCapacity { left: p(2), left_remaining: 1, right: p(3), right_remaining: 1 };
    assert_eq!(kind_of(corrective_pull_target(missing, &mut fresh)), CORRUPTION);
}

#[test]
fn pulled_entries_fit_the_targets() {
    let capacity = TargetCapacity { left: p(2), left_remaining: 1, right: p(3), right_remaining: 5 };
    let near = |source: f64, left: f64, right: f64| {
        Some(PullDistances { source: Some(d(source)), left: Some(d(left)), right: Some(d(right)) })
    };
    let entries = vec![near(9.0, 1.0, 2.0), near(9.0, 1.0, 2.0), near(1.0, 5.0, 5.0)];
    assert_eq!(ok(select_pulled(&entries, &capacity, 8)), vec![0, 1]);
    assert_eq!(ok(select_pulled(&entries, &capacity, 1)), vec![0]);
    let moves = ok(pull_moves(&entries, &capacity, None));
    let targets: Vec<(usize, u64)> =
        moves.iter().map(|one| (one.entry, one.target.get())).collect();
    assert_eq!(targets, vec![(0, 2), (1, 3)]);
}

#[test]
fn target_capacity_counts_up_to_the_maximum() {
    let filling = |count: u32| Some(header(1, count, PartitionState::ReceivingSplit));
    let capacity = ok(corrective_capacity(1, 8, p(2), filling(3), p(3), filling(8)));
    assert_eq!((capacity.left_remaining, capacity.right_remaining), (5, 0));
    assert_eq!(kind_of(corrective_capacity(1, 8, p(2), None, p(3), filling(1))), CORRUPTION);
}

#[test]
fn donors_rotate_from_round_to_round() {
    let internal = |partition: u64, count: u32| LevelCandidate {
        partition: p(partition),
        parent: p(1),
        header: header(2, count, PartitionState::Ready),
    };
    let level = vec![internal(5, 4), internal(6, 1), internal(7, 2)];
    assert_eq!(corrective_donors(&level), vec![0, 2]);
    let mut scan = ok(PullScan::plan(10, 4, &level)).expect("two donors");
    let first = scan.next_visit().expect("one donor");
    assert!(first.candidate == 0 || first.candidate == 2);
    let second = scan.next_visit().expect("the other donor");
    assert_ne!(first.candidate, second.candidate);
    assert!(scan.next_visit().is_none());
    assert!(ok(PullScan::plan(10, 4, &vec![])).is_none());
    let rotation = ok(PullRotation::new(10, 4, 2));
    assert_eq!(rotation.inspected, 2);
}

#[test]
fn only_stable_donors_are_pulled_from() {
    assert!(ready_donor(ready(4)).is_some());
    assert!(ready_donor(draining(4)).is_none());
    assert!(ready_donor(None).is_none());
    assert!(ok(split_still_pulls(header(1, 4, PartitionState::Ready), draining(4), p(2), p(3))));
    assert!(!ok(split_still_pulls(header(1, 4, PartitionState::Ready), draining(4), p(2), p(9))));
    assert!(!ok(split_still_pulls(header(1, 4, PartitionState::Ready), None, p(2), p(3))));
}

#[test]
fn drain_batches_agree_with_their_header() {
    assert_eq!(kind_of(plan_drain_batch(None, 128, 64)), CORRUPTION);
    assert_eq!(
        ok(plan_drain_batch(Some(header(1, 0, PartitionState::DrainingSplit)), 128, 64)),
        None
    );
    assert_eq!(
        ok(plan_drain_batch(Some(header(1, 90, PartitionState::DrainingSplit)), 128, 64)),
        Some(32)
    );
    assert_eq!(kind_of(next_drain_batch(&vec![], 1, 4, false)), CORRUPTION);
    assert_eq!(kind_of(next_drain_batch(&vec![], 1, 4, true)), CORRUPTION);
    // Five entries are counted and planned, and the source holds three.
    assert_eq!(
        ok(plan_drain_batch(Some(header(1, 5, PartitionState::DrainingSplit)), 128, 64)),
        Some(5)
    );
    let three = vec![DrainItem::Leaf(vec![1]), DrainItem::Leaf(vec![2]), DrainItem::Leaf(vec![3])];
    assert_eq!(kind_of(next_drain_batch(&three, 1, 5, false)), CORRUPTION);
    assert!(matches!(
        ok(next_drain_batch(&three, 1, 5, true)),
        DrainBatch::Leaf(ids) if ids == vec![vec![1], vec![2], vec![3]]
    ));
    assert!(matches!(
        ok(next_drain_batch(&three, 1, 3, false)),
        DrainBatch::Leaf(ids) if ids.len() == 3
    ));
    let two = vec![DrainItem::Child(p(5)), DrainItem::Child(p(6))];
    assert!(matches!(
        ok(next_drain_batch(&two, 2, 2, false)),
        DrainBatch::Child(children) if children == vec![p(5), p(6)]
    ));
    assert_eq!(kind_of(next_drain_batch(&two, 2, 1, false)), CORRUPTION);
    let leaf = ok(collect_drain_batch(&vec![DrainItem::Leaf(vec![1])], 1));
    assert!(matches!(leaf, DrainBatch::Leaf(ids) if ids == vec![vec![1]]));
    assert_eq!(kind_of(collect_drain_batch(&vec![DrainItem::Other], 1)), CORRUPTION);
    assert_eq!(kind_of(collect_drain_batch(&vec![DrainItem::Leaf(vec![1])], 2)), CORRUPTION);
    assert_eq!(ok(remaining_after(10, 4)), 6);
    assert_eq!(kind_of(remaining_after(3, 4)), CORRUPTION);
}

#[test]
fn a_split_pass_advances_one_durable_step() {
    let idle = split::SplitPhase::start(ready(8), 8);
    assert_eq!(idle, split::SplitPhase::Done { result: split::Advance::Idle });
    let begin = split::SplitPhase::start(ready(9), 8);
    assert_eq!(begin, split::SplitPhase::Begin);
    let began = begin.advance(split::SplitEvent::Begun(split::SplitStart::Started {
        left: p(2),
        right: p(3),
    }));
    assert_eq!(
        began,
        split::SplitPhase::Done { result: split::Advance::Began { left: p(2), right: p(3) } }
    );
    let correct = split::SplitPhase::start(draining(4), 8);
    let pulled = correct.advance(split::SplitEvent::Pulled(3));
    assert_eq!(
        pulled,
        split::SplitPhase::Done { result: split::Advance::Corrected { moved: 3 } }
    );
    let drain = split::SplitPhase::start(draining(4), 8).advance(split::SplitEvent::Pulled(0));
    let complete = drain.advance(split::SplitEvent::Drained(split::DrainStep::Drained {
        moved: 4,
        remaining: 0,
    }));
    let done = complete.advance(split::SplitEvent::Finalized(split::SplitCompletion::Completed {
        parent: Some(p(1)),
    }));
    assert_eq!(
        done,
        split::SplitPhase::Done {
            result: split::Advance::Completed { left: p(2), right: p(3), parent: Some(p(1)) }
        }
    );
}

#[test]
fn a_merge_pass_advances_one_durable_step() {
    let idle = merge::MergePhase::start(p(1), ready(0), 2);
    assert_eq!(idle, merge::MergePhase::Done { result: merge::Advance::Idle });
    let begin = merge::MergePhase::start(p(4), ready(1), 2);
    assert_eq!(begin, merge::MergePhase::Begin);
    assert_eq!(
        begin.advance(merge::MergeEvent::Begun(merge::MergeStart::NoReadyTarget)),
        merge::MergePhase::Done { result: merge::Advance::Idle }
    );
    let merging = pair(3, PartitionTransition::Merging { started_at_unix_millis: 0 });
    let drain = merge::MergePhase::start(p(4), merging, 2);
    assert_eq!(drain, merge::MergePhase::Drain);
    assert_eq!(
        drain.advance(merge::MergeEvent::Drained(merge::DrainStep::NoReadyTarget)),
        merge::MergePhase::Done { result: merge::Advance::Stalled }
    );
    let complete = drain.advance(merge::MergeEvent::Drained(merge::DrainStep::Drained {
        moved: 3,
        remaining: 0,
    }));
    assert_eq!(
        complete.advance(merge::MergeEvent::Finalized(merge::MergeCompletion::Completed)),
        merge::MergePhase::Done { result: merge::Advance::Completed }
    );
}

#[test]
fn targets_are_installed_left_before_right() {
    let policy = RetryPolicy {
        attempts: 3,
        initial_backoff: Duration::from_millis(1),
        max_backoff: Duration::from_millis(2),
    };
    let mut exposure = split::Exposure::new(p(2), p(3));
    let step = ok(exposure.installed(split::TargetInstall::Created, policy, 1));
    assert!(matches!(
        step,
        split::ExposeStep::Install { right_target: true, target, .. } if target == p(3)
    ));
    let done = ok(exposure.installed(split::TargetInstall::AlreadyExists, policy, 2));
    assert!(matches!(
        done,
        split::ExposeStep::Done {
            outcome: split::TargetExposure::Exposed { left, right }
        } if left == p(2) && right == p(3)
    ));
    let mut blocked = split::Exposure::new(p(2), p(3));
    assert!(blocked.installed(split::TargetInstall::ParentNotAccepting, policy, 1).is_ok());
    assert!(blocked.installed(split::TargetInstall::ParentNotAccepting, policy, 2).is_ok());
    assert_eq!(
        kind_of(blocked.installed(split::TargetInstall::ParentNotAccepting, policy, 3)),
        Some(ErrorKind::ContentionExhausted)
    );
}

#[test]
fn drains_revalidate_their_source() {
    assert!(matches!(split::begin_drain(draining(4)), split::DrainGate::Draining { .. }));
    assert!(matches!(
        split::begin_drain(None),
        split::DrainGate::Over { step: split::DrainStep::SourceAdvanced }
    ));
    assert!(matches!(
        split::begin_drain(ready(4)),
        split::DrainGate::Over { step: split::DrainStep::SourceAdvanced }
    ));
    let reserved = pair(
        4,
        PartitionTransition::Splitting { left: p(2), right: p(3), started_at_unix_millis: 0 },
    );
    assert!(matches!(
        split::begin_drain(reserved),
        split::DrainGate::Over { step: split::DrainStep::NotDraining }
    ));
    assert_eq!(kind_of(split::revalidate_drain(draining(4), p(2), p(9))), CORRUPTION);
    assert!(ok(split::revalidate_drain(draining(4), p(2), p(3))).is_some());
    assert_eq!(
        ok(split::finish_drain(header(1, 4, PartitionState::DrainingSplit), 4)),
        split::DrainStep::Drained { moved: 4, remaining: 0 }
    );
    let filling = Some(header(1, 1, PartitionState::ReceivingSplit));
    let balance = ok(split::drain_balance(
        header(1, 4, PartitionState::DrainingSplit),
        filling,
        filling,
        3,
    ));
    assert_eq!((balance.left_needed, balance.right_needed), (2, 2));
    assert_eq!(
        kind_of(split::drain_balance(
            header(1, 4, PartitionState::DrainingSplit),
            None,
            filling,
            3
        )),
        CORRUPTION
    );
}

#[test]
fn merges_move_into_ready_targets_only() {
    let level = vec![
        candidate(5, 4, PartitionState::Ready),
        candidate(6, 4, PartitionState::Splitting),
    ];
    assert!(merge::has_legal_target(p(9), &level));
    assert!(!merge::has_legal_target(p(5), &level));
    let entries = vec![Some(vec![Some(d(2.0)), Some(d(0.0))])];
    assert_eq!(ok(merge::merge_targets(p(9), &level, &entries)), vec![p(5)]);
    assert_eq!(kind_of(merge::merge_targets(p(9), &level, &vec![None])), CORRUPTION);
    assert_eq!(merge::distinct_targets(&vec![p(5), p(7), p(5)]), vec![p(5), p(7)]);
    assert!(ok(merge::revalidate_targets(1, &vec![Some(header(1, 1, PartitionState::Ready))])));
    assert!(!ok(merge::revalidate_targets(1, &vec![Some(header(1, 1, PartitionState::Merging))])));
}
