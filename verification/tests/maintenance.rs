use ktann::api::config::IndexConfig;
use ktann::api::duration::Duration;
use ktann::api::error::Error;
use ktann::api::identifiers::PartitionKey;
use ktann::api::number::{Distance, Float64};
use ktann::api::schema::Metric;
use ktann::maintenance::balance::SplitBalance;
use ktann::maintenance::corrective::corrective_sample_indices;
use ktann::maintenance::drain::leaf_drain_batch_limit;
use ktann::maintenance::fixup::{is_actionable, recovery_due};
use ktann::topology::{PartitionHeader, PartitionState, PartitionTransition};

fn ok<T>(result: Result<T, Error>) -> T {
    match result {
        Ok(value) => value,
        Err(error) => panic!("{}", error.describe()),
    }
}

fn partition(value: u64) -> PartitionKey {
    ok(PartitionKey::new(value))
}

fn rank(value: f64) -> Distance {
    Distance::new(Float64 { bits: value.to_bits() }).expect("finite distance")
}

fn config() -> IndexConfig {
    ok(ok(IndexConfig::new(1, Metric::L2)).with_partition_entries(2, 8))
}

fn header(count: u32, state: PartitionState) -> PartitionHeader {
    ok(PartitionHeader::new(1, count, 0, state))
}

#[test]
fn leaf_batch_combines_budget_contention_and_source_bounds() {
    assert_eq!(leaf_drain_batch_limit(32, 100, 1_000), 8);
    assert_eq!(leaf_drain_batch_limit(128, 100, 1_000), 32);
    assert_eq!(leaf_drain_batch_limit(129, 100, 1_000), 33);
    assert_eq!(leaf_drain_batch_limit(128, 100, 17), 17);
    assert_eq!(leaf_drain_batch_limit(128, 9, 1_000), 9);
}

#[test]
fn recovery_uses_state_age_with_explicit_clock_boundaries() {
    let timeout = Duration::from_millis(100);
    for (now, started, due) in [
        (1099, 1000, false),
        (1100, 1000, true),
        (1101, 1000, true),
        (999, 1000, false),
        (0, 1000, true),
        (1000, 0, true),
    ] {
        for state in [
            PartitionTransition::Splitting {
                left: partition(2),
                right: partition(3),
                started_at_unix_millis: started,
            },
            PartitionTransition::DrainingSplit {
                left: partition(2),
                right: partition(3),
                started_at_unix_millis: started,
            },
            PartitionTransition::Merging {
                started_at_unix_millis: started,
            },
        ] {
            assert_eq!(
                recovery_due(state, now, timeout),
                due,
                "{state:?}, now={now}"
            );
        }
    }
    assert!(recovery_due(
        PartitionTransition::Ready {
            started_at_unix_millis: 1000
        },
        1000,
        timeout,
    ));
    assert!(!recovery_due(
        PartitionTransition::Merging {
            started_at_unix_millis: 1000
        },
        1000,
        Duration::from_nanos(1),
    ));
}

#[test]
fn eligibility_excludes_stable_non_actionable_partitions() {
    let config = config();
    let root = PartitionKey::root();
    let child = partition(2);
    assert!(!is_actionable(&config, root, header(0, PartitionState::Ready)));
    assert!(!is_actionable(&config, root, header(8, PartitionState::Ready)));
    assert!(!is_actionable(
        &config,
        child,
        header(9, PartitionState::ReceivingSplit),
    ));
}

#[test]
fn eligibility_keeps_threshold_crossings_and_source_states() {
    let config = config();
    let root = PartitionKey::root();
    let child = partition(2);
    assert!(is_actionable(&config, root, header(9, PartitionState::Ready)));
    assert!(is_actionable(&config, child, header(1, PartitionState::Ready)));
    for state in [
        PartitionState::Splitting,
        PartitionState::DrainingSplit,
        PartitionState::Merging,
    ] {
        assert!(is_actionable(&config, child, header(4, state)));
    }
}

#[test]
fn split_balance_reserves_the_minimum_after_nearest_routing_fills_one_side() {
    let left = partition(2);
    let right = partition(3);
    let mut balance = SplitBalance::new(9, 0, 0, 3);
    let mut counts = (0_u32, 0_u32);
    for _ in 0..9 {
        match ok(balance.choose_target(left, rank(0.0), right, rank(1.0))) {
            target if target == left => counts.0 += 1,
            target if target == right => counts.1 += 1,
            _ => unreachable!("the policy returns one of its two targets"),
        }
    }
    assert_eq!(counts, (6, 3));
}

#[test]
fn split_balance_reserves_both_minima_before_releasing_to_ready() {
    let left = partition(2);
    let right = partition(3);
    let mut balance = SplitBalance::new(2, 0, 0, 1);
    assert_eq!(
        ok(balance.choose_target(left, rank(0.0), right, rank(1.0))),
        left
    );
    assert!(!ok(balance.release_to_ready()));
    assert_eq!(
        ok(balance.choose_target(left, rank(0.0), right, rank(1.0))),
        right
    );
    let mut releasable = SplitBalance::new(3, 0, 0, 1);
    assert!(ok(releasable.release_to_ready()));
}

#[test]
fn corrective_samples_rotate_across_the_whole_page() {
    assert_eq!(corrective_sample_indices(10, 4, 1), vec![0, 3, 6, 9]);
    assert_eq!(corrective_sample_indices(10, 4, 2), vec![1, 4, 7, 0]);
    assert_eq!(corrective_sample_indices(4, 8, 1), vec![0, 1, 2, 3]);
}
