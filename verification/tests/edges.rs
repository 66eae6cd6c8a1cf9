use ktann::api::config::{IndexConfig, RuntimeConfig};
use ktann::api::duration::Duration;
use ktann::api::error::{Error, ErrorKind};
use ktann::api::identifiers::PartitionKey;
use ktann::api::number::{Distance, Float64};
use ktann::api::schema::{DataType, FieldSchema, Metric, SynopsisConfig};
use ktann::api::search::{
    SearchBudgetExhaustion, SearchBudgetUsage, SearchBudgets, SearchOptions, MAX_SCANNED_TREE_KEYS,
    MAX_VISITED_LEAF_ENTRIES,
};
use ktann::maintenance::corrective::{
    attempt_capacity, child_move_limit, corrective_capacity, donor_batch_limit,
    match_sampled_records, pull_source, selection_limit, PullDistances, SampledRecord,
    TargetCapacity,
};
use ktann::maintenance::drain::{drain_scan_limits, DRAIN_SCAN_BYTES};
use ktann::maintenance::merge::revalidate_merge;
use ktann::maintenance::split::{begin_exposure, read_source_state, ExposeStep, TargetExposure};
use ktann::observe::labels::{failure_severity, BudgetDimension, Severity};
use ktann::observe::samples::search_budget;
use ktann::topology::{Authority, PartitionHeader, PartitionState, PartitionTransition};

fn ok<T>(result: Result<T, Error>) -> T {
    match result {
        Ok(value) => value,
        Err(error) => panic!("{}", error.describe()),
    }
}

fn kind_of<T>(result: Result<T, Error>) -> Option<ErrorKind> {
    result.err().map(|error| error.kind())
}

const INVALID: Option<ErrorKind> = Some(ErrorKind::InvalidArgument);
const CORRUPTION: Option<ErrorKind> = Some(ErrorKind::Corruption);

fn p(value: u64) -> PartitionKey {
    ok(PartitionKey::new(value))
}

fn d(value: f64) -> Distance {
    Distance::new(Float64 { bits: value.to_bits() }).expect("finite distance")
}

fn header(level: u32, count: u32, state: PartitionState) -> PartitionHeader {
    ok(PartitionHeader::new(level, count, 0, state))
}

fn draining(left: u64, right: u64) -> PartitionTransition {
    PartitionTransition::DrainingSplit {
        left: p(left),
        right: p(right),
        started_at_unix_millis: 0,
    }
}

fn room(left: u32, right: u32) -> TargetCapacity {
    TargetCapacity { left: p(8), left_remaining: left, right: p(9), right_remaining: right }
}

#[test]
fn runtime_limits_are_checked_one_by_one() {
    let config = RuntimeConfig::for_parallelism(64);
    assert_eq!(config.maintenance_workers(), 8);
    assert_eq!(config.import_max_in_flight_batches(), 4);
    assert!(config.validate().is_ok());

    let maintained = ok(config.with_maintenance(3, 3));
    assert_eq!(maintained.maintenance_workers(), 3);
    assert_eq!(maintained.fixup_queue_capacity(), 3);
    assert_eq!(kind_of(config.with_maintenance(0, 0)), INVALID);
    assert_eq!(kind_of(config.with_maintenance(4, 3)), INVALID);

    assert_eq!(ok(config.with_partition_cache_bytes(7)).partition_cache_bytes(), 7);
    assert_eq!(ok(config.with_tree_key_scan_ranges(7)).tree_key_scan_ranges(), 7);
    assert_eq!(kind_of(config.with_tree_key_scan_ranges(0)), INVALID);

    let imported = ok(config.with_import_limits(5, 6));
    assert_eq!(imported.import_max_in_flight_batches(), 5);
    assert_eq!(imported.import_backlog_watermark(), 6);
    assert_eq!(kind_of(config.with_import_limits(0, 6)), INVALID);
    let above_queue = ok(ok(config.with_maintenance(1, 4)).with_import_limits(1, 5));
    assert_eq!(kind_of(above_queue.validate()), INVALID);

    let budgets = ok(SearchBudgets::new(1, 2, 3, 4));
    let budgeted = ok(config.with_default_search_budgets(budgets));
    assert_eq!(budgeted.default_search_budgets(), budgets);
    assert_eq!(kind_of(SearchBudgets::new(1, 0, 3, 4)), INVALID);
}

#[test]
fn stalled_timeouts_scale_with_the_partition_maximum() {
    let config = RuntimeConfig::for_parallelism(1);
    let index = ok(ok(IndexConfig::new(1, Metric::L2)).with_partition_entries(2, 64));
    assert_eq!(ok(config.stalled_timeout(&index)).as_nanos(), 500_000_000);
    let fixed = ok(config.with_stalled_timeout(Duration::from_millis(3)));
    assert_eq!(ok(fixed.stalled_timeout(&index)).as_nanos(), 3_000_000);
    assert_eq!(kind_of(config.with_stalled_timeout(Duration::from_millis(0))), INVALID);
}

#[test]
fn search_overrides_are_bounded() {
    let options = ok(SearchOptions::default().with_scanned_tree_keys(MAX_SCANNED_TREE_KEYS));
    let resolved = ok(options.resolve(SearchBudgets::default(), 1));
    assert_eq!(resolved.scanned_tree_keys(), MAX_SCANNED_TREE_KEYS);
    assert_eq!(resolved.visited_leaf_entries(), 65_536);
    assert_eq!(
        kind_of(SearchOptions::default().with_scanned_tree_keys(MAX_SCANNED_TREE_KEYS + 1)),
        INVALID
    );
    let options = ok(options.with_visited_leaf_entries(MAX_VISITED_LEAF_ENTRIES));
    let resolved = ok(options.resolve(SearchBudgets::default(), 1));
    assert_eq!(resolved.scanned_tree_keys(), MAX_SCANNED_TREE_KEYS);
    assert_eq!(resolved.visited_leaf_entries(), MAX_VISITED_LEAF_ENTRIES);
    assert_eq!(kind_of(options.with_visited_leaf_entries(0)), INVALID);
}

#[test]
fn bloom_synopses_are_checked_when_attached() {
    let bloom = |distinct: u32, rate: f64| SynopsisConfig::MinMaxBloom {
        expected_distinct: distinct,
        false_positive_rate: Float64 { bits: rate.to_bits() },
        ideal_bits: Float64 { bits: 9.5_f64.to_bits() },
    };
    let field = || ok(FieldSchema::new("color".to_owned(), DataType::String));
    let attached = ok(field().with_synopsis(bloom(1, 0.01)));
    assert_eq!(*attached.synopsis(), bloom(1, 0.01));
    assert_eq!(ok(attached.synopsis().bloom_bytes()), 2);
    for refused in [bloom(0, 0.01), bloom(1, 0.0), bloom(1, 1.0), bloom(1, -0.5)] {
        assert_eq!(kind_of(field().with_synopsis(refused)), INVALID);
    }
}

#[test]
fn search_budgets_are_sampled_by_dimension() {
    let samples = search_budget(
        &SearchBudgetUsage {
            scanned_tree_keys: 4,
            visited_partitions: 2,
            visited_leaf_entries: 9,
            exact_rerank_candidates: 1,
        },
        &SearchBudgetExhaustion {
            scanned_tree_keys: true,
            visited_partitions: false,
            visited_leaf_entries: false,
            exact_rerank_candidates: true,
        },
    );
    let seen: Vec<(BudgetDimension, u32, bool)> = samples
        .iter()
        .map(|sample| (sample.dimension, sample.used, sample.prevented))
        .collect();
    assert_eq!(
        seen,
        vec![
            (BudgetDimension::ScannedTreeKeys, 4, true),
            (BudgetDimension::VisitedPartitions, 2, false),
            (BudgetDimension::VisitedLeafEntries, 9, false),
            (BudgetDimension::ExactRerankCandidates, 1, true),
        ]
    );
}

#[test]
fn failures_are_traced_by_severity() {
    assert_eq!(failure_severity(&Error::new(ErrorKind::Corruption)), Severity::Error);
    assert_eq!(failure_severity(&Error::new(ErrorKind::CommitOutcomeUnknown)), Severity::Warn);
    assert_eq!(failure_severity(&Error::new(ErrorKind::Cancelled)), Severity::Debug);
}

#[test]
fn drain_scans_are_bounded_in_items_and_bytes() {
    let limits = drain_scan_limits(17);
    assert_eq!(limits.item_limit, 17);
    assert_eq!(limits.byte_limit, DRAIN_SCAN_BYTES);
}

#[test]
fn split_sources_tell_how_exposing_starts() {
    let splitting = PartitionTransition::Splitting {
        left: p(8),
        right: p(9),
        started_at_unix_millis: 5,
    };
    let found = header(1, 4, PartitionState::Splitting);
    assert_eq!(ok(read_source_state(Some(found), Some(splitting))), Some(splitting));
    assert_eq!(ok(read_source_state(None, None)), None);
    assert_eq!(kind_of(read_source_state(Some(found), None)), CORRUPTION);

    assert_eq!(begin_exposure(Some(splitting)), ExposeStep::Train { left: p(8), right: p(9) });
    assert_eq!(
        begin_exposure(Some(draining(8, 9))),
        ExposeStep::Done { outcome: TargetExposure::Exposed { left: p(8), right: p(9) } }
    );
    assert_eq!(
        begin_exposure(None),
        ExposeStep::Done { outcome: TargetExposure::SourceAdvanced }
    );
}

#[test]
fn merging_sources_are_revalidated_whole() {
    let merging = PartitionTransition::Merging { started_at_unix_millis: 0 };
    let ready = PartitionTransition::Ready { started_at_unix_millis: 0 };
    let found = header(1, 4, PartitionState::Merging);
    assert_eq!(ok(revalidate_merge(Some(found), Some(merging))), Some(found));
    assert_eq!(ok(revalidate_merge(None, None)), None);
    assert_eq!(kind_of(revalidate_merge(Some(found), None)), CORRUPTION);
    assert_eq!(kind_of(revalidate_merge(None, Some(merging))), CORRUPTION);
    assert_eq!(kind_of(revalidate_merge(Some(found), Some(ready))), CORRUPTION);
    let other = header(1, 4, PartitionState::Ready);
    assert_eq!(kind_of(revalidate_merge(Some(other), Some(merging))), CORRUPTION);
}

#[test]
fn only_a_draining_inner_split_pulls() {
    let found = header(1, 4, PartitionState::DrainingSplit);
    let split = ok(Authority::new(found, draining(8, 9)));
    assert_eq!(pull_source(p(4), Some(split), p(8), p(9)), Some(found));
    assert_eq!(pull_source(p(1), Some(split), p(8), p(9)), None);
    assert_eq!(pull_source(p(4), Some(split), p(8), p(7)), None);
    assert_eq!(pull_source(p(4), None, p(8), p(9)), None);
    let empty = header(1, 0, PartitionState::DrainingSplit);
    let drained = ok(Authority::new(empty, draining(8, 9)));
    assert_eq!(pull_source(p(4), Some(drained), p(8), p(9)), None);
}

#[test]
fn pulls_fit_the_targets_and_leave_internal_donors_an_entry() {
    let filling = |count: u32| Some(header(1, count, PartitionState::ReceivingSplit));
    let capacity = ok(corrective_capacity(1, 10, p(8), filling(4), p(9), filling(12)));
    assert_eq!(capacity, room(6, 0));
    assert_eq!(attempt_capacity(1, 10, p(8), filling(4), p(9), filling(12)), Some(room(6, 0)));
    assert_eq!(attempt_capacity(1, 10, p(8), filling(10), p(9), filling(12)), None);
    assert_eq!(attempt_capacity(1, 10, p(8), None, p(9), filling(1)), None);
    assert_eq!(kind_of(corrective_capacity(1, 10, p(8), None, p(9), filling(1))), CORRUPTION);
    assert_eq!(kind_of(corrective_capacity(2, 10, p(8), filling(1), p(9), filling(1))), CORRUPTION);

    assert_eq!(ok(selection_limit(4, &room(6, 0), 2, 1)), 4);
    assert_eq!(ok(selection_limit(9, &room(6, 1), 2, 1)), 7);
    assert_eq!(kind_of(selection_limit(4, &room(0, 0), 2, 1)), CORRUPTION);
    assert_eq!(kind_of(selection_limit(4, &room(6, 0), 0, 1)), CORRUPTION);
    assert_eq!(kind_of(selection_limit(4, &room(6, 0), 2, 0)), CORRUPTION);

    let leaf = header(1, 4, PartitionState::Ready);
    let internal = header(2, 4, PartitionState::Ready);
    assert_eq!(ok(donor_batch_limit(leaf, 8)), 8);
    assert_eq!(ok(donor_batch_limit(internal, 8)), 3);
    assert_eq!(ok(donor_batch_limit(internal, 2)), 2);
    assert_eq!(child_move_limit(internal), Some(3));
    assert_eq!(child_move_limit(header(2, 1, PartitionState::Ready)), None);
}

#[test]
fn sampled_entries_need_their_own_record() {
    let distances = PullDistances {
        source: Some(d(2.0)),
        left: Some(d(1.0)),
        right: Some(d(3.0)),
    };
    let record = |id: Option<Vec<u8>>| SampledRecord { record_id: id, distances };
    let ids = vec![vec![1], vec![2], vec![3]];
    let records = vec![record(Some(vec![1])), record(Some(vec![9])), record(None)];
    assert_eq!(ok(match_sampled_records(&ids, &records)), vec![Some(distances), None, None]);
    assert_eq!(
        kind_of(match_sampled_records(&ids, &vec![record(None)])),
        Some(ErrorKind::Backend)
    );
}
