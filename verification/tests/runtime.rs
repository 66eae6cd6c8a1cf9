use ktann::api::config::{IndexConfig, RuntimeConfig};
use ktann::api::duration::Duration;
use ktann::api::error::{Error, ErrorKind};
use ktann::api::identifiers::{LogicalIndexId, PartitionKey};
use ktann::api::number::{Float32, Float64};
use ktann::api::operation::ImportOptions;
use ktann::api::record::PayloadProjection;
use ktann::api::schema::Metric;
use ktann::api::search::SearchHit;
use ktann::hashing::{derive_rotation_seed, entry_fingerprint, jitter_sample, rotation_seed_from};
use ktann::maintenance::{merge, split};
use ktann::observe::labels::{FixupAdmission, FixupExecution, FixupStepResult};
use ktann::runtime::admission::{
    check_control, first_try, interrupt, wait_ended, waiting_try, AdmitStep, CommitBoundary,
    Control, Interruption, Lifecycle, Phase, TryPermit, WaitEnd,
};
use ktann::runtime::attempts::{AttemptEnd, Attempts};
use ktann::runtime::drive::{
    observe_merge_step, observe_split_step, Drive, StepOutcome,
};
use ktann::runtime::import::{
    begin_submit, session_limit, slot_acquired, ImportConcurrency, ImportPermitState, SubmitStep,
    TokenSequence,
};
use ktann::runtime::index::{
    after_create_commit, classify_existing, drop_manifest, drop_name, drop_scan_limits,
    open_manifest, open_name, opened_manifest, plan_create, prepare_delete_step, recheck_drop,
    recover_create, recover_drop, CreateEnd, CreatePlan, DropAction, DropAttempts, DropEnd,
    DropPlan, DropResume, DropStep, IndexLifecycle, IndexManifest, Stored,
};
use ktann::runtime::queue::{
    backlog_gate, import_gate_result, offer_fixups, release_running, BacklogGate, FixupKey,
    FixupQueue, SplitFollowups,
};
use ktann::runtime::results::{search_outcome, stored_record, RecordGroup, SearchStages};
use ktann::runtime::retry::{jittered, RetryPolicy};

fn ok<T>(result: Result<T, Error>) -> T {
    match result {
        Ok(value) => value,
        Err(error) => panic!("{}", error.describe()),
    }
}

fn kind_of<T>(result: Result<T, Error>) -> Option<ErrorKind> {
    result.err().map(|error| error.kind())
}

fn id(value: u64) -> LogicalIndexId {
    ok(LogicalIndexId::new(value))
}

fn partition(value: u64) -> PartitionKey {
    ok(PartitionKey::new(value))
}

fn config() -> IndexConfig {
    ok(IndexConfig::new(3, Metric::L2))
}

fn policy(attempts: u32) -> RetryPolicy {
    RetryPolicy {
        attempts,
        initial_backoff: Duration::from_millis(10),
        max_backoff: Duration::from_millis(50),
    }
}

fn free() -> Control {
    Control { cancelled: false, deadline: None, now: 0 }
}

#[test]
fn rotation_seeds_come_from_the_index_identity() {
    let value: u64 = 41;
    let first = xxhash_rust::xxh3::xxh3_128_with_seed(&value.to_be_bytes(), 0x4b54_414e_4e01_b101);
    let second = xxhash_rust::xxh3::xxh3_128_with_seed(
        &first.to_le_bytes(),
        0x4b54_414e_4e01_b102 ^ (first as u64),
    );
    let mut expected = first.to_le_bytes().to_vec();
    expected.extend_from_slice(&second.to_le_bytes());
    assert_eq!(derive_rotation_seed(id(value)), expected);
    assert_eq!(rotation_seed_from(first, second), expected);
    assert_ne!(derive_rotation_seed(id(42)), expected);
    assert_eq!(IndexManifest::active(id(41), &config()).rotation_seed, expected);
}

#[test]
fn fingerprints_are_seeded_hashes_of_the_encoding() {
    let bytes = b"canonical leaf entry".to_vec();
    let expected =
        xxhash_rust::xxh3::xxh3_128_with_seed(&bytes, 0x4b54_414e_4e01_b1a2).to_le_bytes().to_vec();
    assert_eq!(entry_fingerprint(&bytes), expected);
    assert_ne!(entry_fingerprint(&b"canonical leaf entrz".to_vec()), expected);
}

#[test]
fn jitter_takes_a_share_of_the_interval() {
    let sequence: u64 = 7;
    assert_eq!(
        jitter_sample(sequence),
        xxhash_rust::xxh3::xxh3_64(&sequence.to_le_bytes())
    );
    assert_eq!(jittered(u64::MAX, Duration::from_nanos(1_000)), 1_000);
    assert_eq!(jittered(0, Duration::from_nanos(1_000)), 0);
    assert_eq!(jittered(u64::MAX / 2, Duration::from_nanos(1_000)), 499);
}

#[test]
fn backoff_doubles_up_to_its_maximum() {
    let policy = policy(8);
    assert_eq!(policy.backoff(0), Duration::from_millis(10));
    assert_eq!(policy.backoff(1), Duration::from_millis(20));
    assert_eq!(policy.backoff(2), Duration::from_millis(40));
    assert_eq!(policy.backoff(3), Duration::from_millis(50));
    assert_eq!(policy.backoff(u32::MAX), Duration::from_millis(50));
}

#[test]
fn attempts_end_when_the_policy_is_used_up() {
    let mut failed = 0_u32;
    let waited = ok(policy(3).wait_or_exhaust(&mut failed, 1));
    assert!(waited <= 10_000_000);
    assert_eq!(failed, 1);
    assert!(ok(policy(3).wait_or_exhaust(&mut failed, 2)) <= 20_000_000);
    assert_eq!(
        kind_of(policy(3).wait_or_exhaust(&mut failed, 3)),
        Some(ErrorKind::ContentionExhausted)
    );
}

#[test]
fn only_retryable_failures_are_attempted_again() {
    let mut attempts = Attempts::new(policy(2));
    assert!(matches!(
        attempts.failed(Error::new(ErrorKind::Corruption), 1),
        AttemptEnd::Fail { error } if error.kind() == ErrorKind::Corruption
    ));
    assert!(matches!(
        attempts.failed(Error::new(ErrorKind::RetryableAbort), 1),
        AttemptEnd::Retry { .. }
    ));
    assert!(matches!(
        attempts.failed(Error::new(ErrorKind::RetryableAbort), 2),
        AttemptEnd::Fail { error } if error.kind() == ErrorKind::ContentionExhausted
    ));
}

#[test]
fn foreground_and_fixup_policies_read_their_own_attempts() {
    let config = ok(RuntimeConfig::for_parallelism(4).with_attempts(3, 5));
    assert_eq!(RetryPolicy::from_config(&config).attempts, 5);
    assert_eq!(RetryPolicy::for_fixup(&config).attempts, 3);
}

#[test]
fn creating_an_index_reserves_the_next_identity() {
    let plan = ok(plan_create(Stored::Found(6), Stored::Absent, &config()));
    match plan {
        CreatePlan::Install { high_water, manifest } => {
            assert_eq!(high_water, 7);
            assert_eq!(manifest.logical_index_id, id(7));
            assert_eq!(manifest.rotation_seed, derive_rotation_seed(id(7)));
        }
        CreatePlan::Classify { .. } => panic!("the name is free"),
    }
    assert!(matches!(
        plan_create(Stored::Absent, Stored::Found(id(3)), &config()),
        Ok(CreatePlan::Classify { id }) if id.get() == 3
    ));
    assert_eq!(
        kind_of(plan_create(Stored::Found(u64::MAX), Stored::Absent, &config())),
        Some(ErrorKind::IdExhausted)
    );
    assert_eq!(
        kind_of(plan_create(Stored::Other, Stored::Absent, &config())),
        Some(ErrorKind::Corruption)
    );
}

#[test]
fn creating_again_returns_the_matching_index() {
    let manifest = IndexManifest::active(id(2), &config());
    assert!(classify_existing(Some(manifest.clone()), &config()).is_ok());
    let other = ok(IndexConfig::new(4, Metric::L2));
    assert_eq!(
        kind_of(classify_existing(Some(manifest.clone()), &other)),
        Some(ErrorKind::IndexAlreadyExists)
    );
    let dropping = manifest.with_lifecycle(IndexLifecycle::Dropping);
    assert_eq!(
        kind_of(classify_existing(Some(dropping), &config())),
        Some(ErrorKind::IndexDropping)
    );
    assert_eq!(kind_of(classify_existing(None, &config())), Some(ErrorKind::Corruption));
}

#[test]
fn unknown_create_commits_are_recovered_and_never_retried() {
    let mut failed = 0_u32;
    assert!(matches!(
        after_create_commit(Ok(()), policy(2), &mut failed, 1),
        CreateEnd::Created
    ));
    let unknown = Err(Error::new(ErrorKind::CommitOutcomeUnknown));
    assert!(matches!(
        after_create_commit(unknown, policy(2), &mut failed, 1),
        CreateEnd::Recover
    ));
    assert_eq!(ok(recover_create(Stored::Found(id(5)))), id(5));
    assert_eq!(
        kind_of(recover_create(Stored::Absent)),
        Some(ErrorKind::CommitOutcomeUnknown)
    );
    let abort = Err(Error::new(ErrorKind::RetryableAbort));
    assert!(matches!(
        after_create_commit(abort, policy(2), &mut failed, 1),
        CreateEnd::Retry { .. }
    ));
}

#[test]
fn handles_never_retarget() {
    let handle = IndexManifest::active(id(2), &config());
    assert!(opened_manifest(Stored::Found(handle.clone()), &handle).is_ok());
    let newer = IndexManifest::active(id(3), &config());
    assert_eq!(
        kind_of(opened_manifest(Stored::Found(newer), &handle)),
        Some(ErrorKind::Corruption)
    );
    assert_eq!(
        kind_of(opened_manifest(
            Stored::Found(handle.with_lifecycle(IndexLifecycle::Dropping)),
            &handle
        )),
        Some(ErrorKind::IndexDropping)
    );
    assert_eq!(
        kind_of(opened_manifest(Stored::Absent, &handle)),
        Some(ErrorKind::IndexNotFound)
    );
    assert_eq!(kind_of(open_name(Stored::Absent)), Some(ErrorKind::IndexNotFound));
    assert_eq!(kind_of(open_manifest(None)), Some(ErrorKind::Corruption));
}

#[test]
fn drops_delete_the_manifest_last() {
    assert!(matches!(drop_name(Stored::Absent), Ok(DropPlan::Done)));
    let manifest = IndexManifest::active(id(2), &config());
    assert!(matches!(
        drop_manifest(&Some(manifest.clone())),
        Ok(DropAction::MarkDropping { manifest }) if manifest.lifecycle == IndexLifecycle::Dropping
    ));
    let dropping = manifest.with_lifecycle(IndexLifecycle::Dropping);
    assert!(matches!(drop_manifest(&Some(dropping.clone())), Ok(DropAction::Delete)));
    assert!(recheck_drop(&Some(dropping.clone()), id(2)).is_ok());
    assert!(recheck_drop(&Some(dropping), id(3)).is_err());

    match prepare_delete_step(false, &vec![true, false, false], true) {
        DropStep::Commit { clear_range, deletes, delete_manifest, complete } => {
            assert!(!clear_range);
            assert_eq!(deletes, vec![1, 2]);
            assert!(!delete_manifest);
            assert!(!complete);
        }
        DropStep::Advance => panic!("two objects can be deleted"),
    }
    match prepare_delete_step(false, &vec![true], false) {
        DropStep::Commit { deletes, delete_manifest, complete, .. } => {
            assert_eq!(deletes, Vec::<usize>::new());
            assert!(delete_manifest);
            assert!(complete);
        }
        DropStep::Advance => panic!("only the manifest is left"),
    }
    assert!(matches!(
        prepare_delete_step(true, &vec![], false),
        DropStep::Commit { clear_range: true, complete: true, .. }
    ));
    let limits = drop_scan_limits(0, 0);
    assert_eq!((limits.item_limit, limits.byte_limit), (1, 1));
}

#[test]
fn drops_settle_or_recover() {
    let mut attempts = DropAttempts::new(policy(2));
    assert!(matches!(attempts.committed(Ok(()), true, 1), DropEnd::Dropped));
    assert!(matches!(
        attempts.committed(Ok(()), false, 1),
        DropEnd::Continue { resume: DropResume::Next, wait_nanos: 0 }
    ));
    let abort = || Err(Error::new(ErrorKind::RetryableAbort));
    assert!(matches!(
        attempts.committed(abort(), false, 1),
        DropEnd::Continue { resume: DropResume::Again, .. }
    ));
    assert!(matches!(
        attempts.committed(abort(), false, 1),
        DropEnd::Fail { error } if error.kind() == ErrorKind::ContentionExhausted
    ));
    let unknown = || Err(Error::new(ErrorKind::CommitOutcomeUnknown));
    assert!(matches!(
        attempts.committed(unknown(), true, 1),
        DropEnd::Continue { resume: DropResume::Start, wait_nanos: 0 }
    ));
    assert!(matches!(attempts.committed(unknown(), true, 1), DropEnd::Recover));
    assert!(matches!(
        attempts.committed(Err(Error::new(ErrorKind::Corruption)), false, 1),
        DropEnd::Fail { error } if error.kind() == ErrorKind::Corruption
    ));
    assert!(recover_drop(Stored::Absent, false).is_ok());
}

#[test]
fn admission_failures_have_a_stable_priority() {
    let expired = Control { cancelled: true, deadline: Some(5), now: 5 };
    assert_eq!(kind_of(check_control(expired)), Some(ErrorKind::Cancelled));
    let late = Control { cancelled: false, deadline: Some(5), now: 5 };
    assert_eq!(kind_of(check_control(late)), Some(ErrorKind::DeadlineExceeded));
    let early = Control { cancelled: false, deadline: Some(5), now: 4 };
    assert!(check_control(early).is_ok());
    assert!(matches!(
        first_try(TryPermit::Acquired, free(), Phase::Accepting),
        Ok(AdmitStep::Enter)
    ));
    assert!(matches!(
        first_try(TryPermit::NoPermits, free(), Phase::Accepting),
        Ok(AdmitStep::TakeWaitingPlace)
    ));
    assert!(matches!(waiting_try(TryPermit::Acquired, free()), Ok(AdmitStep::Wait)));
    assert_eq!(
        kind_of(waiting_try(TryPermit::NoPermits, free())),
        Some(ErrorKind::LimitExceeded)
    );
    assert_eq!(
        kind_of(waiting_try(TryPermit::NoPermits, late)),
        Some(ErrorKind::DeadlineExceeded)
    );
    assert_eq!(
        kind_of(first_try(TryPermit::Closed, free(), Phase::Closing)),
        Some(ErrorKind::RuntimeClosed)
    );
    assert_eq!(
        kind_of(wait_ended(WaitEnd::Cancelled, free(), Phase::Accepting)),
        Some(ErrorKind::Cancelled)
    );
    assert_eq!(
        kind_of(wait_ended(WaitEnd::DeadlineExceeded, free(), Phase::Accepting)),
        Some(ErrorKind::DeadlineExceeded)
    );
}

#[test]
fn shutdown_rejects_new_work_and_releases_once() {
    let mut lifecycle = Lifecycle::new();
    assert!(lifecycle.is_accepting());
    assert!(lifecycle.enter(free()).is_ok());
    let start = lifecycle.begin_shutdown();
    assert!(start.started_closing);
    assert!(!start.release);
    assert_eq!(kind_of(lifecycle.enter(free())), Some(ErrorKind::RuntimeClosed));
    assert!(lifecycle.finish_operation());
    lifecycle.finish_release();
    assert_eq!(lifecycle.phase, Phase::Closed);
    let again = lifecycle.begin_shutdown();
    assert!(!again.started_closing);
    assert!(!again.release);
}

#[test]
fn an_idle_runtime_releases_at_shutdown() {
    let mut lifecycle = Lifecycle::new();
    let start = lifecycle.begin_shutdown();
    assert!(start.started_closing);
    assert!(start.release);
}

#[test]
fn commit_and_cancellation_have_one_winner() {
    let mut boundary = CommitBoundary::Open;
    assert!(boundary.start());
    assert!(!boundary.cancel());
    assert!(interrupt(&mut boundary, Interruption::Cancelled).is_none());

    let mut boundary = CommitBoundary::Open;
    assert!(boundary.cancel());
    assert!(!boundary.start());

    let mut boundary = CommitBoundary::Open;
    let error = interrupt(&mut boundary, Interruption::DeadlineExceeded).expect("interrupted");
    assert_eq!(error.kind(), ErrorKind::DeadlineExceeded);
    assert!(!boundary.start());
}

fn saturated_completion(state: &mut ImportConcurrency, clean: bool) -> Option<usize> {
    let mut registered = false;
    let mut permits: Vec<ImportPermitState> = vec![];
    while state.try_acquire(&mut registered) {
        permits.push(ImportPermitState::Active);
    }
    assert!(registered);
    let mut raised = None;
    for permit in permits.iter_mut() {
        raised = raised.or(state.finish(permit, clean));
    }
    state.cancel_wait(&mut registered);
    assert_eq!(state.active, 0);
    raised
}

#[test]
fn import_concurrency_rises_after_clean_windows_and_halves_on_contention() {
    let mut state = ImportConcurrency::new(4);
    for _ in 0..7 {
        assert_eq!(saturated_completion(&mut state, true), None);
    }
    assert_eq!(saturated_completion(&mut state, false), None);
    assert_eq!(saturated_completion(&mut state, true), Some(2));
    assert_eq!(state.limit, 2);

    let mut registered = false;
    let mut first = ImportPermitState::Active;
    let mut second = ImportPermitState::Active;
    assert!(state.try_acquire(&mut registered));
    assert!(state.try_acquire(&mut registered));
    assert_eq!(state.pause_for_contention(&mut first), Some(1));
    assert_eq!(first, ImportPermitState::WaitingRetry);
    assert_eq!(state.clean_window, 16);
    assert!(!state.try_resume(&mut first));
    assert!(!state.try_acquire(&mut registered));
    state.cancel_wait(&mut registered);
    state.finish(&mut second, true);
    assert!(state.try_resume(&mut first));
    assert_eq!(first, ImportPermitState::Active);
    assert_eq!(state.pause_for_contention(&mut first), None);
    state.finish(&mut first, false);
    assert_eq!((state.active, state.waiting_retries, state.limit), (0, 0, 1));
}

#[test]
fn import_sessions_follow_the_runtime() {
    assert_eq!(ok(session_limit(true, ImportOptions::default(), 9)), 9);
    let own = ok(ImportOptions::default().with_in_flight_batches(2));
    assert_eq!(ok(session_limit(true, own, 9)), 2);
    assert_eq!(kind_of(session_limit(false, own, 9)), Some(ErrorKind::RuntimeClosed));
    assert_eq!(ok(begin_submit(true, true)), SubmitStep::IssueEmpty);
    assert_eq!(ok(begin_submit(true, false)), SubmitStep::Acquire);
    assert_eq!(kind_of(begin_submit(false, false)), Some(ErrorKind::RuntimeClosed));
    assert_eq!(kind_of(slot_acquired(false)), Some(ErrorKind::RuntimeClosed));
    let mut tokens = TokenSequence::new();
    assert_eq!(ok(tokens.issue()).get(), 1);
    assert_eq!(ok(tokens.issue()).get(), 2);
    tokens.last = u64::MAX;
    assert!(tokens.issue().is_err());
}

fn key(partition_key: u64) -> FixupKey {
    FixupKey {
        index: id(1),
        tree_key: vec![4],
        partition: partition(partition_key),
    }
}

#[test]
fn split_followups_keep_the_backlog_closed() {
    let mut queue = FixupQueue::new(64);
    assert_eq!(queue.offer(key(1), 0), FixupAdmission::Enqueued);
    let running = queue.pop().expect("running split");
    assert_eq!(backlog_gate(&queue, 1, false), BacklogGate::Wait);
    let release = release_running(
        &mut queue,
        &running,
        false,
        false,
        true,
        Some(SplitFollowups { left: partition(2), right: partition(3), parent: Some(partition(9)) }),
        1,
    );
    assert!(!release.yielded);
    assert_eq!(release.admissions.enqueued, 3);
    assert!(!release.open_gate);
    assert_eq!(backlog_gate(&queue, 1, false), BacklogGate::Wait);
    assert_eq!(backlog_gate(&queue, 1, true), BacklogGate::MaintenanceCancelled);
    for _ in 0..3 {
        let offer = queue.pop().expect("follow-up");
        let release = release_running(&mut queue, &offer, false, false, true, None, 1);
        assert_eq!(release.admissions.enqueued, 0);
    }
    assert_eq!(backlog_gate(&queue, 1, false), BacklogGate::Open);
    assert!(ok(import_gate_result(BacklogGate::Open)));
    assert!(!ok(import_gate_result(BacklogGate::Wait)));
    assert_eq!(
        kind_of(import_gate_result(BacklogGate::MaintenanceCancelled)),
        Some(ErrorKind::RuntimeClosed)
    );
}

#[test]
fn yielded_fixups_keep_their_slot() {
    let mut queue = FixupQueue::new(1);
    assert_eq!(queue.offer(key(1), 0), FixupAdmission::Enqueued);
    let running = queue.pop().expect("running");
    let release = release_running(&mut queue, &running, true, false, true, None, 4);
    assert!(release.yielded);
    assert_eq!(queue.admitted_len(), 1);
    assert_eq!(queue.offer(key(2), 0), FixupAdmission::Saturated);
    assert_eq!(queue.pop().expect("again").key.partition, partition(1));
}

#[test]
fn offers_need_workers_and_an_accepting_runtime() {
    let mut queue = FixupQueue::new(8);
    let keys = vec![key(1), key(2), key(1)];
    assert!(offer_fixups(&mut queue, 0, true, &keys, 0).is_none());
    assert!(offer_fixups(&mut queue, 2, false, &keys, 0).is_none());
    let admissions = offer_fixups(&mut queue, 2, true, &keys, 0).expect("offered");
    assert_eq!(
        (admissions.enqueued, admissions.duplicate, admissions.saturated),
        (2, 1, 0)
    );
}

#[test]
fn a_driven_fixup_yields_after_its_attempts() {
    let mut drive = Drive::new(2);
    assert!(drive.begin_step(false).is_none());
    let began = StepOutcome::Merge(Some(merge::Advance::Began));
    assert!(drive.finish_step(began).is_none());
    assert!(drive.begin_step(false).is_none());
    assert!(drive.finish_step(began).is_none());
    assert_eq!(drive.begin_step(false).expect("ended").execution, FixupExecution::Yielded);
    assert_eq!(
        Drive::new(2).begin_step(true).expect("cancelled").execution,
        FixupExecution::Retired
    );
    let settled = drive.finish_step(StepOutcome::Idle).expect("settled");
    assert_eq!(settled.execution, FixupExecution::Settled);
    let stalled = drive.finish_step(StepOutcome::Merge(Some(merge::Advance::Stalled)));
    assert_eq!(stalled.expect("stalled").execution, FixupExecution::Stalled);
    let retired = drive.finish_step(StepOutcome::Failed);
    assert_eq!(retired.expect("retired").execution, FixupExecution::Retired);
}

#[test]
fn step_results_are_observed_without_identities() {
    assert_eq!(observe_split_step(None), Some(FixupStepResult::Failed));
    assert_eq!(observe_split_step(Some(split::Advance::Idle)), Some(FixupStepResult::Idle));
    assert_eq!(observe_merge_step(None), Some(FixupStepResult::Failed));
    assert_eq!(
        observe_merge_step(Some(merge::Advance::Stalled)),
        Some(FixupStepResult::Stalled)
    );
}

#[test]
fn reads_show_a_payload_only_when_asked() {
    let group = |payload: Option<Vec<u8>>| RecordGroup {
        id: vec![1],
        vector: vec![Float32 { bits: 0 }],
        fields: vec![],
        payload,
    };
    let hidden = stored_record(false, group(Some(vec![7])));
    assert!(matches!(hidden.payload(), PayloadProjection::NotLoaded));
    let shown = stored_record(true, group(Some(vec![7])));
    assert!(matches!(shown.payload(), PayloadProjection::Present(bytes) if bytes == &vec![7]));
    let absent = stored_record(true, group(None));
    assert!(matches!(absent.payload(), PayloadProjection::Absent));
    assert_eq!(absent.id(), &vec![1]);
}

#[test]
fn search_outcomes_report_every_exhausted_dimension() {
    let hit = ok(SearchHit::new(vec![1], Float64 { bits: 1.0_f64.to_bits() }));
    let outcome = search_outcome(
        vec![hit],
        SearchStages {
            scanned_tree_keys: 1,
            tree_keys_exhausted: false,
            visited_partitions: 2,
            partitions_exhausted: true,
            visited_leaf_entries: 3,
            leaf_entries_exhausted: false,
            overlap_truncated: true,
            selection_truncated: true,
            exact_rerank_candidates: 4,
            rerank_exhausted: false,
        },
    );
    assert_eq!(outcome.hits.len(), 1);
    assert_eq!(outcome.usage.visited_partitions, 2);
    assert_eq!(outcome.usage.exact_rerank_candidates, 4);
    assert!(outcome.exhausted.visited_partitions);
    assert!(outcome.exhausted.exact_rerank_candidates);
    assert!(!outcome.exhausted.scanned_tree_keys);
    assert!(outcome.rabitq_overlap_truncated);
}
