use ktann::api::error::{Error, ErrorKind};
use ktann::api::identifiers::{LogicalIndexId, PartitionKey};
use ktann::api::search::{SearchBudgetExhaustion, SearchBudgetUsage};
use ktann::api::verify::{
    VerifyIssue, VerifyIssueKind, VerifyObjectCounts, VerifyPartitionStateCounts, VerifyReport,
    VerifyTopology,
};
use ktann::observe::labels::{
    cache_level, error_kind, verify_issue, BudgetDimension, CacheInstallResult, CacheLookupResult,
    FixupAdmission, FixupExecution, FixupKind, ImportGate, Operation, OperationOutcome,
    PartitionKind, VerifyCompletion,
};
use ktann::observe::samples::{completion, issue_count, search_budget, state_age_millis};

fn assert_bounded(values: &[&'static str]) {
    let mut sorted = values.to_vec();
    sorted.sort_unstable();
    for window in sorted.windows(2) {
        assert_ne!(window[0], window[1], "duplicate label value");
    }
    for value in values {
        assert!(!value.is_empty());
        assert!(
            value
                .bytes()
                .all(|byte| byte.is_ascii_lowercase() || byte == b'_'),
            "label value {value:?} is not snake_case"
        );
    }
}

#[test]
fn label_values_are_bounded_snake_case() {
    assert_bounded(&[
        Operation::CreateIndex.as_str(),
        Operation::OpenIndex.as_str(),
        Operation::DropIndex.as_str(),
        Operation::Insert.as_str(),
        Operation::Upsert.as_str(),
        Operation::Delete.as_str(),
        Operation::BatchMutate.as_str(),
        Operation::Get.as_str(),
        Operation::BatchGet.as_str(),
        Operation::Search.as_str(),
        Operation::Verify.as_str(),
        Operation::SplitFixup.as_str(),
        Operation::MergeFixup.as_str(),
    ]);
    assert_bounded(&[
        OperationOutcome::Success.as_str(),
        error_kind(ErrorKind::InvalidArgument),
        error_kind(ErrorKind::IndexAlreadyExists),
        error_kind(ErrorKind::IndexNotFound),
        error_kind(ErrorKind::IndexDropping),
        error_kind(ErrorKind::RecordAlreadyExists),
        error_kind(ErrorKind::UnsupportedFormat),
        error_kind(ErrorKind::Unsupported),
        error_kind(ErrorKind::TransactionTooLarge),
        error_kind(ErrorKind::LimitExceeded),
        error_kind(ErrorKind::ContentionExhausted),
        error_kind(ErrorKind::RetryableAbort),
        error_kind(ErrorKind::CommitOutcomeUnknown),
        error_kind(ErrorKind::IdExhausted),
        error_kind(ErrorKind::DeadlineExceeded),
        error_kind(ErrorKind::Cancelled),
        error_kind(ErrorKind::RuntimeClosed),
        error_kind(ErrorKind::Backend),
        error_kind(ErrorKind::Other),
        error_kind(ErrorKind::Corruption),
    ]);
    assert_bounded(&[
        BudgetDimension::ScannedTreeKeys.as_str(),
        BudgetDimension::VisitedPartitions.as_str(),
        BudgetDimension::VisitedLeafEntries.as_str(),
        BudgetDimension::ExactRerankCandidates.as_str(),
        cache_level(PartitionKind::Leaf),
        cache_level(PartitionKind::Internal),
        CacheLookupResult::Hit.as_str(),
        CacheLookupResult::StaleMiss.as_str(),
        CacheLookupResult::Miss.as_str(),
        CacheInstallResult::Installed.as_str(),
        CacheInstallResult::SkippedOversized.as_str(),
        CacheInstallResult::SkippedStale.as_str(),
        FixupKind::Split.as_str(),
        FixupKind::Merge.as_str(),
        FixupAdmission::Enqueued.as_str(),
        FixupAdmission::Duplicate.as_str(),
        FixupAdmission::Saturated.as_str(),
        FixupExecution::Settled.as_str(),
        FixupExecution::Stalled.as_str(),
        FixupExecution::Retired.as_str(),
        ImportGate::InFlightSlot.as_str(),
        ImportGate::Backlog.as_str(),
        VerifyCompletion::Complete.as_str(),
        VerifyCompletion::Incomplete.as_str(),
        verify_issue(VerifyIssueKind::InvalidEncoding),
        verify_issue(VerifyIssueKind::Reachability),
        verify_issue(VerifyIssueKind::Membership),
        verify_issue(VerifyIssueKind::CountMismatch),
        verify_issue(VerifyIssueKind::RecordProjectionMismatch),
        verify_issue(VerifyIssueKind::SynopsisNotConservative),
    ]);
}

#[test]
fn outcome_classification_reads_the_error_kind() {
    let ok: Result<(), Error> = Ok(());
    assert_eq!(OperationOutcome::from_result(&ok), OperationOutcome::Success);
    let err: Result<(), Error> = Err(Error::new(ErrorKind::Corruption));
    assert_eq!(OperationOutcome::from_result(&err).as_str(), "corruption");
}

fn present<T>(result: Result<T, Error>) -> T {
    match result {
        Ok(value) => value,
        Err(error) => panic!("{}", error.describe()),
    }
}

#[test]
fn samples_carry_bounded_labels() {
    let mut labels = vec![
        Operation::Search.as_str(),
        OperationOutcome::Success.as_str(),
        Operation::SplitFixup.as_str(),
        cache_level(PartitionKind::Leaf),
        CacheLookupResult::Hit.as_str(),
        cache_level(PartitionKind::Internal),
        CacheInstallResult::SkippedStale.as_str(),
        FixupAdmission::Duplicate.as_str(),
        FixupExecution::Settled.as_str(),
        FixupKind::Split.as_str(),
        ImportGate::Backlog.as_str(),
    ];
    let samples = search_budget(
        &SearchBudgetUsage {
            scanned_tree_keys: 4,
            visited_partitions: 2,
            visited_leaf_entries: 9,
            exact_rerank_candidates: 1,
        },
        &SearchBudgetExhaustion {
            scanned_tree_keys: true,
            visited_partitions: false,
            visited_leaf_entries: false,
            exact_rerank_candidates: false,
        },
    );
    labels.extend(samples.iter().map(|sample| sample.dimension.as_str()));
    assert_eq!(samples.len(), 4);
    assert_eq!(samples.iter().filter(|sample| sample.prevented).count(), 1);
    assert_eq!(state_age_millis(7_000, 1_000), 6_000);
    let report = VerifyReport {
        complete: false,
        issues: vec![VerifyIssue {
            kind: VerifyIssueKind::Membership,
            logical_index_id: present(LogicalIndexId::new(7)),
            tree_key_hash: [7; 32],
            partition_key: present(PartitionKey::new(1)),
            record_id: None,
        }],
        objects: VerifyObjectCounts {
            total: 0,
            vector_records: 0,
            record_locations: 0,
            partitions: 0,
            entries: 0,
        },
        topology: VerifyTopology {
            trees: 0,
            partitions: 0,
            max_level: None,
            partitions_by_level: Default::default(),
            entries_by_level: Default::default(),
            max_entries_by_level: Default::default(),
            partition_states: VerifyPartitionStateCounts {
                ready: 0,
                splitting: 0,
                receiving_split: 0,
                draining_split: 0,
                merging: 0,
            },
            actionable_partitions: 0,
        },
    };
    labels.push(completion(&report).as_str());
    assert_eq!(issue_count(&report, VerifyIssueKind::Membership), 1);
    assert_eq!(issue_count(&report, VerifyIssueKind::Reachability), 0);
    labels.push(verify_issue(VerifyIssueKind::Membership));
    assert_bounded(&labels);
}
