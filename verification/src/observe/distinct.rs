//! Distinctness of metric labels: the label of a value tells the value.

use vstd::prelude::*;

use crate::api::error::ErrorKind;
use crate::api::verify::VerifyIssueKind;
use crate::observe::labels::{cache_level_text, error_kind_text, verify_issue_text, BudgetDimension, CacheInstallResult, CacheLookupResult, FixupAdmission, FixupExecution, FixupKind, ImportGate, Operation, OperationOutcome, PartitionKind, VerifyCompletion};

verus! {

proof fn operations_are_distinct(a: Operation, b: Operation)
    ensures
        a.text().len() > 0,
        a.text() == b.text() ==> a == b,
{
    reveal_strlit("create_index");
    assert("create_index"@.len() == 12 && "create_index"@[0] == 'c');
    reveal_strlit("open_index");
    assert("open_index"@.len() == 10 && "open_index"@[0] == 'o');
    reveal_strlit("drop_index");
    assert("drop_index"@.len() == 10 && "drop_index"@[0] == 'd');
    reveal_strlit("insert");
    assert("insert"@.len() == 6 && "insert"@[0] == 'i');
    reveal_strlit("upsert");
    assert("upsert"@.len() == 6 && "upsert"@[0] == 'u');
    reveal_strlit("delete");
    assert("delete"@.len() == 6 && "delete"@[0] == 'd');
    reveal_strlit("batch_mutate");
    assert("batch_mutate"@.len() == 12 && "batch_mutate"@[0] == 'b');
    reveal_strlit("get");
    assert("get"@.len() == 3 && "get"@[0] == 'g');
    reveal_strlit("batch_get");
    assert("batch_get"@.len() == 9 && "batch_get"@[0] == 'b');
    reveal_strlit("search");
    assert("search"@.len() == 6 && "search"@[0] == 's');
    reveal_strlit("verify");
    assert("verify"@.len() == 6 && "verify"@[0] == 'v');
    reveal_strlit("split_fixup");
    assert("split_fixup"@.len() == 11 && "split_fixup"@[0] == 's');
    reveal_strlit("merge_fixup");
    assert("merge_fixup"@.len() == 11 && "merge_fixup"@[0] == 'm');
    if a.text() =~= b.text() {
        assert(a.text()[0] == b.text()[0]);
    }
}

proof fn error_kinds_are_distinct(a: ErrorKind, b: ErrorKind)
    ensures
        error_kind_text(a).len() > 0,
        error_kind_text(a) == error_kind_text(b) ==> a == b,
{
    reveal_strlit("invalid_argument");
    assert("invalid_argument"@.len() == 16 && "invalid_argument"@[0] == 'i');
    reveal_strlit("index_already_exists");
    assert("index_already_exists"@.len() == 20 && "index_already_exists"@[0] == 'i');
    reveal_strlit("index_not_found");
    assert("index_not_found"@.len() == 15 && "index_not_found"@[0] == 'i');
    reveal_strlit("index_dropping");
    assert("index_dropping"@.len() == 14 && "index_dropping"@[0] == 'i');
    reveal_strlit("record_already_exists");
    assert("record_already_exists"@.len() == 21 && "record_already_exists"@[0] == 'r');
    reveal_strlit("unsupported_format");
    assert("unsupported_format"@.len() == 18 && "unsupported_format"@[0] == 'u');
    reveal_strlit("unsupported");
    assert("unsupported"@.len() == 11 && "unsupported"@[0] == 'u');
    reveal_strlit("transaction_too_large");
    assert("transaction_too_large"@.len() == 21 && "transaction_too_large"@[0] == 't');
    reveal_strlit("limit_exceeded");
    assert("limit_exceeded"@.len() == 14 && "limit_exceeded"@[0] == 'l');
    reveal_strlit("contention_exhausted");
    assert("contention_exhausted"@.len() == 20 && "contention_exhausted"@[0] == 'c');
    reveal_strlit("retryable_abort");
    assert("retryable_abort"@.len() == 15 && "retryable_abort"@[0] == 'r');
    reveal_strlit("commit_outcome_unknown");
    assert("commit_outcome_unknown"@.len() == 22 && "commit_outcome_unknown"@[0] == 'c');
    reveal_strlit("id_exhausted");
    assert("id_exhausted"@.len() == 12 && "id_exhausted"@[0] == 'i');
    reveal_strlit("deadline_exceeded");
    assert("deadline_exceeded"@.len() == 17 && "deadline_exceeded"@[0] == 'd');
    reveal_strlit("cancelled");
    assert("cancelled"@.len() == 9 && "cancelled"@[0] == 'c');
    reveal_strlit("runtime_closed");
    assert("runtime_closed"@.len() == 14 && "runtime_closed"@[0] == 'r');
    reveal_strlit("backend");
    assert("backend"@.len() == 7 && "backend"@[0] == 'b');
    reveal_strlit("other");
    assert("other"@.len() == 5 && "other"@[0] == 'o');
    reveal_strlit("corruption");
    assert("corruption"@.len() == 10 && "corruption"@[0] == 'c');
    if error_kind_text(a) =~= error_kind_text(b) {
        assert(error_kind_text(a)[0] == error_kind_text(b)[0]);
    }
}

proof fn dimensions_are_distinct(a: BudgetDimension, b: BudgetDimension)
    ensures
        a.text().len() > 0,
        a.text() == b.text() ==> a == b,
{
    reveal_strlit("scanned_tree_keys");
    reveal_strlit("visited_partitions");
    reveal_strlit("visited_leaf_entries");
    reveal_strlit("exact_rerank_candidates");
    if a.text() =~= b.text() {
        assert(a.text()[0] == b.text()[0]);
    }
}

proof fn levels_are_distinct(a: PartitionKind, b: PartitionKind)
    ensures
        cache_level_text(a).len() > 0,
        cache_level_text(a) == cache_level_text(b) ==> a == b,
{
    reveal_strlit("leaf");
    reveal_strlit("internal");
    if cache_level_text(a) =~= cache_level_text(b) {
        assert(cache_level_text(a)[0] == cache_level_text(b)[0]);
    }
}

proof fn lookups_are_distinct(a: CacheLookupResult, b: CacheLookupResult)
    ensures
        a.text().len() > 0,
        a.text() == b.text() ==> a == b,
{
    reveal_strlit("hit");
    reveal_strlit("stale_miss");
    reveal_strlit("miss");
    if a.text() =~= b.text() {
        assert(a.text()[0] == b.text()[0]);
    }
}

proof fn installs_are_distinct(a: CacheInstallResult, b: CacheInstallResult)
    ensures
        a.text().len() > 0,
        a.text() == b.text() ==> a == b,
{
    reveal_strlit("installed");
    reveal_strlit("skipped_oversized");
    reveal_strlit("skipped_stale");
    if a.text() =~= b.text() {
        assert(a.text()[0] == b.text()[0]);
    }
}

proof fn kinds_are_distinct(a: FixupKind, b: FixupKind)
    ensures
        a.text().len() > 0,
        a.text() == b.text() ==> a == b,
{
    reveal_strlit("split");
    reveal_strlit("merge");
    if a.text() =~= b.text() {
        assert(a.text()[0] == b.text()[0]);
    }
}

proof fn admissions_are_distinct(a: FixupAdmission, b: FixupAdmission)
    ensures
        a.text().len() > 0,
        a.text() == b.text() ==> a == b,
{
    reveal_strlit("enqueued");
    reveal_strlit("duplicate");
    reveal_strlit("saturated");
    if a.text() =~= b.text() {
        assert(a.text()[0] == b.text()[0]);
    }
}

proof fn executions_are_distinct(a: FixupExecution, b: FixupExecution)
    ensures
        a.text().len() > 0,
        a.text() == b.text() ==> a == b,
{
    reveal_strlit("settled");
    reveal_strlit("stalled");
    reveal_strlit("yielded");
    reveal_strlit("retired");
    if a.text() =~= b.text() {
        assert(a.text()[0] == b.text()[0]);
        assert(a.text()[1] == b.text()[1]);
    }
}

proof fn gates_are_distinct(a: ImportGate, b: ImportGate)
    ensures
        a.text().len() > 0,
        a.text() == b.text() ==> a == b,
{
    reveal_strlit("in_flight_slot");
    reveal_strlit("backlog");
    if a.text() =~= b.text() {
        assert(a.text()[0] == b.text()[0]);
    }
}

proof fn completions_are_distinct(a: VerifyCompletion, b: VerifyCompletion)
    ensures
        a.text().len() > 0,
        a.text() == b.text() ==> a == b,
{
    reveal_strlit("complete");
    reveal_strlit("incomplete");
    if a.text() =~= b.text() {
        assert(a.text()[0] == b.text()[0]);
    }
}

proof fn issues_are_distinct(a: VerifyIssueKind, b: VerifyIssueKind)
    ensures
        verify_issue_text(a).len() > 0,
        verify_issue_text(a) == verify_issue_text(b) ==> a == b,
{
    reveal_strlit("invalid_encoding");
    reveal_strlit("reachability");
    reveal_strlit("membership");
    reveal_strlit("count_mismatch");
    reveal_strlit("record_projection_mismatch");
    reveal_strlit("synopsis_not_conservative");
    if verify_issue_text(a) =~= verify_issue_text(b) {
        assert(verify_issue_text(a)[0] == verify_issue_text(b)[0]);
    }
}

proof fn outcomes_are_distinct(a: OperationOutcome, b: OperationOutcome)
    ensures
        a.text().len() > 0,
        a.text() == b.text() ==> a == b,
{
    reveal_strlit("ok");
    reveal_strlit("invalid_argument");
    assert("invalid_argument"@.len() == 16);
    reveal_strlit("index_already_exists");
    assert("index_already_exists"@.len() == 20);
    reveal_strlit("index_not_found");
    assert("index_not_found"@.len() == 15);
    reveal_strlit("index_dropping");
    assert("index_dropping"@.len() == 14);
    reveal_strlit("record_already_exists");
    assert("record_already_exists"@.len() == 21);
    reveal_strlit("unsupported_format");
    assert("unsupported_format"@.len() == 18);
    reveal_strlit("unsupported");
    assert("unsupported"@.len() == 11);
    reveal_strlit("transaction_too_large");
    assert("transaction_too_large"@.len() == 21);
    reveal_strlit("limit_exceeded");
    assert("limit_exceeded"@.len() == 14);
    reveal_strlit("contention_exhausted");
    assert("contention_exhausted"@.len() == 20);
    reveal_strlit("retryable_abort");
    assert("retryable_abort"@.len() == 15);
    reveal_strlit("commit_outcome_unknown");
    assert("commit_outcome_unknown"@.len() == 22);
    reveal_strlit("id_exhausted");
    assert("id_exhausted"@.len() == 12);
    reveal_strlit("deadline_exceeded");
    assert("deadline_exceeded"@.len() == 17);
    reveal_strlit("cancelled");
    assert("cancelled"@.len() == 9);
    reveal_strlit("runtime_closed");
    assert("runtime_closed"@.len() == 14);
    reveal_strlit("backend");
    assert("backend"@.len() == 7);
    reveal_strlit("other");
    assert("other"@.len() == 5);
    reveal_strlit("corruption");
    assert("corruption"@.len() == 10);
    match (a, b) {
        (OperationOutcome::Error(first), OperationOutcome::Error(second)) => {
            error_kinds_are_distinct(first, second);
        },
        (OperationOutcome::Error(kind), OperationOutcome::Success) => {
            assert(error_kind_text(kind).len() > 2);
        },
        (OperationOutcome::Success, OperationOutcome::Error(kind)) => {
            assert(error_kind_text(kind).len() > 2);
        },
        _ => {},
    }
}

/// A label tells the value it stands for: two values of one kind have the same
/// label only when they are the same, and no label is empty.
pub proof fn labels_are_distinct(
    operations: (Operation, Operation),
    outcomes: (OperationOutcome, OperationOutcome),
    dimensions: (BudgetDimension, BudgetDimension),
    levels: (PartitionKind, PartitionKind),
    lookups: (CacheLookupResult, CacheLookupResult),
    installs: (CacheInstallResult, CacheInstallResult),
    kinds: (FixupKind, FixupKind),
    admissions: (FixupAdmission, FixupAdmission),
    executions: (FixupExecution, FixupExecution),
    gates: (ImportGate, ImportGate),
    completions: (VerifyCompletion, VerifyCompletion),
    issues: (VerifyIssueKind, VerifyIssueKind),
)
    ensures
        operations.0.text().len() > 0,
        operations.0.text() == operations.1.text() ==> operations.0 == operations.1,
        outcomes.0.text().len() > 0,
        outcomes.0.text() == outcomes.1.text() ==> outcomes.0 == outcomes.1,
        dimensions.0.text().len() > 0,
        dimensions.0.text() == dimensions.1.text() ==> dimensions.0 == dimensions.1,
        cache_level_text(levels.0).len() > 0,
        cache_level_text(levels.0) == cache_level_text(levels.1) ==> levels.0 == levels.1,
        lookups.0.text().len() > 0,
        lookups.0.text() == lookups.1.text() ==> lookups.0 == lookups.1,
        installs.0.text().len() > 0,
        installs.0.text() == installs.1.text() ==> installs.0 == installs.1,
        kinds.0.text().len() > 0,
        kinds.0.text() == kinds.1.text() ==> kinds.0 == kinds.1,
        admissions.0.text().len() > 0,
        admissions.0.text() == admissions.1.text() ==> admissions.0 == admissions.1,
        executions.0.text().len() > 0,
        executions.0.text() == executions.1.text() ==> executions.0 == executions.1,
        gates.0.text().len() > 0,
        gates.0.text() == gates.1.text() ==> gates.0 == gates.1,
        completions.0.text().len() > 0,
        completions.0.text() == completions.1.text() ==> completions.0 == completions.1,
        verify_issue_text(issues.0).len() > 0,
        verify_issue_text(issues.0) == verify_issue_text(issues.1) ==> issues.0 == issues.1,
{
    operations_are_distinct(operations.0, operations.1);
    outcomes_are_distinct(outcomes.0, outcomes.1);
    dimensions_are_distinct(dimensions.0, dimensions.1);
    levels_are_distinct(levels.0, levels.1);
    lookups_are_distinct(lookups.0, lookups.1);
    installs_are_distinct(installs.0, installs.1);
    kinds_are_distinct(kinds.0, kinds.1);
    admissions_are_distinct(admissions.0, admissions.1);
    executions_are_distinct(executions.0, executions.1);
    gates_are_distinct(gates.0, gates.1);
    completions_are_distinct(completions.0, completions.1);
    issues_are_distinct(issues.0, issues.1);
}

} // verus!
