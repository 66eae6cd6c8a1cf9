//! Bounded label values: every metric label and trace field is one of these
//! closed enums, and none of them holds caller data.

use vstd::prelude::*;

use crate::api::error::{Error, ErrorKind, Result};
use crate::api::verify::VerifyIssueKind;

verus! {

/// One observed foreground operation or maintenance write step.
#[derive(Clone, Copy, Debug, PartialEq, Eq, Structural)]
pub enum Operation {
    /// Creating an index.
    CreateIndex,
    /// Opening an index.
    OpenIndex,
    /// Dropping an index.
    DropIndex,
    /// Inserting a record.
    Insert,
    /// Upserting a record.
    Upsert,
    /// Deleting a record.
    Delete,
    /// Applying a mutation batch, an import batch included.
    BatchMutate,
    /// Reading a record.
    Get,
    /// Reading records.
    BatchGet,
    /// Searching.
    Search,
    /// Verifying.
    Verify,
    /// One split write step.
    SplitFixup,
    /// One merge write step.
    MergeFixup,
}

impl Operation {
    /// The text of [`Operation::as_str`].
    pub open spec fn text(self) -> Seq<char> {
        match self {
            Operation::CreateIndex => "create_index"@,
            Operation::OpenIndex => "open_index"@,
            Operation::DropIndex => "drop_index"@,
            Operation::Insert => "insert"@,
            Operation::Upsert => "upsert"@,
            Operation::Delete => "delete"@,
            Operation::BatchMutate => "batch_mutate"@,
            Operation::Get => "get"@,
            Operation::BatchGet => "batch_get"@,
            Operation::Search => "search"@,
            Operation::Verify => "verify"@,
            Operation::SplitFixup => "split_fixup"@,
            Operation::MergeFixup => "merge_fixup"@,
        }
    }

    /// Returns the bounded label value.
    pub fn as_str(self) -> (res: &'static str)
        ensures
            res@ == self.text(),
    {
        match self {
            Operation::CreateIndex => "create_index",
            Operation::OpenIndex => "open_index",
            Operation::DropIndex => "drop_index",
            Operation::Insert => "insert",
            Operation::Upsert => "upsert",
            Operation::Delete => "delete",
            Operation::BatchMutate => "batch_mutate",
            Operation::Get => "get",
            Operation::BatchGet => "batch_get",
            Operation::Search => "search",
            Operation::Verify => "verify",
            Operation::SplitFixup => "split_fixup",
            Operation::MergeFixup => "merge_fixup",
        }
    }
}

/// The text of [`error_kind`].
pub open spec fn error_kind_text(kind: ErrorKind) -> Seq<char> {
    match kind {
        ErrorKind::InvalidArgument => "invalid_argument"@,
        ErrorKind::IndexAlreadyExists => "index_already_exists"@,
        ErrorKind::IndexNotFound => "index_not_found"@,
        ErrorKind::IndexDropping => "index_dropping"@,
        ErrorKind::RecordAlreadyExists => "record_already_exists"@,
        ErrorKind::UnsupportedFormat => "unsupported_format"@,
        ErrorKind::Unsupported => "unsupported"@,
        ErrorKind::TransactionTooLarge => "transaction_too_large"@,
        ErrorKind::LimitExceeded => "limit_exceeded"@,
        ErrorKind::ContentionExhausted => "contention_exhausted"@,
        ErrorKind::RetryableAbort => "retryable_abort"@,
        ErrorKind::CommitOutcomeUnknown => "commit_outcome_unknown"@,
        ErrorKind::IdExhausted => "id_exhausted"@,
        ErrorKind::DeadlineExceeded => "deadline_exceeded"@,
        ErrorKind::Cancelled => "cancelled"@,
        ErrorKind::RuntimeClosed => "runtime_closed"@,
        ErrorKind::Backend => "backend"@,
        ErrorKind::Other => "other"@,
        ErrorKind::Corruption => "corruption"@,
    }
}

/// Returns the bounded label value of one stable error category.
pub fn error_kind(kind: ErrorKind) -> (res: &'static str)
    ensures
        res@ == error_kind_text(kind),
{
    match kind {
        ErrorKind::InvalidArgument => "invalid_argument",
        ErrorKind::IndexAlreadyExists => "index_already_exists",
        ErrorKind::IndexNotFound => "index_not_found",
        ErrorKind::IndexDropping => "index_dropping",
        ErrorKind::RecordAlreadyExists => "record_already_exists",
        ErrorKind::UnsupportedFormat => "unsupported_format",
        ErrorKind::Unsupported => "unsupported",
        ErrorKind::TransactionTooLarge => "transaction_too_large",
        ErrorKind::LimitExceeded => "limit_exceeded",
        ErrorKind::ContentionExhausted => "contention_exhausted",
        ErrorKind::RetryableAbort => "retryable_abort",
        ErrorKind::CommitOutcomeUnknown => "commit_outcome_unknown",
        ErrorKind::IdExhausted => "id_exhausted",
        ErrorKind::DeadlineExceeded => "deadline_exceeded",
        ErrorKind::Cancelled => "cancelled",
        ErrorKind::RuntimeClosed => "runtime_closed",
        ErrorKind::Backend => "backend",
        ErrorKind::Other => "other",
        ErrorKind::Corruption => "corruption",
    }
}

/// The outcome of one operation: success or the stable error category.
#[derive(Clone, Copy, Debug, PartialEq, Eq, Structural)]
pub enum OperationOutcome {
    /// The operation succeeded.
    Success,
    /// The operation failed.
    Error(ErrorKind),
}

impl OperationOutcome {
    /// The text of [`OperationOutcome::as_str`].
    pub open spec fn text(self) -> Seq<char> {
        match self {
            OperationOutcome::Success => "ok"@,
            OperationOutcome::Error(kind) => error_kind_text(kind),
        }
    }

    /// Classifies one operation result.
    pub fn from_result<T>(result: &Result<T>) -> (res: Self)
        ensures
            res == match *result {
                Ok(_) => OperationOutcome::Success,
                Err(error) => OperationOutcome::Error(error@.kind),
            },
    {
        match result {
            Ok(_) => OperationOutcome::Success,
            Err(error) => OperationOutcome::Error(error.kind()),
        }
    }

    /// Returns the bounded label value.
    pub fn as_str(self) -> (res: &'static str)
        ensures
            res@ == self.text(),
    {
        match self {
            OperationOutcome::Success => "ok",
            OperationOutcome::Error(kind) => error_kind(kind),
        }
    }
}

/// One Search Budget dimension.
#[derive(Clone, Copy, Debug, PartialEq, Eq, Structural)]
pub enum BudgetDimension {
    /// Tree Keys decoded and checked.
    ScannedTreeKeys,
    /// Distinct partition bodies visited.
    VisitedPartitions,
    /// Leaf Entries considered.
    VisitedLeafEntries,
    /// Vector Records reranked.
    ExactRerankCandidates,
}

impl BudgetDimension {
    /// The text of [`BudgetDimension::as_str`].
    pub open spec fn text(self) -> Seq<char> {
        match self {
            BudgetDimension::ScannedTreeKeys => "scanned_tree_keys"@,
            BudgetDimension::VisitedPartitions => "visited_partitions"@,
            BudgetDimension::VisitedLeafEntries => "visited_leaf_entries"@,
            BudgetDimension::ExactRerankCandidates => "exact_rerank_candidates"@,
        }
    }

    /// Returns the bounded label value.
    pub fn as_str(self) -> (res: &'static str)
        ensures
            res@ == self.text(),
    {
        match self {
            BudgetDimension::ScannedTreeKeys => "scanned_tree_keys",
            BudgetDimension::VisitedPartitions => "visited_partitions",
            BudgetDimension::VisitedLeafEntries => "visited_leaf_entries",
            BudgetDimension::ExactRerankCandidates => "exact_rerank_candidates",
        }
    }
}

/// The kind of a cached partition body.
#[derive(Clone, Copy, Debug, PartialEq, Eq, Structural)]
pub enum PartitionKind {
    /// A leaf body.
    Leaf,
    /// An internal body.
    Internal,
}

/// The text of [`cache_level`].
pub open spec fn cache_level_text(kind: PartitionKind) -> Seq<char> {
    match kind {
        PartitionKind::Leaf => "leaf"@,
        PartitionKind::Internal => "internal"@,
    }
}

/// Returns the bounded label value of one Partition Cache level.
pub fn cache_level(kind: PartitionKind) -> (res: &'static str)
    ensures
        res@ == cache_level_text(kind),
{
    match kind {
        PartitionKind::Leaf => "leaf",
        PartitionKind::Internal => "internal",
    }
}

/// The result of one Partition Cache lookup.
#[derive(Clone, Copy, Debug, PartialEq, Eq, Structural)]
pub enum CacheLookupResult {
    /// The cached body matched.
    Hit,
    /// A cached older epoch was evicted.
    StaleMiss,
    /// Nothing usable was cached.
    Miss,
}

impl CacheLookupResult {
    /// The text of [`CacheLookupResult::as_str`].
    pub open spec fn text(self) -> Seq<char> {
        match self {
            CacheLookupResult::Hit => "hit"@,
            CacheLookupResult::StaleMiss => "stale_miss"@,
            CacheLookupResult::Miss => "miss"@,
        }
    }

    /// Returns the bounded label value.
    pub fn as_str(self) -> (res: &'static str)
        ensures
            res@ == self.text(),
    {
        match self {
            CacheLookupResult::Hit => "hit",
            CacheLookupResult::StaleMiss => "stale_miss",
            CacheLookupResult::Miss => "miss",
        }
    }
}

/// The result of one Partition Cache install.
#[derive(Clone, Copy, Debug, PartialEq, Eq, Structural)]
pub enum CacheInstallResult {
    /// The body was published.
    Installed,
    /// The body exceeded the capacity.
    SkippedOversized,
    /// A newer epoch was already published.
    SkippedStale,
}

impl CacheInstallResult {
    /// The text of [`CacheInstallResult::as_str`].
    pub open spec fn text(self) -> Seq<char> {
        match self {
            CacheInstallResult::Installed => "installed"@,
            CacheInstallResult::SkippedOversized => "skipped_oversized"@,
            CacheInstallResult::SkippedStale => "skipped_stale"@,
        }
    }

    /// Returns the bounded label value.
    pub fn as_str(self) -> (res: &'static str)
        ensures
            res@ == self.text(),
    {
        match self {
            CacheInstallResult::Installed => "installed",
            CacheInstallResult::SkippedOversized => "skipped_oversized",
            CacheInstallResult::SkippedStale => "skipped_stale",
        }
    }
}

/// One maintenance state machine.
#[derive(Clone, Copy, Debug, PartialEq, Eq, Structural)]
pub enum FixupKind {
    /// The split state machine.
    Split,
    /// The merge state machine.
    Merge,
}

impl FixupKind {
    /// The text of [`FixupKind::as_str`].
    pub open spec fn text(self) -> Seq<char> {
        match self {
            FixupKind::Split => "split"@,
            FixupKind::Merge => "merge"@,
        }
    }

    /// Returns the bounded label value.
    pub fn as_str(self) -> (res: &'static str)
        ensures
            res@ == self.text(),
    {
        match self {
            FixupKind::Split => "split",
            FixupKind::Merge => "merge",
        }
    }
}

/// The outcome of offering one Fixup.
#[derive(Clone, Copy, Debug, PartialEq, Eq, Structural)]
pub enum FixupAdmission {
    /// The key took a queue slot.
    Enqueued,
    /// The key was already pending or running.
    Duplicate,
    /// The queue was full.
    Saturated,
}

impl FixupAdmission {
    /// The text of [`FixupAdmission::as_str`].
    pub open spec fn text(self) -> Seq<char> {
        match self {
            FixupAdmission::Enqueued => "enqueued"@,
            FixupAdmission::Duplicate => "duplicate"@,
            FixupAdmission::Saturated => "saturated"@,
        }
    }

    /// Returns the bounded label value.
    pub fn as_str(self) -> (res: &'static str)
        ensures
            res@ == self.text(),
    {
        match self {
            FixupAdmission::Enqueued => "enqueued",
            FixupAdmission::Duplicate => "duplicate",
            FixupAdmission::Saturated => "saturated",
        }
    }
}

/// The outcome of one Fixup execution.
#[derive(Clone, Copy, Debug, PartialEq, Eq, Structural)]
pub enum FixupExecution {
    /// No work remains.
    Settled,
    /// The partition merges and has no legal target.
    Stalled,
    /// The step budget ran out while progress was made.
    Yielded,
    /// Execution stopped early.
    Retired,
}

impl FixupExecution {
    /// The text of [`FixupExecution::as_str`].
    pub open spec fn text(self) -> Seq<char> {
        match self {
            FixupExecution::Settled => "settled"@,
            FixupExecution::Stalled => "stalled"@,
            FixupExecution::Yielded => "yielded"@,
            FixupExecution::Retired => "retired"@,
        }
    }

    /// Returns the bounded label value.
    pub fn as_str(self) -> (res: &'static str)
        ensures
            res@ == self.text(),
    {
        match self {
            FixupExecution::Settled => "settled",
            FixupExecution::Stalled => "stalled",
            FixupExecution::Yielded => "yielded",
            FixupExecution::Retired => "retired",
        }
    }
}

/// The result of one maintenance step.
#[derive(Clone, Copy, Debug, PartialEq, Eq, Structural)]
pub enum FixupStepResult {
    /// Nothing to do.
    Idle,
    /// A transition began.
    Began,
    /// Split targets were exposed.
    Exposed,
    /// A merge has no legal target.
    Stalled,
    /// A transition completed.
    Completed,
    /// The step failed.
    Failed,
}

/// How an import session's concurrency changed.
#[derive(Clone, Copy, Debug, PartialEq, Eq, Structural)]
pub enum ImportConcurrencyAdjustment {
    /// One more batch may run.
    Increased,
    /// Fewer batches may run.
    Decreased,
}

/// One import admission gate.
#[derive(Clone, Copy, Debug, PartialEq, Eq, Structural)]
pub enum ImportGate {
    /// The bounded in-flight batch slot.
    InFlightSlot,
    /// The maintenance backlog watermark.
    Backlog,
}

impl ImportGate {
    /// The text of [`ImportGate::as_str`].
    pub open spec fn text(self) -> Seq<char> {
        match self {
            ImportGate::InFlightSlot => "in_flight_slot"@,
            ImportGate::Backlog => "backlog"@,
        }
    }

    /// Returns the bounded label value.
    pub fn as_str(self) -> (res: &'static str)
        ensures
            res@ == self.text(),
    {
        match self {
            ImportGate::InFlightSlot => "in_flight_slot",
            ImportGate::Backlog => "backlog",
        }
    }
}

/// The completeness of one verification report.
#[derive(Clone, Copy, Debug, PartialEq, Eq, Structural)]
pub enum VerifyCompletion {
    /// The whole index was verified.
    Complete,
    /// A reached limit stopped the audit.
    Incomplete,
}

impl VerifyCompletion {
    /// The text of [`VerifyCompletion::as_str`].
    pub open spec fn text(self) -> Seq<char> {
        match self {
            VerifyCompletion::Complete => "complete"@,
            VerifyCompletion::Incomplete => "incomplete"@,
        }
    }

    /// Returns the bounded label value.
    pub fn as_str(self) -> (res: &'static str)
        ensures
            res@ == self.text(),
    {
        match self {
            VerifyCompletion::Complete => "complete",
            VerifyCompletion::Incomplete => "incomplete",
        }
    }
}

/// The text of [`verify_issue`].
pub open spec fn verify_issue_text(kind: VerifyIssueKind) -> Seq<char> {
    match kind {
        VerifyIssueKind::InvalidEncoding => "invalid_encoding"@,
        VerifyIssueKind::Reachability => "reachability"@,
        VerifyIssueKind::Membership => "membership"@,
        VerifyIssueKind::CountMismatch => "count_mismatch"@,
        VerifyIssueKind::RecordProjectionMismatch => "record_projection_mismatch"@,
        VerifyIssueKind::SynopsisNotConservative => "synopsis_not_conservative"@,
    }
}

/// Returns the bounded label value of one verification issue kind.
pub fn verify_issue(kind: VerifyIssueKind) -> (res: &'static str)
    ensures
        res@ == verify_issue_text(kind),
{
    match kind {
        VerifyIssueKind::InvalidEncoding => "invalid_encoding",
        VerifyIssueKind::Reachability => "reachability",
        VerifyIssueKind::Membership => "membership",
        VerifyIssueKind::CountMismatch => "count_mismatch",
        VerifyIssueKind::RecordProjectionMismatch => "record_projection_mismatch",
        VerifyIssueKind::SynopsisNotConservative => "synopsis_not_conservative",
    }
}

/// How loudly one failed operation is reported.
#[derive(Clone, Copy, Debug, PartialEq, Eq, Structural)]
pub enum Severity {
    /// An integrity failure an operator must see.
    Error,
    /// A commit of unknown outcome, which needs recovery.
    Warn,
    /// An ordinary operation result.
    Debug,
}

/// Returns how loudly a failure of one category is reported.
pub fn failure_severity(error: &Error) -> (res: Severity)
    ensures
        res == match error@.kind {
            ErrorKind::Corruption => Severity::Error,
            ErrorKind::CommitOutcomeUnknown => Severity::Warn,
            _ => Severity::Debug,
        },
{
    match error.kind() {
        ErrorKind::Corruption => Severity::Error,
        ErrorKind::CommitOutcomeUnknown => Severity::Warn,
        _ => Severity::Debug,
    }
}

/// Whether a label is made of lower-case ASCII letters and underscores.
pub open spec fn plain_label(text: Seq<char>) -> bool {
    forall|i: int|
        0 <= i < text.len() ==> 97 <= #[trigger] (text[i] as u32) <= 122 || text[i] as u32 == 95
}

proof fn error_kinds_are_plain(kind: ErrorKind)
    ensures
        plain_label(error_kind_text(kind)),
{
    match kind {
        ErrorKind::InvalidArgument => {
            reveal_strlit("invalid_argument");
        },
        ErrorKind::IndexAlreadyExists => {
            reveal_strlit("index_already_exists");
        },
        ErrorKind::IndexNotFound => {
            reveal_strlit("index_not_found");
        },
        ErrorKind::IndexDropping => {
            reveal_strlit("index_dropping");
        },
        ErrorKind::RecordAlreadyExists => {
            reveal_strlit("record_already_exists");
        },
        ErrorKind::UnsupportedFormat => {
            reveal_strlit("unsupported_format");
        },
        ErrorKind::Unsupported => {
            reveal_strlit("unsupported");
        },
        ErrorKind::TransactionTooLarge => {
            reveal_strlit("transaction_too_large");
        },
        ErrorKind::LimitExceeded => {
            reveal_strlit("limit_exceeded");
        },
        ErrorKind::ContentionExhausted => {
            reveal_strlit("contention_exhausted");
        },
        ErrorKind::RetryableAbort => {
            reveal_strlit("retryable_abort");
        },
        ErrorKind::CommitOutcomeUnknown => {
            reveal_strlit("commit_outcome_unknown");
        },
        ErrorKind::IdExhausted => {
            reveal_strlit("id_exhausted");
        },
        ErrorKind::DeadlineExceeded => {
            reveal_strlit("deadline_exceeded");
        },
        ErrorKind::Cancelled => {
            reveal_strlit("cancelled");
        },
        ErrorKind::RuntimeClosed => {
            reveal_strlit("runtime_closed");
        },
        ErrorKind::Backend => {
            reveal_strlit("backend");
        },
        ErrorKind::Other => {
            reveal_strlit("other");
        },
        ErrorKind::Corruption => {
            reveal_strlit("corruption");
        },
    }
}

proof fn operations_are_plain(operation: Operation)
    ensures
        plain_label(operation.text()),
{
    match operation {
        Operation::CreateIndex => {
            reveal_strlit("create_index");
        },
        Operation::OpenIndex => {
            reveal_strlit("open_index");
        },
        Operation::DropIndex => {
            reveal_strlit("drop_index");
        },
        Operation::Insert => {
            reveal_strlit("insert");
        },
        Operation::Upsert => {
            reveal_strlit("upsert");
        },
        Operation::Delete => {
            reveal_strlit("delete");
        },
        Operation::BatchMutate => {
            reveal_strlit("batch_mutate");
        },
        Operation::Get => {
            reveal_strlit("get");
        },
        Operation::BatchGet => {
            reveal_strlit("batch_get");
        },
        Operation::Search => {
            reveal_strlit("search");
        },
        Operation::Verify => {
            reveal_strlit("verify");
        },
        Operation::SplitFixup => {
            reveal_strlit("split_fixup");
        },
        Operation::MergeFixup => {
            reveal_strlit("merge_fixup");
        },
    }
}

proof fn outcomes_are_plain(outcome: OperationOutcome)
    ensures
        plain_label(outcome.text()),
{
    match outcome {
        OperationOutcome::Success => {
            reveal_strlit("ok");
        },
        OperationOutcome::Error(kind) => {
            error_kinds_are_plain(kind);
        },
    }
}

proof fn dimensions_are_plain(dimension: BudgetDimension)
    ensures
        plain_label(dimension.text()),
{
    match dimension {
        BudgetDimension::ScannedTreeKeys => {
            reveal_strlit("scanned_tree_keys");
        },
        BudgetDimension::VisitedPartitions => {
            reveal_strlit("visited_partitions");
        },
        BudgetDimension::VisitedLeafEntries => {
            reveal_strlit("visited_leaf_entries");
        },
        BudgetDimension::ExactRerankCandidates => {
            reveal_strlit("exact_rerank_candidates");
        },
    }
}

proof fn levels_are_plain(level: PartitionKind)
    ensures
        plain_label(cache_level_text(level)),
{
    match level {
        PartitionKind::Leaf => {
            reveal_strlit("leaf");
        },
        PartitionKind::Internal => {
            reveal_strlit("internal");
        },
    }
}

proof fn lookups_are_plain(lookup: CacheLookupResult)
    ensures
        plain_label(lookup.text()),
{
    match lookup {
        CacheLookupResult::Hit => {
            reveal_strlit("hit");
        },
        CacheLookupResult::StaleMiss => {
            reveal_strlit("stale_miss");
        },
        CacheLookupResult::Miss => {
            reveal_strlit("miss");
        },
    }
}

proof fn installs_are_plain(install: CacheInstallResult)
    ensures
        plain_label(install.text()),
{
    match install {
        CacheInstallResult::Installed => {
            reveal_strlit("installed");
        },
        CacheInstallResult::SkippedOversized => {
            reveal_strlit("skipped_oversized");
        },
        CacheInstallResult::SkippedStale => {
            reveal_strlit("skipped_stale");
        },
    }
}

proof fn kinds_are_plain(kind: FixupKind)
    ensures
        plain_label(kind.text()),
{
    match kind {
        FixupKind::Split => {
            reveal_strlit("split");
        },
        FixupKind::Merge => {
            reveal_strlit("merge");
        },
    }
}

proof fn admissions_are_plain(admission: FixupAdmission)
    ensures
        plain_label(admission.text()),
{
    match admission {
        FixupAdmission::Enqueued => {
            reveal_strlit("enqueued");
        },
        FixupAdmission::Duplicate => {
            reveal_strlit("duplicate");
        },
        FixupAdmission::Saturated => {
            reveal_strlit("saturated");
        },
    }
}

proof fn executions_are_plain(execution: FixupExecution)
    ensures
        plain_label(execution.text()),
{
    match execution {
        FixupExecution::Settled => {
            reveal_strlit("settled");
        },
        FixupExecution::Stalled => {
            reveal_strlit("stalled");
        },
        FixupExecution::Yielded => {
            reveal_strlit("yielded");
        },
        FixupExecution::Retired => {
            reveal_strlit("retired");
        },
    }
}

proof fn gates_are_plain(gate: ImportGate)
    ensures
        plain_label(gate.text()),
{
    match gate {
        ImportGate::InFlightSlot => {
            reveal_strlit("in_flight_slot");
        },
        ImportGate::Backlog => {
            reveal_strlit("backlog");
        },
    }
}

proof fn completions_are_plain(completion: VerifyCompletion)
    ensures
        plain_label(completion.text()),
{
    match completion {
        VerifyCompletion::Complete => {
            reveal_strlit("complete");
        },
        VerifyCompletion::Incomplete => {
            reveal_strlit("incomplete");
        },
    }
}

proof fn issues_are_plain(issue: VerifyIssueKind)
    ensures
        plain_label(verify_issue_text(issue)),
{
    match issue {
        VerifyIssueKind::InvalidEncoding => {
            reveal_strlit("invalid_encoding");
        },
        VerifyIssueKind::Reachability => {
            reveal_strlit("reachability");
        },
        VerifyIssueKind::Membership => {
            reveal_strlit("membership");
        },
        VerifyIssueKind::CountMismatch => {
            reveal_strlit("count_mismatch");
        },
        VerifyIssueKind::RecordProjectionMismatch => {
            reveal_strlit("record_projection_mismatch");
        },
        VerifyIssueKind::SynopsisNotConservative => {
            reveal_strlit("synopsis_not_conservative");
        },
    }
}

/// Every label value is made of lower-case ASCII letters and underscores alone,
/// so no caller data can hide in one.
pub proof fn labels_are_plain(
    operation: Operation,
    outcome: OperationOutcome,
    dimension: BudgetDimension,
    level: PartitionKind,
    lookup: CacheLookupResult,
    install: CacheInstallResult,
    kind: FixupKind,
    admission: FixupAdmission,
    execution: FixupExecution,
    gate: ImportGate,
    completion: VerifyCompletion,
    issue: VerifyIssueKind,
)
    ensures
        plain_label(operation.text()),
        plain_label(outcome.text()),
        plain_label(dimension.text()),
        plain_label(cache_level_text(level)),
        plain_label(lookup.text()),
        plain_label(install.text()),
        plain_label(kind.text()),
        plain_label(admission.text()),
        plain_label(execution.text()),
        plain_label(gate.text()),
        plain_label(completion.text()),
        plain_label(verify_issue_text(issue)),
{
    operations_are_plain(operation);
    outcomes_are_plain(outcome);
    dimensions_are_plain(dimension);
    levels_are_plain(level);
    lookups_are_plain(lookup);
    installs_are_plain(install);
    kinds_are_plain(kind);
    admissions_are_plain(admission);
    executions_are_plain(execution);
    gates_are_plain(gate);
    completions_are_plain(completion);
    issues_are_plain(issue);
}

} // verus!
