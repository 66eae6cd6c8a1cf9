//! What each observation measures, before it is emitted.

use vstd::prelude::*;

use crate::api::search::{SearchBudgetExhaustion, SearchBudgetUsage};
use crate::api::verify::{VerifyIssue, VerifyIssueKind, VerifyReport};
use crate::observe::labels::{BudgetDimension, VerifyCompletion};

verus! {

/// One budget dimension's usage, and whether the budget prevented work.
#[derive(Clone, Copy, Debug, PartialEq, Eq, Structural)]
pub struct BudgetSample {
    /// The dimension.
    pub dimension: BudgetDimension,
    /// The work done.
    pub used: u32,
    /// Whether the budget prevented eligible work.
    pub prevented: bool,
}

/// The four dimensions of one search, in their fixed order.
pub open spec fn budget_samples_of(
    usage: SearchBudgetUsage,
    exhausted: SearchBudgetExhaustion,
) -> Seq<BudgetSample> {
    seq![
        BudgetSample {
            dimension: BudgetDimension::ScannedTreeKeys,
            used: usage.scanned_tree_keys,
            prevented: exhausted.scanned_tree_keys,
        },
        BudgetSample {
            dimension: BudgetDimension::VisitedPartitions,
            used: usage.visited_partitions,
            prevented: exhausted.visited_partitions,
        },
        BudgetSample {
            dimension: BudgetDimension::VisitedLeafEntries,
            used: usage.visited_leaf_entries,
            prevented: exhausted.visited_leaf_entries,
        },
        BudgetSample {
            dimension: BudgetDimension::ExactRerankCandidates,
            used: usage.exact_rerank_candidates,
            prevented: exhausted.exact_rerank_candidates,
        },
    ]
}

/// Returns the budget observations of one search.
pub fn search_budget(usage: &SearchBudgetUsage, exhausted: &SearchBudgetExhaustion) -> (res: Vec<
    BudgetSample,
>)
    ensures
        res@ == budget_samples_of(*usage, *exhausted),
{
    let mut samples: Vec<BudgetSample> = Vec::new();
    samples.push(
        BudgetSample {
            dimension: BudgetDimension::ScannedTreeKeys,
            used: usage.scanned_tree_keys,
            prevented: exhausted.scanned_tree_keys,
        },
    );
    samples.push(
        BudgetSample {
            dimension: BudgetDimension::VisitedPartitions,
            used: usage.visited_partitions,
            prevented: exhausted.visited_partitions,
        },
    );
    samples.push(
        BudgetSample {
            dimension: BudgetDimension::VisitedLeafEntries,
            used: usage.visited_leaf_entries,
            prevented: exhausted.visited_leaf_entries,
        },
    );
    samples.push(
        BudgetSample {
            dimension: BudgetDimension::ExactRerankCandidates,
            used: usage.exact_rerank_candidates,
            prevented: exhausted.exact_rerank_candidates,
        },
    );
    assert(samples@ =~= budget_samples_of(*usage, *exhausted));
    samples
}

/// Returns the age of a durable state; a start in the future has age zero.
pub fn state_age_millis(now_unix_millis: u64, started_at_unix_millis: u64) -> (res: u64)
    ensures
        res == if now_unix_millis >= started_at_unix_millis {
            now_unix_millis - started_at_unix_millis
        } else {
            0
        },
{
    now_unix_millis.saturating_sub(started_at_unix_millis)
}

/// The number of issues of one kind among the first `n`.
pub open spec fn issues_of(issues: Seq<VerifyIssue>, kind: VerifyIssueKind, n: nat) -> nat
    decreases n,
{
    if n == 0 {
        0
    } else {
        issues_of(issues, kind, (n - 1) as nat) + if issues[n - 1].kind == kind {
            1nat
        } else {
            0nat
        }
    }
}

/// Returns the number of issues of one kind in a report.
pub fn issue_count(report: &VerifyReport, kind: VerifyIssueKind) -> (res: usize)
    ensures
        res == issues_of(report.issues@, kind, report.issues@.len()),
{
    let mut count: usize = 0;
    let mut at: usize = 0;
    while at < report.issues.len()
        invariant
            at <= report.issues@.len(),
            count <= at,
            count == issues_of(report.issues@, kind, at as nat),
        decreases report.issues@.len() - at,
    {
        if report.issues[at].kind == kind {
            count = count + 1;
        }
        at = at + 1;
    }
    count
}

/// Returns the completeness of one report.
pub fn completion(report: &VerifyReport) -> (res: VerifyCompletion)
    ensures
        res == if report.complete {
            VerifyCompletion::Complete
        } else {
            VerifyCompletion::Incomplete
        },
{
    if report.complete {
        VerifyCompletion::Complete
    } else {
        VerifyCompletion::Incomplete
    }
}

/// Every dimension of a search is sampled once, with its own usage and its own
/// exhaustion.
pub proof fn budgets_are_sampled_by_dimension(
    usage: SearchBudgetUsage,
    exhausted: SearchBudgetExhaustion,
    i: int,
)
    ensures
        budget_samples_of(usage, exhausted).len() == 4,
        0 <= i < 4 ==> {
            let sample = budget_samples_of(usage, exhausted)[i];
            match sample.dimension {
                BudgetDimension::ScannedTreeKeys => i == 0 && sample.used
                    == usage.scanned_tree_keys && sample.prevented == exhausted.scanned_tree_keys,
                BudgetDimension::VisitedPartitions => i == 1 && sample.used
                    == usage.visited_partitions && sample.prevented == exhausted.visited_partitions,
                BudgetDimension::VisitedLeafEntries => i == 2 && sample.used
                    == usage.visited_leaf_entries && sample.prevented
                    == exhausted.visited_leaf_entries,
                BudgetDimension::ExactRerankCandidates => i == 3 && sample.used
                    == usage.exact_rerank_candidates && sample.prevented
                    == exhausted.exact_rerank_candidates,
            }
        },
{
}

/// The issues of a kind are counted one by one.
pub proof fn issues_are_counted_by_kind(
    issues: Seq<VerifyIssue>,
    kind: VerifyIssueKind,
    n: nat,
)
    requires
        n < issues.len(),
    ensures
        issues_of(issues, kind, 0) == 0,
        issues[n as int].kind == kind ==> issues_of(issues, kind, n + 1) == issues_of(
            issues,
            kind,
            n,
        ) + 1,
        issues[n as int].kind != kind ==> issues_of(issues, kind, n + 1) == issues_of(
            issues,
            kind,
            n,
        ),
{
}

} // verus!
