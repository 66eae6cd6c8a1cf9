//! The bounded issue sink of one audit.
//!
//! Every check reports findings here in a fixed order. Reaching a limit stops
//! the sink for good: nothing is reported behind the finding that did not fit.

use core::mem::size_of;

use vstd::prelude::*;

use crate::api::identifiers::{LogicalIndexId, PartitionKey};
use crate::api::record::copy_bytes;
use crate::api::verify::{VerifyIssue, VerifyIssueKind, VerifyOptions};
use crate::verify::limits::Limits;

verus! {

/// A Tree Key with its stable hash; only the hash is ever reported.
pub struct HashedTreeKey {
    /// The encoded Tree Key.
    pub key: Vec<u8>,
    /// Its stable hash.
    pub hash: [u8; 32],
}

impl Clone for HashedTreeKey {
    fn clone(&self) -> (res: Self)
        ensures
            res.key@ == self.key@,
            res.hash == self.hash,
    {
        HashedTreeKey { key: copy_bytes(&self.key), hash: self.hash }
    }
}

/// One finding: its kind and the safe identifiers it carries. Without a tree
/// or a partition it names the zero hash and the root.
pub ghost struct Finding {
    /// The kind.
    pub kind: VerifyIssueKind,
    /// The tree's stable hash.
    pub tree: Option<Seq<u8>>,
    /// The partition.
    pub partition: Option<PartitionKey>,
    /// The record.
    pub record_id: Option<Seq<u8>>,
}

/// The mathematical content of a [`VerifyIssue`].
pub ghost struct IssueView {
    /// The kind.
    pub kind: VerifyIssueKind,
    /// The index.
    pub logical_index_id: LogicalIndexId,
    /// The tree's stable hash.
    pub tree_key_hash: Seq<u8>,
    /// The partition.
    pub partition_key: PartitionKey,
    /// The record.
    pub record_id: Option<Seq<u8>>,
}

/// The content of an optional byte string.
pub open spec fn opt_bytes(bytes: Option<Vec<u8>>) -> Option<Seq<u8>> {
    match bytes {
        Some(found) => Some(found@),
        None => None,
    }
}

/// The content of one issue.
pub open spec fn issue_view(issue: VerifyIssue) -> IssueView {
    IssueView {
        kind: issue.kind,
        logical_index_id: issue.logical_index_id,
        tree_key_hash: issue.tree_key_hash@,
        partition_key: issue.partition_key,
        record_id: opt_bytes(issue.record_id),
    }
}

/// The hash reported without a tree.
pub open spec fn zero_hash() -> Seq<u8> {
    Seq::new(32, |i: int| 0u8)
}

/// The resident bytes of one reported finding.
pub open spec fn finding_bytes(finding: Finding) -> int {
    vstd::layout::size_of::<VerifyIssue>() + match finding.record_id {
        Some(id) => id.len() as int,
        None => 0,
    }
}

/// The mathematical content of a [`Sink`].
#[verifier::ext_equal]
pub ghost struct SinkView {
    /// The index.
    pub index: LogicalIndexId,
    /// The remaining limits.
    pub limits: Limits,
    /// The reported issues, in order.
    pub issues: Seq<IssueView>,
    /// Whether a limit stopped the audit.
    pub truncated: bool,
}

impl SinkView {
    /// The issue a finding becomes.
    pub open spec fn issue_of(self, finding: Finding) -> IssueView {
        IssueView {
            kind: finding.kind,
            logical_index_id: self.index,
            tree_key_hash: match finding.tree {
                Some(hash) => hash,
                None => zero_hash(),
            },
            partition_key: match finding.partition {
                Some(partition) => partition,
                None => PartitionKey::of(1),
            },
            record_id: finding.record_id,
        }
    }

    /// The stopped sink.
    pub open spec fn stopped(self) -> SinkView {
        SinkView { truncated: true, ..self }
    }

    /// After one more object was visited.
    pub open spec fn object_charged(self) -> SinkView {
        if self.truncated || self.limits.objects_remaining == 0 {
            self.stopped()
        } else {
            SinkView {
                limits: Limits {
                    objects_remaining: (self.limits.objects_remaining - 1) as u64,
                    ..self.limits
                },
                ..self
            }
        }
    }

    /// After more resident bytes were reserved.
    pub open spec fn memory_charged(self, bytes: int) -> SinkView {
        if self.truncated || self.limits.memory_used + bytes > self.limits.memory_limit {
            self.stopped()
        } else {
            SinkView {
                limits: Limits {
                    memory_used: (self.limits.memory_used + bytes) as u64,
                    ..self.limits
                },
                ..self
            }
        }
    }

    /// After resident bytes were released.
    pub open spec fn memory_released(self, bytes: int) -> SinkView {
        SinkView {
            limits: Limits {
                memory_used: if self.limits.memory_used >= bytes {
                    (self.limits.memory_used - bytes) as u64
                } else {
                    0
                },
                ..self.limits
            },
            ..self
        }
    }

    /// After one finding: it is reported when its bytes and one issue slot are
    /// left, and stops the audit otherwise.
    pub open spec fn issued(self, finding: Finding) -> SinkView {
        if self.truncated {
            self
        } else {
            let charged = self.memory_charged(finding_bytes(finding));
            if charged.truncated {
                charged
            } else if charged.limits.issues_remaining == 0 {
                charged.stopped()
            } else {
                SinkView {
                    limits: Limits {
                        issues_remaining: (charged.limits.issues_remaining - 1) as usize,
                        ..charged.limits
                    },
                    issues: charged.issues.push(self.issue_of(finding)),
                    ..charged
                }
            }
        }
    }
}

/// A sink after some findings, in order.
pub open spec fn fed(sink: SinkView, findings: Seq<Finding>) -> SinkView
    decreases findings.len(),
{
    if findings.len() == 0 {
        sink
    } else {
        fed(sink, findings.drop_last()).issued(findings.last())
    }
}

/// Feeding one finding is reporting it, and feeding none changes nothing.
pub proof fn fed_one(sink: SinkView, finding: Finding)
    ensures
        fed(sink, seq![finding]) == sink.issued(finding),
        fed(sink, Seq::empty()) == sink,
{
    reveal_with_fuel(fed, 2);
    let one = seq![finding];
    assert(one.drop_last() =~= Seq::empty());
    assert(one.last() == finding);
}

/// Feeding one sequence behind another is feeding both.
pub proof fn fed_in_parts(sink: SinkView, a: Seq<Finding>, b: Seq<Finding>)
    ensures
        fed(sink, a + b) == fed(fed(sink, a), b),
    decreases b.len(),
{
    if b.len() == 0 {
        assert(a + b =~= a);
    } else {
        assert((a + b).drop_last() =~= a + b.drop_last());
        assert((a + b).last() == b.last());
        fed_in_parts(sink, a, b.drop_last());
    }
}

/// A stopped sink ignores every finding.
pub proof fn stopped_sinks_stay(sink: SinkView, findings: Seq<Finding>)
    requires
        sink.truncated,
    ensures
        fed(sink, findings) == sink,
    decreases findings.len(),
{
    if findings.len() > 0 {
        stopped_sinks_stay(sink, findings.drop_last());
    }
}

/// A sink that is not stopped reported every finding it was given, in order,
/// and only those.
pub proof fn running_sinks_report_everything(sink: SinkView, findings: Seq<Finding>)
    requires
        !fed(sink, findings).truncated,
    ensures
        fed(sink, findings).issues == sink.issues + Seq::new(
            findings.len(),
            |i: int| sink.issue_of(findings[i]),
        ),
        fed(sink, findings).index == sink.index,
        fed(sink, findings).limits.issues_remaining + findings.len()
            == sink.limits.issues_remaining,
    decreases findings.len(),
{
    if findings.len() > 0 {
        let shorter = findings.drop_last();
        if fed(sink, shorter).truncated {
            assert(false);
        }
        running_sinks_report_everything(sink, shorter);
        assert(fed(sink, findings).issues =~= sink.issues + Seq::new(
            findings.len(),
            |i: int| sink.issue_of(findings[i]),
        ));
    } else {
        assert(fed(sink, findings).issues =~= sink.issues + Seq::new(
            findings.len(),
            |i: int| sink.issue_of(findings[i]),
        ));
    }
}

/// The bounded issue sink of one audit.
pub struct Sink {
    /// The index.
    pub index: LogicalIndexId,
    /// The remaining limits.
    pub limits: Limits,
    /// The reported issues.
    pub issues: Vec<VerifyIssue>,
    /// Whether a limit stopped the audit.
    pub truncated: bool,
}

/// The content of some issues.
pub open spec fn issue_views(issues: Seq<VerifyIssue>) -> Seq<IssueView> {
    Seq::new(issues.len(), |i: int| issue_view(issues[i]))
}

impl Sink {
    /// The reported issues and the remaining limits.
    pub open spec fn view(&self) -> SinkView {
        SinkView {
            index: self.index,
            limits: self.limits,
            issues: issue_views(self.issues@),
            truncated: self.truncated,
        }
    }

    /// An empty sink with an audit's limits.
    pub fn new(index: LogicalIndexId, options: &VerifyOptions) -> (res: Self)
        ensures
            res@ == (SinkView {
                index,
                limits: Limits {
                    objects_remaining: options@.object_limit,
                    issues_remaining: options@.issue_limit,
                    memory_used: 0,
                    memory_limit: options@.memory_limit_bytes,
                },
                issues: Seq::empty(),
                truncated: false,
            }),
    {
        let res = Sink { index, limits: Limits::new(options), issues: Vec::new(), truncated: false };
        assert(issue_views(res.issues@) =~= Seq::empty());
        res
    }

    /// Returns whether a limit stopped the audit.
    pub fn truncated(&self) -> (res: bool)
        ensures
            res == self@.truncated,
    {
        self.truncated
    }

    /// Charges one visited object, a malformed one included.
    pub fn charge_object(&mut self)
        ensures
            final(self)@ == old(self)@.object_charged(),
    {
        if self.truncated || !self.limits.charge_object() {
            self.truncated = true;
        }
    }

    /// Reserves resident bytes, stopping the audit at the memory limit.
    pub fn charge_memory(&mut self, bytes: u64)
        ensures
            final(self)@ == old(self)@.memory_charged(bytes as int),
    {
        if self.truncated || !self.limits.charge_memory(bytes) {
            self.truncated = true;
        }
    }

    /// Releases resident bytes.
    pub fn release_memory(&mut self, bytes: u64)
        ensures
            final(self)@ == old(self)@.memory_released(bytes as int),
    {
        self.limits.release_memory(bytes);
    }

    /// Reports one finding, stopping the audit at a limit.
    pub fn issue(
        &mut self,
        kind: VerifyIssueKind,
        tree: Option<[u8; 32]>,
        partition: Option<PartitionKey>,
        record_id: Option<&Vec<u8>>,
    )
        ensures
            final(self)@ == old(self)@.issued(
                Finding {
                    kind,
                    tree: match tree {
                        Some(hash) => Some(hash@),
                        None => None,
                    },
                    partition,
                    record_id: match record_id {
                        Some(id) => Some(id@),
                        None => None,
                    },
                },
            ),
    {
        if self.truncated {
            return;
        }
        let id_bytes: u64 = match record_id {
            Some(id) => id.len() as u64,
            None => 0,
        };
        let issue_bytes: u64 = size_of::<VerifyIssue>() as u64;
        let fits = match issue_bytes.checked_add(id_bytes) {
            Some(bytes) => self.limits.charge_memory(bytes),
            None => false,
        };
        if !fits {
            self.truncated = true;
            return;
        }
        if !self.limits.take_issue_slot() {
            self.truncated = true;
            return;
        }
        let tree_key_hash: [u8; 32] = match tree {
            Some(hash) => hash,
            None => [0u8; 32],
        };
        let partition_key = match partition {
            Some(partition) => partition,
            None => PartitionKey::root(),
        };
        let owned_id = match record_id {
            Some(id) => Some(copy_bytes(id)),
            None => None,
        };
        let ghost before = issue_views(self.issues@);
        self.issues.push(
            VerifyIssue {
                kind,
                logical_index_id: self.index,
                tree_key_hash,
                partition_key,
                record_id: owned_id,
            },
        );
        proof {
            if tree is None {
                assert(tree_key_hash@ =~= zero_hash());
            }
            crate::api::identifiers::partition_key_of_view(partition_key);
            assert(issue_views(self.issues@) =~= before.push(
                issue_view(self.issues@[self.issues@.len() - 1]),
            ));
        }
    }
}

} // verus!
