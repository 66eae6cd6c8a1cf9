//! Tree Manifest, exact-count, State-reference and Synopsis checks.
//!
//! Partition bodies are scanned by Tree Key and Partition Key, so at most one
//! partition and one tree accumulate at a time. Closing a partition checks its
//! Header and State, its exact entry count and its Synopsis; closing a tree
//! checks the tree as a whole.

use core::mem::size_of;

use vstd::prelude::*;

use crate::api::config::IndexConfig;
use crate::api::identifiers::{partition_key_of_view, PartitionKey};
use crate::api::record::{copy_bytes, same_bytes};
use crate::api::verify::VerifyIssueKind;
use crate::maintenance::fixup::{is_actionable, selected_action};
use crate::topology::{PartitionHeader, PartitionTransition};
use crate::verify::by_key::{lookup, placed, vacated, ByKey};
use crate::verify::records::{placed_finding, RecordLedger, RecordsView};
use crate::verify::sink::{
    fed, fed_in_parts, fed_one, Finding, HashedTreeKey, Sink, SinkView,
};
use crate::verify::synopsis::{
    conservative, covers_recomputed, opt_synopsis, saturated, PartitionSynopsis, SynopsisView,
};
use crate::verify::tree::{
    ascending, finding_if, recorded, Edge, PartitionSummary,
    ScannedPartition, TreeFacts, TreeManifest, TreeView,
};

verus! {

broadcast use partition_key_of_view;

/// The bodies of the partition that is being scanned.
pub struct PartitionFacts {
    /// The partition.
    pub partition: PartitionKey,
    /// Its Header.
    pub header: Option<PartitionHeader>,
    /// Its State.
    pub transition: Option<PartitionTransition>,
    /// Its stored Synopsis.
    pub synopsis: Option<PartitionSynopsis>,
    /// The Synopsis recomputed from the Leaf Entries scanned so far.
    pub recomputed: Option<PartitionSynopsis>,
    /// The Leaf Entries scanned so far.
    pub leaf_entries: u64,
    /// The Child Entries scanned so far.
    pub child_entries: u64,
    /// The resident bytes it charges.
    pub charged: u64,
}

/// The mathematical content of some [`PartitionFacts`].
pub ghost struct PartitionView {
    /// The partition.
    pub partition: PartitionKey,
    /// Its Header.
    pub header: Option<PartitionHeader>,
    /// Its State.
    pub transition: Option<PartitionTransition>,
    /// Its stored Synopsis.
    pub synopsis: Option<SynopsisView>,
    /// The recomputed Synopsis.
    pub recomputed: Option<SynopsisView>,
    /// The Leaf Entries.
    pub leaf_entries: u64,
    /// The Child Entries.
    pub child_entries: u64,
    /// The resident bytes it charges.
    pub charged: u64,
}

impl PartitionFacts {
    /// The content.
    pub open spec fn view(&self) -> PartitionView {
        PartitionView {
            partition: self.partition,
            header: self.header,
            transition: self.transition,
            synopsis: opt_synopsis(self.synopsis),
            recomputed: opt_synopsis(self.recomputed),
            leaf_entries: self.leaf_entries,
            child_entries: self.child_entries,
            charged: self.charged,
        }
    }

    fn new(partition: PartitionKey, estimate: u64) -> (res: Self)
        ensures
            res@ == no_bodies(partition, estimate),
    {
        let size: u64 = size_of::<PartitionFacts>() as u64;
        PartitionFacts {
            partition,
            header: None,
            transition: None,
            synopsis: None,
            recomputed: None,
            leaf_entries: 0,
            child_entries: 0,
            charged: size.saturating_add(estimate),
        }
    }
}

/// A partition of which no body was scanned yet.
pub open spec fn no_bodies(partition: PartitionKey, estimate: u64) -> PartitionView {
    PartitionView {
        partition,
        header: None,
        transition: None,
        synopsis: None,
        recomputed: None,
        leaf_entries: 0,
        child_entries: 0,
        charged: saturated(vstd::layout::size_of::<PartitionFacts>() + estimate) as u64,
    }
}

/// One more, up to the largest representable count.
pub open spec fn one_more(count: u64) -> u64 {
    saturated(count + 1) as u64
}

impl PartitionView {
    /// Whether Header and State were both scanned and agree.
    pub open spec fn pair_agrees(self) -> bool {
        self.header matches Some(header) && self.transition matches Some(transition)
            && transition.spec_state() == header.state
    }

    /// The findings of this partition when it closes: Header and State must
    /// agree, the entry count must be exact, a leaf must have a conservative
    /// Synopsis and no other partition may have one.
    pub open spec fn findings(self, hash: Seq<u8>) -> Seq<Finding> {
        let of = |kind: VerifyIssueKind|
            Finding { kind, tree: Some(hash), partition: Some(self.partition), record_id: None };
        let pair = finding_if(!self.pair_agrees(), of(VerifyIssueKind::Reachability));
        let bodies = match self.header {
            None => Seq::empty(),
            Some(header) => if header.level == 1 {
                finding_if(
                    self.leaf_entries != header.entry_count,
                    of(VerifyIssueKind::CountMismatch),
                ) + match self.synopsis {
                    None => seq![of(VerifyIssueKind::Reachability)],
                    Some(stored) => finding_if(
                        !covers_recomputed(stored, self.recomputed),
                        of(VerifyIssueKind::SynopsisNotConservative),
                    ),
                }
            } else {
                finding_if(
                    self.child_entries != header.entry_count,
                    of(VerifyIssueKind::CountMismatch),
                ) + finding_if(self.synopsis is Some, of(VerifyIssueKind::Reachability))
            },
        };
        pair + bodies
    }

    /// What the partition leaves behind for its tree.
    pub open spec fn left_behind(self) -> ScannedPartition {
        ScannedPartition {
            partition: self.partition,
            summary: PartitionSummary {
                level: match self.header {
                    Some(header) => Some(header.level),
                    None => None,
                },
                transition: self.transition,
            },
        }
    }

    /// Whether the Header lets Structure Maintenance advance.
    pub open spec fn actionable(self, minimum: u32, maximum: u32) -> bool {
        self.header matches Some(header) && selected_action(
            minimum,
            maximum,
            self.partition,
            header,
        ) is Some
    }
}

/// The resident bytes of what one partition leaves behind.
pub open spec fn summary_size() -> int {
    saturated(2 * (vstd::layout::size_of::<ScannedPartition>() as int))
}

/// The resident bytes of one Child Entry edge.
pub open spec fn edge_size() -> int {
    vstd::layout::size_of::<Edge>() as int
}

/// The resident bytes of one tree while it is being scanned.
pub open spec fn walk_size(key: Seq<u8>) -> int {
    saturated((vstd::layout::size_of::<TreeWalk>() + key.len()) as int)
}

/// The resident bytes of one listed Tree Manifest.
pub open spec fn listed_size(key: Seq<u8>) -> int {
    saturated((key.len() + vstd::layout::size_of::<ListedTree>()) as int)
}

/// The tree that is being scanned.
#[verifier::ext_equal]
pub ghost struct WalkView {
    /// The Tree Key.
    pub key: Seq<u8>,
    /// What was scanned of it.
    pub tree: TreeView,
    /// The partition that is being scanned.
    pub current: Option<PartitionView>,
    /// The resident bytes it charges.
    pub charged: u64,
}

impl WalkView {
    /// After the partition that was being scanned closed.
    pub open spec fn partition_closed(self, sink: SinkView) -> (SinkView, WalkView) {
        match self.current {
            None => (sink, self),
            Some(facts) => {
                let reported = fed(sink, facts.findings(self.tree.hash));
                let charged = reported.memory_released(facts.charged as int).memory_charged(
                    summary_size(),
                );
                let closed = WalkView { current: None, ..self };
                if charged.truncated {
                    (charged, closed)
                } else {
                    (
                        charged,
                        WalkView {
                            charged: saturated(self.charged + summary_size()) as u64,
                            tree: TreeView {
                                table: recorded(self.tree.table, facts.left_behind()),
                                ..self.tree
                            },
                            ..closed
                        },
                    )
                }
            },
        }
    }

    /// Whether a partition is the one that is being scanned.
    pub open spec fn is_current(self, partition: PartitionKey) -> bool {
        self.current matches Some(facts) && facts.partition == partition
    }

    /// After the scan reached a partition.
    pub open spec fn partition_opened(
        self,
        sink: SinkView,
        partition: PartitionKey,
        estimate: u64,
    ) -> (SinkView, WalkView) {
        if self.is_current(partition) {
            (sink, self)
        } else {
            let (reported, closed) = self.partition_closed(sink);
            let facts = no_bodies(partition, estimate);
            let charged = reported.memory_charged(facts.charged as int);
            if charged.truncated {
                (charged, closed)
            } else {
                (charged, WalkView { current: Some(facts), ..closed })
            }
        }
    }

    /// The resident bytes the checks of the whole tree take.
    pub open spec fn check_size(self) -> int {
        saturated(saturated((self.tree.table.len() + self.tree.edges.len()) as int) * edge_size())
    }

    /// After the tree was checked as a whole.
    pub open spec fn finished(self, sink: SinkView) -> SinkView {
        let (reported, closed) = self.partition_closed(sink);
        let charged = reported.memory_charged(closed.check_size());
        let checked = if charged.truncated {
            charged
        } else {
            fed(charged, closed.tree.findings())
        };
        checked.memory_released(saturated(closed.charged + closed.check_size()))
    }
}

/// One Tree Manifest that no scanned partition has claimed yet.
#[derive(Clone, Copy)]
pub struct ListedTree {
    /// The stable hash of the Tree Key.
    pub hash: [u8; 32],
    /// The Tree Manifest.
    pub manifest: TreeManifest,
}

/// The listed Tree Manifests and the tree that is being scanned.
#[verifier::ext_equal]
pub ghost struct LedgerView {
    /// The Tree Manifests not yet claimed, by Tree Key.
    pub trees: Seq<(Seq<u8>, ListedTree)>,
    /// The tree that is being scanned.
    pub walk: Option<WalkView>,
    /// The partitions that let Structure Maintenance advance.
    pub actionable: u64,
    /// The resident bytes of one in-memory Synopsis.
    pub estimate: u64,
    /// The least entries of a stable partition.
    pub minimum: u32,
    /// The most entries of a stable partition.
    pub maximum: u32,
}

/// A sink and the topology beside it.
#[verifier::ext_equal]
pub ghost struct Walked {
    /// The sink.
    pub sink: SinkView,
    /// The topology.
    pub ledger: LedgerView,
}

impl LedgerView {
    /// Whether the partitions of the scanned tree are in key order.
    pub open spec fn valid(self) -> bool {
        self.walk matches Some(walk) ==> ascending(walk.tree.table)
    }

    /// The actionable partitions once the partition that is being scanned
    /// closes.
    pub open spec fn actionable_after_close(self) -> u64 {
        if self.walk matches Some(walk) && walk.current matches Some(facts) && facts.actionable(
            self.minimum,
            self.maximum,
        ) {
            one_more(self.actionable)
        } else {
            self.actionable
        }
    }

    /// After one Tree Manifest was scanned.
    pub open spec fn manifest_noted(
        self,
        sink: SinkView,
        key: Seq<u8>,
        listed: ListedTree,
    ) -> Walked {
        let charged = sink.memory_charged(listed_size(key));
        if charged.truncated {
            Walked { sink: charged, ledger: self }
        } else {
            Walked {
                sink: charged,
                ledger: LedgerView { trees: placed(self.trees, key, listed), ..self },
            }
        }
    }

    /// After the tree that was being scanned closed.
    pub open spec fn walk_closed(self, sink: SinkView) -> Walked {
        match self.walk {
            Some(walk) => Walked {
                sink: walk.finished(sink),
                ledger: LedgerView {
                    walk: None,
                    actionable: self.actionable_after_close(),
                    ..self
                },
            },
            None => Walked { sink, ledger: self },
        }
    }

    /// After the scan reached a tree: its Tree Manifest is claimed.
    pub open spec fn tree_opened(self, sink: SinkView, key: Seq<u8>, hash: Seq<u8>) -> Walked {
        if self.walk matches Some(walk) && walk.key == key {
            Walked { sink, ledger: self }
        } else {
            let closed = self.walk_closed(sink);
            let listed = lookup(closed.ledger.trees, key);
            let released = if listed is Some {
                closed.sink.memory_released(listed_size(key))
            } else {
                closed.sink
            };
            Walked {
                sink: released.memory_charged(walk_size(key)),
                ledger: LedgerView {
                    trees: vacated(closed.ledger.trees, key),
                    walk: Some(
                        WalkView {
                            key,
                            tree: TreeView {
                                hash,
                                manifest: match listed {
                                    Some(found) => Some(found.manifest),
                                    None => None,
                                },
                                table: Seq::empty(),
                                edges: Seq::empty(),
                            },
                            current: None,
                            charged: walk_size(key) as u64,
                        },
                    ),
                    ..closed.ledger
                },
            }
        }
    }

    /// After the scan reached a partition of a tree.
    pub open spec fn opened(
        self,
        sink: SinkView,
        key: Seq<u8>,
        hash: Seq<u8>,
        partition: PartitionKey,
    ) -> Walked {
        let reached = self.tree_opened(sink, key, hash);
        let walk = reached.ledger.walk->0;
        let (charged, opened) = walk.partition_opened(reached.sink, partition, self.estimate);
        Walked {
            sink: charged,
            ledger: LedgerView {
                walk: Some(opened),
                actionable: if walk.is_current(partition) {
                    reached.ledger.actionable
                } else {
                    reached.ledger.actionable_after_close()
                },
                ..reached.ledger
            },
        }
    }

    /// With another state of the partition that is being scanned.
    pub open spec fn with_current(self, facts: PartitionView) -> LedgerView {
        LedgerView {
            walk: Some(WalkView { current: Some(facts), ..self.walk->0 }),
            ..self
        }
    }

    /// After one Header was scanned.
    pub open spec fn header_absorbed(
        self,
        sink: SinkView,
        key: Seq<u8>,
        hash: Seq<u8>,
        partition: PartitionKey,
        header: PartitionHeader,
    ) -> Walked {
        let opened = self.opened(sink, key, hash, partition);
        match (opened.ledger.walk->0).current {
            Some(facts) => Walked {
                ledger: opened.ledger.with_current(
                    PartitionView { header: Some(header), ..facts },
                ),
                ..opened
            },
            None => opened,
        }
    }

    /// After one State was scanned.
    pub open spec fn state_absorbed(
        self,
        sink: SinkView,
        key: Seq<u8>,
        hash: Seq<u8>,
        partition: PartitionKey,
        transition: PartitionTransition,
    ) -> Walked {
        let opened = self.opened(sink, key, hash, partition);
        match (opened.ledger.walk->0).current {
            Some(facts) => Walked {
                ledger: opened.ledger.with_current(
                    PartitionView { transition: Some(transition), ..facts },
                ),
                ..opened
            },
            None => opened,
        }
    }

    /// After one Synopsis was scanned.
    pub open spec fn synopsis_absorbed(
        self,
        sink: SinkView,
        key: Seq<u8>,
        hash: Seq<u8>,
        partition: PartitionKey,
        synopsis: SynopsisView,
    ) -> Walked {
        let opened = self.opened(sink, key, hash, partition);
        let charged = opened.sink.memory_charged(self.estimate as int);
        if charged.truncated {
            Walked { sink: charged, ..opened }
        } else {
            match (opened.ledger.walk->0).current {
                Some(facts) => Walked {
                    sink: charged,
                    ledger: opened.ledger.with_current(
                        PartitionView {
                            synopsis: Some(synopsis),
                            charged: saturated(facts.charged + self.estimate) as u64,
                            ..facts
                        },
                    ),
                },
                None => Walked { sink: charged, ..opened },
            }
        }
    }

    /// After one Leaf Entry was scanned and joined. `expanded` is the
    /// recomputed Synopsis with the entry, unless it could not be expanded.
    pub open spec fn leaf_entry_absorbed(
        self,
        sink: SinkView,
        records: RecordsView,
        key: Seq<u8>,
        hash: Seq<u8>,
        partition: PartitionKey,
        entry: LeafEntryView,
    ) -> (Walked, RecordsView) {
        let opened = self.opened(sink, key, hash, partition);
        if opened.sink.truncated {
            (opened, records)
        } else {
            let counted = match (opened.ledger.walk->0).current {
                None => opened,
                Some(facts) => {
                    let more = PartitionView {
                        leaf_entries: one_more(facts.leaf_entries),
                        ..facts
                    };
                    if facts.header matches Some(header) && header.level != 1 {
                        Walked {
                            sink: opened.sink.issued(
                                placed_finding(
                                    VerifyIssueKind::Membership,
                                    hash,
                                    partition,
                                    entry.id,
                                ),
                            ),
                            ledger: opened.ledger.with_current(more),
                        }
                    } else if entry.expanded is None {
                        Walked {
                            sink: opened.sink.issued(
                                placed_finding(
                                    VerifyIssueKind::InvalidEncoding,
                                    hash,
                                    partition,
                                    entry.id,
                                ),
                            ),
                            ledger: opened.ledger.with_current(more),
                        }
                    } else {
                        Walked {
                            ledger: opened.ledger.with_current(
                                PartitionView { recomputed: entry.expanded, ..more },
                            ),
                            ..opened
                        }
                    }
                },
            };
            let joined = records.entry_joined(
                counted.sink,
                key,
                hash,
                partition,
                entry.id,
                entry.bytes,
            );
            (Walked { sink: joined.sink, ..counted }, joined.records)
        }
    }

    /// After one Child Entry was scanned. A Child Entry of a leaf, or one that
    /// names its own partition, is a finding; any other becomes an edge.
    pub open spec fn child_entry_absorbed(
        self,
        sink: SinkView,
        key: Seq<u8>,
        hash: Seq<u8>,
        partition: PartitionKey,
        child: PartitionKey,
    ) -> Walked {
        let opened = self.opened(sink, key, hash, partition);
        let walk = opened.ledger.walk->0;
        if opened.sink.truncated || walk.current is None {
            opened
        } else {
            let facts = walk.current->0;
            let more = PartitionView { child_entries: one_more(facts.child_entries), ..facts };
            let counted = opened.ledger.with_current(more);
            if facts.header matches Some(header) && header.level == 1 || child == partition {
                Walked {
                    sink: opened.sink.issued(
                        Finding {
                            kind: VerifyIssueKind::Membership,
                            tree: Some(hash),
                            partition: Some(partition),
                            record_id: None,
                        },
                    ),
                    ledger: counted,
                }
            } else {
                let charged = opened.sink.memory_charged(edge_size());
                if charged.truncated {
                    Walked { sink: charged, ledger: counted }
                } else {
                    let edge = Edge { parent: partition, child };
                    Walked {
                        sink: charged,
                        ledger: LedgerView {
                            walk: Some(
                                WalkView {
                                    tree: TreeView {
                                        edges: walk.tree.edges.push(edge),
                                        ..walk.tree
                                    },
                                    current: Some(more),
                                    charged: saturated(walk.charged + edge_size()) as u64,
                                    ..walk
                                },
                            ),
                            ..counted
                        },
                    }
                }
            }
        }
    }

    /// After the first `n` unclaimed Tree Manifests were reported: their trees
    /// have no partition, so the root is missing.
    pub open spec fn unclaimed_reported(self, sink: SinkView, n: int) -> SinkView
        decreases n,
    {
        if n <= 0 {
            sink
        } else {
            let before = self.unclaimed_reported(sink, n - 1);
            let (key, listed) = self.trees[n - 1];
            if before.truncated {
                before
            } else {
                before.issued(
                    Finding {
                        kind: VerifyIssueKind::Reachability,
                        tree: Some(listed.hash@),
                        partition: Some(PartitionKey::of(1)),
                        record_id: None,
                    },
                ).memory_released(listed_size(key))
            }
        }
    }

    /// After the scan ended: no Tree Manifest is kept.
    pub open spec fn finished(self, sink: SinkView) -> Walked {
        let closed = self.walk_closed(sink);
        Walked {
            sink: closed.ledger.unclaimed_reported(
                closed.sink,
                closed.ledger.trees.len() as int,
            ),
            ledger: LedgerView { trees: Seq::empty(), ..closed.ledger },
        }
    }
}

/// One decoded Leaf Entry.
pub struct LeafEntryItem {
    /// The Record ID.
    pub id: Vec<u8>,
    /// The recomputed Synopsis with this entry, unless it could not be
    /// expanded.
    pub expanded: Option<PartitionSynopsis>,
    /// The scanned bytes.
    pub bytes: Vec<u8>,
}

/// The mathematical content of a [`LeafEntryItem`].
pub ghost struct LeafEntryView {
    /// The Record ID.
    pub id: Seq<u8>,
    /// The recomputed Synopsis with this entry.
    pub expanded: Option<SynopsisView>,
    /// The scanned bytes.
    pub bytes: Seq<u8>,
}

impl LeafEntryItem {
    /// The content.
    pub open spec fn view(&self) -> LeafEntryView {
        LeafEntryView {
            id: self.id@,
            expanded: opt_synopsis(self.expanded),
            bytes: self.bytes@,
        }
    }
}

/// The tree that is being scanned.
pub struct TreeWalk {
    key: Vec<u8>,
    tree: TreeFacts,
    current: Option<PartitionFacts>,
    charged: u64,
}

impl TreeWalk {
    /// What was scanned of the tree.
    pub closed spec fn view(&self) -> WalkView {
        WalkView {
            key: self.key@,
            tree: self.tree@,
            current: match self.current {
                Some(facts) => Some(facts@),
                None => None,
            },
            charged: self.charged,
        }
    }

    fn report_if(
        sink: &mut Sink,
        condition: bool,
        kind: VerifyIssueKind,
        hash: [u8; 32],
        partition: PartitionKey,
    )
        ensures
            final(sink)@ == fed(
                old(sink)@,
                finding_if(
                    condition,
                    Finding {
                        kind,
                        tree: Some(hash@),
                        partition: Some(partition),
                        record_id: None,
                    },
                ),
            ),
    {
        proof {
            fed_one(
                sink@,
                Finding {
                    kind,
                    tree: Some(hash@),
                    partition: Some(partition),
                    record_id: None,
                },
            );
        }
        if condition {
            sink.issue(kind, Some(hash), Some(partition), None);
        }
    }

    fn report_partition(sink: &mut Sink, hash: [u8; 32], facts: &PartitionFacts)
        ensures
            final(sink)@ == fed(old(sink)@, facts@.findings(hash@)),
    {
        let ghost start = sink@;
        let ghost of = |kind: VerifyIssueKind|
            Finding { kind, tree: Some(hash@), partition: Some(facts.partition), record_id: None };
        let partition = facts.partition;
        let agrees = match (facts.header, facts.transition) {
            (Some(header), Some(transition)) => transition.state() == header.state,
            _ => false,
        };
        let ghost pair = finding_if(!agrees, of(VerifyIssueKind::Reachability));
        Self::report_if(sink, !agrees, VerifyIssueKind::Reachability, hash, partition);
        let ghost after_pair = sink@;
        proof {
            fed_in_parts(start, pair, Seq::empty());
        }
        if let Some(header) = facts.header {
            let expected: u64 = header.entry_count as u64;
            if header.level == 1 {
                let miscounted = facts.leaf_entries != expected;
                Self::report_if(sink, miscounted, VerifyIssueKind::CountMismatch, hash, partition);
                let ghost count = finding_if(miscounted, of(VerifyIssueKind::CountMismatch));
                match &facts.synopsis {
                    None => {
                        Self::report_if(
                            sink,
                            true,
                            VerifyIssueKind::Reachability,
                            hash,
                            partition,
                        );
                        proof {
                            let missing = seq![of(VerifyIssueKind::Reachability)];
                            fed_in_parts(after_pair, count, missing);
                            fed_in_parts(start, pair, count + missing);
                        }
                    },
                    Some(stored) => {
                        let covered = conservative(stored, &facts.recomputed);
                        Self::report_if(
                            sink,
                            !covered,
                            VerifyIssueKind::SynopsisNotConservative,
                            hash,
                            partition,
                        );
                        proof {
                            let uncovered = finding_if(
                                !covered,
                                of(VerifyIssueKind::SynopsisNotConservative),
                            );
                            fed_in_parts(after_pair, count, uncovered);
                            fed_in_parts(start, pair, count + uncovered);
                        }
                    },
                }
            } else {
                let miscounted = facts.child_entries != expected;
                Self::report_if(sink, miscounted, VerifyIssueKind::CountMismatch, hash, partition);
                let unexpected = facts.synopsis.is_some();
                Self::report_if(sink, unexpected, VerifyIssueKind::Reachability, hash, partition);
                proof {
                    let count = finding_if(miscounted, of(VerifyIssueKind::CountMismatch));
                    let extra = finding_if(unexpected, of(VerifyIssueKind::Reachability));
                    fed_in_parts(after_pair, count, extra);
                    fed_in_parts(start, pair, count + extra);
                }
            }
        }
    }

    fn close_partition(&mut self, sink: &mut Sink, config: &IndexConfig) -> (res: bool)
        requires
            ascending(old(self)@.tree.table),
        ensures
            (final(sink)@, final(self)@) == old(self)@.partition_closed(old(sink)@),
            ascending(final(self)@.tree.table),
            res == (old(self)@.current matches Some(facts) && facts.actionable(
                config@.min_partition_entries,
                config@.max_partition_entries,
            )),
    {
        let mut current: Option<PartitionFacts> = None;
        core::mem::swap(&mut current, &mut self.current);
        let facts = match current {
            Some(facts) => facts,
            None => {
                return false;
            },
        };
        Self::report_partition(sink, self.tree.hash, &facts);
        let actionable = match facts.header {
            Some(header) => is_actionable(config, facts.partition, header),
            None => false,
        };
        sink.release_memory(facts.charged);
        let size: u64 = size_of::<ScannedPartition>() as u64;
        let charged: u64 = size.saturating_add(size);
        sink.charge_memory(charged);
        if sink.truncated() {
            return actionable;
        }
        self.charged = self.charged.saturating_add(charged);
        let level = match facts.header {
            Some(header) => Some(header.level),
            None => None,
        };
        self.tree.insert(facts.partition, PartitionSummary { level, transition: facts.transition });
        actionable
    }

    fn open_partition(
        &mut self,
        sink: &mut Sink,
        config: &IndexConfig,
        partition: PartitionKey,
        estimate: u64,
    ) -> (res: bool)
        requires
            ascending(old(self)@.tree.table),
        ensures
            (final(sink)@, final(self)@) == old(self)@.partition_opened(
                old(sink)@,
                partition,
                estimate,
            ),
            ascending(final(self)@.tree.table),
            res == (!old(self)@.is_current(partition) && (old(self)@.current matches Some(facts)
                && facts.actionable(
                config@.min_partition_entries,
                config@.max_partition_entries,
            ))),
    {
        let is_current = match &self.current {
            Some(facts) => facts.partition == partition,
            None => false,
        };
        if is_current {
            return false;
        }
        let actionable = self.close_partition(sink, config);
        let facts = PartitionFacts::new(partition, estimate);
        sink.charge_memory(facts.charged);
        if sink.truncated() {
            return actionable;
        }
        self.current = Some(facts);
        actionable
    }

    fn finish(self, sink: &mut Sink, config: &IndexConfig) -> (res: bool)
        requires
            ascending(self@.tree.table),
        ensures
            final(sink)@ == self@.finished(old(sink)@),
            res == (self@.current matches Some(facts) && facts.actionable(
                config@.min_partition_entries,
                config@.max_partition_entries,
            )),
    {
        let mut walk = self;
        let actionable = walk.close_partition(sink, config);
        let parts: u64 = (walk.tree.table.len() as u64).saturating_add(
            walk.tree.edges.len() as u64,
        );
        let transients: u64 = match parts.checked_mul(size_of::<Edge>() as u64) {
            Some(bytes) => bytes,
            None => u64::MAX,
        };
        sink.charge_memory(transients);
        let charged: u64 = walk.charged.saturating_add(transients);
        if !sink.truncated() {
            walk.tree.check_tree(sink);
        }
        sink.release_memory(charged);
        actionable
    }
}

/// The listed Tree Manifests and the tree that is being scanned.
pub struct TopologyLedger {
    config: IndexConfig,
    trees: ByKey<ListedTree>,
    walk: Option<TreeWalk>,
    actionable: u64,
    estimate: u64,
}

impl TopologyLedger {
    /// What was scanned.
    pub closed spec fn view(&self) -> LedgerView {
        LedgerView {
            trees: self.trees@,
            walk: match self.walk {
                Some(walk) => Some(walk@),
                None => None,
            },
            actionable: self.actionable,
            estimate: self.estimate,
            minimum: self.config@.min_partition_entries,
            maximum: self.config@.max_partition_entries,
        }
    }

    /// An audit that scanned nothing yet. `estimate` is the resident size of
    /// one in-memory Synopsis of the index.
    pub fn new(config: &IndexConfig, estimate: u64) -> (res: Self)
        ensures
            res@ == (LedgerView {
                trees: Seq::empty(),
                walk: None,
                actionable: 0,
                estimate,
                minimum: config@.min_partition_entries,
                maximum: config@.max_partition_entries,
            }),
            res@.valid(),
    {
        TopologyLedger {
            config: config.clone(),
            trees: ByKey::new(),
            walk: None,
            actionable: 0,
            estimate,
        }
    }

    /// Returns the number of partitions that let Structure Maintenance
    /// advance.
    pub fn actionable(&self) -> (res: u64)
        ensures
            res == self@.actionable,
    {
        self.actionable
    }

    /// Notes one scanned Tree Manifest.
    pub fn note_tree_manifest(
        &mut self,
        sink: &mut Sink,
        tree: &HashedTreeKey,
        manifest: TreeManifest,
    )
        requires
            old(self)@.valid(),
        ensures
            (Walked { sink: final(sink)@, ledger: final(self)@ }) == old(self)@.manifest_noted(
                old(sink)@,
                tree.key@,
                ListedTree { hash: tree.hash, manifest },
            ),
            final(self)@.valid(),
    {
        sink.charge_memory(Self::listed_bytes(&tree.key));
        if sink.truncated() {
            return;
        }
        self.trees.insert(copy_bytes(&tree.key), ListedTree { hash: tree.hash, manifest });
    }

    fn listed_bytes(key: &Vec<u8>) -> (res: u64)
        ensures
            res == listed_size(key@),
    {
        (key.len() as u64).saturating_add(size_of::<ListedTree>() as u64)
    }

    fn note_actionable(&mut self, actionable: bool)
        ensures
            final(self)@ == (LedgerView {
                actionable: if actionable {
                    one_more(old(self)@.actionable)
                } else {
                    old(self)@.actionable
                },
                ..old(self)@
            }),
    {
        if actionable {
            self.actionable = self.actionable.saturating_add(1);
        }
    }

    fn close_walk(&mut self, sink: &mut Sink)
        requires
            old(self)@.valid(),
        ensures
            (Walked { sink: final(sink)@, ledger: final(self)@ }) == old(self)@.walk_closed(
                old(sink)@,
            ),
            final(self)@.walk is None,
    {
        let mut walk: Option<TreeWalk> = None;
        core::mem::swap(&mut walk, &mut self.walk);
        if let Some(walk) = walk {
            let actionable = walk.finish(sink, &self.config);
            self.note_actionable(actionable);
        }
    }

    fn open_tree(&mut self, sink: &mut Sink, tree: &HashedTreeKey)
        requires
            old(self)@.valid(),
        ensures
            (Walked { sink: final(sink)@, ledger: final(self)@ }) == old(self)@.tree_opened(
                old(sink)@,
                tree.key@,
                tree.hash@,
            ),
            final(self)@.valid(),
            final(self)@.walk is Some,
    {
        let same_tree = match &self.walk {
            Some(walk) => same_bytes(&walk.key, &tree.key),
            None => false,
        };
        if same_tree {
            return;
        }
        self.close_walk(sink);
        let listed = self.trees.take(&tree.key);
        let manifest = match listed {
            Some(listed) => {
                sink.release_memory(Self::listed_bytes(&tree.key));
                Some(listed.manifest)
            },
            None => None,
        };
        let size: u64 = size_of::<TreeWalk>() as u64;
        let charged: u64 = size.saturating_add(tree.key.len() as u64);
        sink.charge_memory(charged);
        self.walk = Some(
            TreeWalk {
                key: copy_bytes(&tree.key),
                tree: TreeFacts::new(tree.hash, manifest),
                current: None,
                charged,
            },
        );
    }

    fn open_partition(
        &mut self,
        sink: &mut Sink,
        tree: &HashedTreeKey,
        partition: PartitionKey,
    ) -> (res: TreeWalk)
        requires
            old(self)@.valid(),
        ensures
            ({
                let opened = old(self)@.opened(old(sink)@, tree.key@, tree.hash@, partition);
                &&& final(sink)@ == opened.sink
                &&& opened.ledger.walk == Some(res@)
                &&& final(self)@ == (LedgerView { walk: None, ..opened.ledger })
            }),
            ascending(res@.tree.table),
    {
        self.open_tree(sink, tree);
        let mut held: Option<TreeWalk> = None;
        core::mem::swap(&mut held, &mut self.walk);
        match held {
            Some(mut walk) => {
                let actionable = walk.open_partition(sink, &self.config, partition, self.estimate);
                self.note_actionable(actionable);
                walk
            },
            None => {
                assert(false);
                TreeWalk {
                    key: Vec::new(),
                    tree: TreeFacts::new(tree.hash, None),
                    current: None,
                    charged: 0,
                }
            },
        }
    }

    /// Notes one scanned Header.
    pub fn absorb_header(
        &mut self,
        sink: &mut Sink,
        tree: &HashedTreeKey,
        partition: PartitionKey,
        header: PartitionHeader,
    )
        requires
            old(self)@.valid(),
        ensures
            (Walked { sink: final(sink)@, ledger: final(self)@ }) == old(self)@.header_absorbed(
                old(sink)@,
                tree.key@,
                tree.hash@,
                partition,
                header,
            ),
            final(self)@.valid(),
    {
        let mut walk = self.open_partition(sink, tree, partition);
        if let Some(facts) = &mut walk.current {
            facts.header = Some(header);
        }
        self.walk = Some(walk);
    }

    /// Notes one scanned State.
    pub fn absorb_state(
        &mut self,
        sink: &mut Sink,
        tree: &HashedTreeKey,
        partition: PartitionKey,
        transition: PartitionTransition,
    )
        requires
            old(self)@.valid(),
        ensures
            (Walked { sink: final(sink)@, ledger: final(self)@ }) == old(self)@.state_absorbed(
                old(sink)@,
                tree.key@,
                tree.hash@,
                partition,
                transition,
            ),
            final(self)@.valid(),
    {
        let mut walk = self.open_partition(sink, tree, partition);
        if let Some(facts) = &mut walk.current {
            facts.transition = Some(transition);
        }
        self.walk = Some(walk);
    }

    /// Notes one scanned Synopsis.
    pub fn absorb_synopsis(
        &mut self,
        sink: &mut Sink,
        tree: &HashedTreeKey,
        partition: PartitionKey,
        synopsis: PartitionSynopsis,
    )
        requires
            old(self)@.valid(),
        ensures
            (Walked { sink: final(sink)@, ledger: final(self)@ }) == old(self)@.synopsis_absorbed(
                old(sink)@,
                tree.key@,
                tree.hash@,
                partition,
                synopsis@,
            ),
            final(self)@.valid(),
    {
        let mut walk = self.open_partition(sink, tree, partition);
        sink.charge_memory(self.estimate);
        if !sink.truncated() {
            if let Some(facts) = &mut walk.current {
                facts.charged = facts.charged.saturating_add(self.estimate);
                facts.synopsis = Some(synopsis);
            }
        }
        self.walk = Some(walk);
    }

    /// Notes one scanned centroid: only that its partition exists.
    pub fn absorb_centroid(&mut self, sink: &mut Sink, tree: &HashedTreeKey, partition: PartitionKey)
        requires
            old(self)@.valid(),
        ensures
            (Walked { sink: final(sink)@, ledger: final(self)@ }) == old(self)@.opened(
                old(sink)@,
                tree.key@,
                tree.hash@,
                partition,
            ),
            final(self)@.valid(),
    {
        let walk = self.open_partition(sink, tree, partition);
        self.walk = Some(walk);
    }

    /// Notes one scanned Leaf Entry: counts it, keeps the recomputed Synopsis,
    /// and joins it with its record.
    pub fn absorb_leaf_entry(
        &mut self,
        sink: &mut Sink,
        records: &mut RecordLedger,
        tree: &HashedTreeKey,
        partition: PartitionKey,
        entry: LeafEntryItem,
    )
        requires
            old(self)@.valid(),
        ensures
            (Walked { sink: final(sink)@, ledger: final(self)@ }, final(records)@)
                == old(self)@.leaf_entry_absorbed(
                old(sink)@,
                old(records)@,
                tree.key@,
                tree.hash@,
                partition,
                entry@,
            ),
            final(self)@.valid(),
    {
        let mut walk = self.open_partition(sink, tree, partition);
        if sink.truncated() {
            self.walk = Some(walk);
            return;
        }
        if let Some(facts) = &mut walk.current {
            facts.leaf_entries = facts.leaf_entries.saturating_add(1);
            let misplaced = match facts.header {
                Some(header) => header.level != 1,
                None => false,
            };
            if misplaced {
                sink.issue(
                    VerifyIssueKind::Membership,
                    Some(tree.hash),
                    Some(partition),
                    Some(&entry.id),
                );
            } else {
                match entry.expanded {
                    Some(expanded) => {
                        facts.recomputed = Some(expanded);
                    },
                    None => {
                        sink.issue(
                            VerifyIssueKind::InvalidEncoding,
                            Some(tree.hash),
                            Some(partition),
                            Some(&entry.id),
                        );
                    },
                }
            }
        }
        records.join_leaf_entry(sink, tree, partition, &entry.id, &entry.bytes);
        self.walk = Some(walk);
    }

    /// Notes one scanned Child Entry: counts it and keeps its edge.
    pub fn absorb_child_entry(
        &mut self,
        sink: &mut Sink,
        tree: &HashedTreeKey,
        partition: PartitionKey,
        child: PartitionKey,
    )
        requires
            old(self)@.valid(),
        ensures
            (Walked { sink: final(sink)@, ledger: final(self)@ })
                == old(self)@.child_entry_absorbed(
                old(sink)@,
                tree.key@,
                tree.hash@,
                partition,
                child,
            ),
            final(self)@.valid(),
    {
        let mut walk = self.open_partition(sink, tree, partition);
        let mut keeps_edge = false;
        if !sink.truncated() {
            if let Some(facts) = &mut walk.current {
                facts.child_entries = facts.child_entries.saturating_add(1);
                let in_leaf = match facts.header {
                    Some(header) => header.level == 1,
                    None => false,
                };
                if in_leaf || child == partition {
                    sink.issue(
                        VerifyIssueKind::Membership,
                        Some(tree.hash),
                        Some(partition),
                        None,
                    );
                } else {
                    sink.charge_memory(size_of::<Edge>() as u64);
                    keeps_edge = !sink.truncated();
                }
            }
        }
        if keeps_edge {
            walk.tree.edges.push(Edge { parent: partition, child });
            walk.charged = walk.charged.saturating_add(size_of::<Edge>() as u64);
        }
        self.walk = Some(walk);
    }

    /// Closes the tree that is being scanned and reports every unclaimed Tree
    /// Manifest.
    pub fn finish(&mut self, sink: &mut Sink)
        requires
            old(self)@.valid(),
        ensures
            (Walked { sink: final(sink)@, ledger: final(self)@ }) == old(self)@.finished(
                old(sink)@,
            ),
            final(self)@.valid(),
    {
        self.close_walk(sink);
        let ghost start = sink@;
        let slots: usize = self.trees.len();
        let mut i: usize = 0;
        while i < slots
            invariant
                i <= slots,
                slots == self.trees@.len(),
                sink@ == self@.unclaimed_reported(start, i as int),
            decreases slots - i,
        {
            let slot = self.trees.slot(i);
            if !sink.truncated() {
                sink.issue(
                    VerifyIssueKind::Reachability,
                    Some(slot.value.hash),
                    Some(PartitionKey::root()),
                    None,
                );
                sink.release_memory(Self::listed_bytes(&slot.key));
            }
            i = i + 1;
        }
        self.trees = ByKey::new();
    }
}

} // verus!
