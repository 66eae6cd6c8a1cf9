//! One bounded read-only audit of a consistent snapshot.
//!
//! The audit takes the decoded objects of one ordered scan, page by page.
//! Reaching a limit stops it, and what was found so far is the report; nothing
//! is concluded from a scan that did not end, so a partial walk cannot invent
//! findings.

use vstd::prelude::*;

use crate::api::config::IndexConfig;
use crate::api::identifiers::{LogicalIndexId, PartitionKey};
use crate::api::verify::{
    VerifyIssueKind, VerifyObjectCounts, VerifyOptions, VerifyPartitionStateCounts, VerifyReport,
    VerifyTopology,
};
use crate::topology::{PartitionHeader, PartitionState, PartitionTransition};
use crate::verify::limits::Limits;
use crate::verify::records::{Joined, Location, LocationView, RecordLedger, RecordsView};
use crate::verify::sink::{issue_views, Finding, HashedTreeKey, Sink, SinkView};
use crate::verify::synopsis::{
    opt_synopsis, saturated, synopsis_bytes, synopsis_estimate, PartitionSynopsis, SynopsisView,
};
use crate::verify::topology::{
    one_more, LeafEntryItem, LeafEntryView, LedgerView, TopologyLedger, Walked,
};
use crate::verify::tree::TreeManifest;

verus! {

/// One decoded key.
pub enum ScannedKey {
    /// A key that owns nothing to check: the Manifest, which was validated
    /// before, or a namespace key.
    Namespace,
    /// A Vector Record.
    Record {
        /// The Record ID.
        id: Vec<u8>,
    },
    /// A Record Location.
    Location {
        /// The Record ID.
        id: Vec<u8>,
    },
    /// An Opaque Payload.
    Payload {
        /// The Record ID.
        id: Vec<u8>,
    },
    /// A Tree Manifest.
    TreeManifest {
        /// The tree.
        tree: HashedTreeKey,
    },
    /// A partition Header.
    Header {
        /// The tree.
        tree: HashedTreeKey,
        /// The partition.
        partition: PartitionKey,
    },
    /// A partition Synopsis.
    Synopsis {
        /// The tree.
        tree: HashedTreeKey,
        /// The partition.
        partition: PartitionKey,
    },
    /// A partition State.
    State {
        /// The tree.
        tree: HashedTreeKey,
        /// The partition.
        partition: PartitionKey,
    },
    /// A partition centroid.
    Centroid {
        /// The tree.
        tree: HashedTreeKey,
        /// The partition.
        partition: PartitionKey,
    },
    /// A Leaf Entry.
    LeafEntry {
        /// The tree.
        tree: HashedTreeKey,
        /// The partition.
        partition: PartitionKey,
        /// The Record ID.
        id: Vec<u8>,
    },
    /// A Child Entry.
    ChildEntry {
        /// The tree.
        tree: HashedTreeKey,
        /// The partition.
        partition: PartitionKey,
        /// The named partition.
        child: PartitionKey,
    },
}

/// The mathematical content of a [`ScannedKey`]: a tree is its key and hash.
pub ghost enum KeyView {
    /// A key that owns nothing to check.
    Namespace,
    /// A Vector Record.
    Record { id: Seq<u8> },
    /// A Record Location.
    Location { id: Seq<u8> },
    /// An Opaque Payload.
    Payload { id: Seq<u8> },
    /// A Tree Manifest.
    TreeManifest { key: Seq<u8>, hash: [u8; 32] },
    /// A partition Header.
    Header { key: Seq<u8>, hash: [u8; 32], partition: PartitionKey },
    /// A partition Synopsis.
    Synopsis { key: Seq<u8>, hash: [u8; 32], partition: PartitionKey },
    /// A partition State.
    State { key: Seq<u8>, hash: [u8; 32], partition: PartitionKey },
    /// A partition centroid.
    Centroid { key: Seq<u8>, hash: [u8; 32], partition: PartitionKey },
    /// A Leaf Entry.
    LeafEntry { key: Seq<u8>, hash: [u8; 32], partition: PartitionKey, id: Seq<u8> },
    /// A Child Entry.
    ChildEntry { key: Seq<u8>, hash: [u8; 32], partition: PartitionKey, child: PartitionKey },
}

impl ScannedKey {
    /// The content.
    pub open spec fn view(&self) -> KeyView {
        match self {
            ScannedKey::Namespace => KeyView::Namespace,
            ScannedKey::Record { id } => KeyView::Record { id: id@ },
            ScannedKey::Location { id } => KeyView::Location { id: id@ },
            ScannedKey::Payload { id } => KeyView::Payload { id: id@ },
            ScannedKey::TreeManifest { tree } => KeyView::TreeManifest {
                key: tree.key@,
                hash: tree.hash,
            },
            ScannedKey::Header { tree, partition } => KeyView::Header {
                key: tree.key@,
                hash: tree.hash,
                partition: *partition,
            },
            ScannedKey::Synopsis { tree, partition } => KeyView::Synopsis {
                key: tree.key@,
                hash: tree.hash,
                partition: *partition,
            },
            ScannedKey::State { tree, partition } => KeyView::State {
                key: tree.key@,
                hash: tree.hash,
                partition: *partition,
            },
            ScannedKey::Centroid { tree, partition } => KeyView::Centroid {
                key: tree.key@,
                hash: tree.hash,
                partition: *partition,
            },
            ScannedKey::LeafEntry { tree, partition, id } => KeyView::LeafEntry {
                key: tree.key@,
                hash: tree.hash,
                partition: *partition,
                id: id@,
            },
            ScannedKey::ChildEntry { tree, partition, child } => KeyView::ChildEntry {
                key: tree.key@,
                hash: tree.hash,
                partition: *partition,
                child: *child,
            },
        }
    }
}

impl KeyView {
    /// The stable hash of the tree the key belongs to.
    pub open spec fn tree(self) -> Option<Seq<u8>> {
        match self {
            KeyView::TreeManifest { hash, .. } => Some(hash@),
            KeyView::Header { hash, .. } => Some(hash@),
            KeyView::Synopsis { hash, .. } => Some(hash@),
            KeyView::State { hash, .. } => Some(hash@),
            KeyView::Centroid { hash, .. } => Some(hash@),
            KeyView::LeafEntry { hash, .. } => Some(hash@),
            KeyView::ChildEntry { hash, .. } => Some(hash@),
            _ => None,
        }
    }

    /// The partition the key belongs to.
    pub open spec fn partition(self) -> Option<PartitionKey> {
        match self {
            KeyView::Header { partition, .. } => Some(partition),
            KeyView::Synopsis { partition, .. } => Some(partition),
            KeyView::State { partition, .. } => Some(partition),
            KeyView::Centroid { partition, .. } => Some(partition),
            KeyView::LeafEntry { partition, .. } => Some(partition),
            KeyView::ChildEntry { partition, .. } => Some(partition),
            _ => None,
        }
    }

    /// The record the key belongs to.
    pub open spec fn record_id(self) -> Option<Seq<u8>> {
        match self {
            KeyView::Record { id } => Some(id),
            KeyView::Location { id } => Some(id),
            KeyView::Payload { id } => Some(id),
            KeyView::LeafEntry { id, .. } => Some(id),
            _ => None,
        }
    }

    /// The finding about a value that does not belong to the key.
    pub open spec fn malformed(self) -> Finding {
        Finding {
            kind: VerifyIssueKind::InvalidEncoding,
            tree: self.tree(),
            partition: self.partition(),
            record_id: self.record_id(),
        }
    }

    /// Whether the key belongs to a tree: Record Groups end before the first
    /// such key.
    pub open spec fn of_a_tree(self) -> bool {
        self.tree() is Some
    }
}

/// One decoded value.
pub enum ScannedValue {
    /// A Vector Record, with the encoding of the Leaf Entry that belongs to
    /// it, unless the record cannot be projected.
    VectorRecord {
        /// The encoding.
        canonical: Option<Vec<u8>>,
    },
    /// A Record Location.
    RecordLocation {
        /// The location.
        location: Location,
    },
    /// An Opaque Payload.
    OpaquePayload,
    /// A Tree Manifest.
    TreeManifest {
        /// The Tree Manifest.
        manifest: TreeManifest,
    },
    /// A partition Header.
    PartitionHeader {
        /// The Header.
        header: PartitionHeader,
    },
    /// A partition Synopsis.
    PartitionSynopsis {
        /// The Synopsis.
        synopsis: PartitionSynopsis,
    },
    /// A partition State.
    PartitionState {
        /// The State.
        transition: PartitionTransition,
    },
    /// A partition centroid.
    PartitionCentroid,
    /// A Leaf Entry.
    LeafEntry {
        /// The recomputed Synopsis of its partition with this entry, unless it
        /// could not be expanded.
        expanded: Option<PartitionSynopsis>,
        /// The scanned bytes.
        bytes: Vec<u8>,
    },
    /// A Child Entry.
    ChildEntry,
    /// Any other value.
    Other,
}

/// The mathematical content of a [`ScannedValue`].
pub ghost enum BodyView {
    /// A Vector Record.
    VectorRecord { canonical: Option<Seq<u8>> },
    /// A Record Location.
    RecordLocation { location: LocationView },
    /// An Opaque Payload.
    OpaquePayload,
    /// A Tree Manifest.
    TreeManifest { manifest: TreeManifest },
    /// A partition Header.
    PartitionHeader { header: PartitionHeader },
    /// A partition Synopsis.
    PartitionSynopsis { synopsis: SynopsisView },
    /// A partition State.
    PartitionState { transition: PartitionTransition },
    /// A partition centroid.
    PartitionCentroid,
    /// A Leaf Entry.
    LeafEntry { expanded: Option<SynopsisView>, bytes: Seq<u8> },
    /// A Child Entry.
    ChildEntry,
    /// Any other value.
    Other,
}

impl ScannedValue {
    /// The content.
    pub open spec fn view(&self) -> BodyView {
        match self {
            ScannedValue::VectorRecord { canonical } => BodyView::VectorRecord {
                canonical: match canonical {
                    Some(bytes) => Some(bytes@),
                    None => None,
                },
            },
            ScannedValue::RecordLocation { location } => BodyView::RecordLocation {
                location: location@,
            },
            ScannedValue::OpaquePayload => BodyView::OpaquePayload,
            ScannedValue::TreeManifest { manifest } => BodyView::TreeManifest {
                manifest: *manifest,
            },
            ScannedValue::PartitionHeader { header } => BodyView::PartitionHeader {
                header: *header,
            },
            ScannedValue::PartitionSynopsis { synopsis } => BodyView::PartitionSynopsis {
                synopsis: synopsis@,
            },
            ScannedValue::PartitionState { transition } => BodyView::PartitionState {
                transition: *transition,
            },
            ScannedValue::PartitionCentroid => BodyView::PartitionCentroid,
            ScannedValue::LeafEntry { expanded, bytes } => BodyView::LeafEntry {
                expanded: opt_synopsis(*expanded),
                bytes: bytes@,
            },
            ScannedValue::ChildEntry => BodyView::ChildEntry,
            ScannedValue::Other => BodyView::Other,
        }
    }
}

/// One scanned pair of key and value.
pub enum ScannedItem {
    /// The key does not decode.
    BadKey,
    /// The value does not decode.
    BadValue {
        /// The key.
        key: ScannedKey,
    },
    /// Both decode.
    Decoded {
        /// The key.
        key: ScannedKey,
        /// The value.
        value: ScannedValue,
    },
}

/// The mathematical content of a [`ScannedItem`].
pub ghost enum ItemView {
    /// The key does not decode.
    BadKey,
    /// The value does not decode.
    BadValue { key: KeyView },
    /// Both decode.
    Decoded { key: KeyView, body: BodyView },
}

impl ScannedItem {
    /// The content.
    pub open spec fn view(&self) -> ItemView {
        match self {
            ScannedItem::BadKey => ItemView::BadKey,
            ScannedItem::BadValue { key } => ItemView::BadValue { key: key@ },
            ScannedItem::Decoded { key, value } => ItemView::Decoded { key: key@, body: value@ },
        }
    }
}

/// The mathematical content of a [`VerifyTopology`].
#[verifier::ext_equal]
pub ghost struct ShapeView {
    /// The Tree Manifests.
    pub trees: u64,
    /// The Headers.
    pub partitions: u64,
    /// The highest level.
    pub max_level: Option<u32>,
    /// The Headers by level.
    pub partitions_by_level: Map<u32, u64>,
    /// The entries by level.
    pub entries_by_level: Map<u32, u64>,
    /// The largest partition by level.
    pub max_entries_by_level: Map<u32, u32>,
    /// The Headers by state.
    pub partition_states: VerifyPartitionStateCounts,
    /// The partitions that let Structure Maintenance advance.
    pub actionable_partitions: u64,
}

/// The content of a topology.
pub open spec fn shape_view(topology: VerifyTopology) -> ShapeView {
    ShapeView {
        trees: topology.trees,
        partitions: topology.partitions,
        max_level: topology.max_level,
        partitions_by_level: topology.partitions_by_level@,
        entries_by_level: topology.entries_by_level@,
        max_entries_by_level: topology.max_entries_by_level@,
        partition_states: topology.partition_states,
        actionable_partitions: topology.actionable_partitions,
    }
}

/// The count of a level, nothing without one.
pub open spec fn level_count(counts: Map<u32, u64>, level: u32) -> u64 {
    if counts.contains_key(level) {
        counts[level]
    } else {
        0
    }
}

/// The largest partition of a level, nothing without one.
pub open spec fn level_largest(largest: Map<u32, u32>, level: u32) -> u32 {
    if largest.contains_key(level) {
        largest[level]
    } else {
        0
    }
}

/// The state counts with one more partition.
pub open spec fn state_counted(
    counts: VerifyPartitionStateCounts,
    state: PartitionState,
) -> VerifyPartitionStateCounts {
    match state {
        PartitionState::Ready => VerifyPartitionStateCounts {
            ready: one_more(counts.ready),
            ..counts
        },
        PartitionState::Splitting => VerifyPartitionStateCounts {
            splitting: one_more(counts.splitting),
            ..counts
        },
        PartitionState::ReceivingSplit => VerifyPartitionStateCounts {
            receiving_split: one_more(counts.receiving_split),
            ..counts
        },
        PartitionState::DrainingSplit => VerifyPartitionStateCounts {
            draining_split: one_more(counts.draining_split),
            ..counts
        },
        PartitionState::Merging => VerifyPartitionStateCounts {
            merging: one_more(counts.merging),
            ..counts
        },
    }
}

impl ShapeView {
    /// With one more Header.
    pub open spec fn header_counted(self, header: PartitionHeader) -> ShapeView {
        let level = header.level;
        let largest = level_largest(self.max_entries_by_level, level);
        ShapeView {
            partitions: one_more(self.partitions),
            max_level: match self.max_level {
                Some(highest) => Some(
                    if highest >= level {
                        highest
                    } else {
                        level
                    },
                ),
                None => Some(level),
            },
            partitions_by_level: self.partitions_by_level.insert(
                level,
                one_more(level_count(self.partitions_by_level, level)),
            ),
            entries_by_level: self.entries_by_level.insert(
                level,
                saturated(
                    level_count(self.entries_by_level, level) + header.entry_count,
                ) as u64,
            ),
            max_entries_by_level: self.max_entries_by_level.insert(
                level,
                if largest >= header.entry_count {
                    largest
                } else {
                    header.entry_count
                },
            ),
            partition_states: state_counted(self.partition_states, header.state),
            ..self
        }
    }
}

/// What one audit has learned.
#[verifier::ext_equal]
pub ghost struct AuditView {
    /// The limits and the reported issues.
    pub sink: SinkView,
    /// The decoded objects.
    pub counts: VerifyObjectCounts,
    /// The tree shapes.
    pub shape: ShapeView,
    /// The records.
    pub records: RecordsView,
    /// The topology.
    pub ledger: LedgerView,
}

/// What the allocator of the namespace holds.
pub enum AllocatorRead {
    /// There is none.
    Absent,
    /// It does not decode.
    Malformed,
    /// The largest Logical Index ID allocated so far.
    HighWater(u64),
}

impl AuditView {
    /// With the objects counted by category.
    pub open spec fn counted(self, body: BodyView) -> AuditView {
        let counts = VerifyObjectCounts { total: one_more(self.counts.total), ..self.counts };
        match body {
            BodyView::VectorRecord { .. } => AuditView {
                counts: VerifyObjectCounts {
                    vector_records: one_more(counts.vector_records),
                    ..counts
                },
                ..self
            },
            BodyView::RecordLocation { .. } => AuditView {
                counts: VerifyObjectCounts {
                    record_locations: one_more(counts.record_locations),
                    ..counts
                },
                ..self
            },
            BodyView::TreeManifest { .. } => AuditView {
                counts,
                shape: ShapeView { trees: one_more(self.shape.trees), ..self.shape },
                ..self
            },
            BodyView::PartitionHeader { header } => AuditView {
                counts: VerifyObjectCounts { partitions: one_more(counts.partitions), ..counts },
                shape: self.shape.header_counted(header),
                ..self
            },
            BodyView::PartitionSynopsis { .. } => AuditView {
                counts: VerifyObjectCounts { partitions: one_more(counts.partitions), ..counts },
                ..self
            },
            BodyView::PartitionState { .. } => AuditView {
                counts: VerifyObjectCounts { partitions: one_more(counts.partitions), ..counts },
                ..self
            },
            BodyView::PartitionCentroid => AuditView {
                counts: VerifyObjectCounts { partitions: one_more(counts.partitions), ..counts },
                ..self
            },
            BodyView::LeafEntry { .. } => AuditView {
                counts: VerifyObjectCounts { entries: one_more(counts.entries), ..counts },
                ..self
            },
            BodyView::ChildEntry => AuditView {
                counts: VerifyObjectCounts { entries: one_more(counts.entries), ..counts },
                ..self
            },
            _ => AuditView { counts, ..self },
        }
    }

    /// With one more finding.
    pub open spec fn found(self, finding: Finding) -> AuditView {
        AuditView { sink: self.sink.issued(finding), ..self }
    }

    /// With another state of sink and records.
    pub open spec fn joined(self, joined: Joined) -> AuditView {
        AuditView { sink: joined.sink, records: joined.records, ..self }
    }

    /// With another state of sink and topology.
    pub open spec fn walked(self, walked: Walked) -> AuditView {
        AuditView { sink: walked.sink, ledger: walked.ledger, ..self }
    }

    /// A key the scan reached: the first key of a tree ends the Record Groups.
    pub open spec fn reached(self, key: KeyView) -> AuditView {
        if key.of_a_tree() {
            self.joined(self.records.groups_finished(self.sink))
        } else {
            self
        }
    }

    /// With one decoded object handed to its ledger.
    pub open spec fn dispatched(self, key: KeyView, body: BodyView) -> AuditView {
        match (key, body) {
            (KeyView::Record { id }, BodyView::VectorRecord { canonical }) => self.joined(
                self.records.record_noted(self.sink, id, canonical),
            ),
            (KeyView::Location { id }, BodyView::RecordLocation { location }) => self.joined(
                self.records.location_noted(self.sink, id, location),
            ),
            (KeyView::Payload { id }, BodyView::OpaquePayload) => self.joined(
                self.records.payload_noted(self.sink, id),
            ),
            (KeyView::TreeManifest { key, hash }, BodyView::TreeManifest { manifest }) =>
                self.walked(
                self.ledger.manifest_noted(
                    self.sink,
                    key,
                    crate::verify::topology::ListedTree { hash, manifest },
                ),
            ),
            (
                KeyView::Header { key, hash, partition },
                BodyView::PartitionHeader { header },
            ) => self.walked(
                self.ledger.header_absorbed(self.sink, key, hash@, partition, header),
            ),
            (
                KeyView::Synopsis { key, hash, partition },
                BodyView::PartitionSynopsis { synopsis },
            ) => self.walked(
                self.ledger.synopsis_absorbed(self.sink, key, hash@, partition, synopsis),
            ),
            (
                KeyView::State { key, hash, partition },
                BodyView::PartitionState { transition },
            ) => self.walked(
                self.ledger.state_absorbed(self.sink, key, hash@, partition, transition),
            ),
            (KeyView::Centroid { key, hash, partition }, BodyView::PartitionCentroid) =>
                self.walked(self.ledger.opened(self.sink, key, hash@, partition)),
            (
                KeyView::LeafEntry { key, hash, partition, id },
                BodyView::LeafEntry { expanded, bytes },
            ) => {
                let (walked, records) = self.ledger.leaf_entry_absorbed(
                    self.sink,
                    self.records,
                    key,
                    hash@,
                    partition,
                    LeafEntryView { id, expanded, bytes },
                );
                AuditView { records, ..self.walked(walked) }
            },
            (KeyView::ChildEntry { key, hash, partition, child }, BodyView::ChildEntry) =>
                self.walked(
                self.ledger.child_entry_absorbed(self.sink, key, hash@, partition, child),
            ),
            (KeyView::Namespace, _) => self,
            _ => self.found(key.malformed()),
        }
    }

    /// After one scanned item: an item that does not decode is a finding with
    /// what its key tells; any other is counted and handed to its ledger.
    #[verifier::opaque]
    pub open spec fn processed(self, item: ItemView) -> AuditView {
        match item {
            ItemView::BadKey => self.found(
                Finding {
                    kind: VerifyIssueKind::InvalidEncoding,
                    tree: None,
                    partition: None,
                    record_id: None,
                },
            ),
            ItemView::BadValue { key } => self.found(key.malformed()),
            ItemView::Decoded { key, body } => self.counted(body).reached(key).dispatched(
                key,
                body,
            ),
        }
    }

    /// After the scan met one item: it is charged as one object, and not
    /// looked at once the audit stopped.
    pub open spec fn met(self, item: ItemView) -> AuditView {
        let charged = AuditView { sink: self.sink.object_charged(), ..self };
        if charged.sink.truncated {
            charged
        } else {
            charged.processed(item)
        }
    }

    /// After the scan met the first `n` items of a page.
    pub open spec fn items_processed(self, items: Seq<ItemView>, n: int) -> AuditView
        decreases n,
    {
        if n <= 0 {
            self
        } else {
            self.items_processed(items, n - 1).met(items[n - 1])
        }
    }

    /// After one scanned page, whose bytes are resident while it is looked at.
    pub open spec fn page_processed(self, items: Seq<ItemView>, bytes: int) -> AuditView {
        let charged = AuditView { sink: self.sink.memory_charged(bytes), ..self };
        let looked = charged.items_processed(items, items.len() as int);
        AuditView { sink: looked.sink.memory_released(bytes), ..looked }
    }

    /// After the allocator of the namespace was read.
    pub open spec fn allocator_checked(self, read: AllocatorRead) -> AuditView {
        let charged = AuditView { sink: self.sink.object_charged(), ..self };
        let of = |kind: VerifyIssueKind|
            Finding { kind, tree: None, partition: None, record_id: None };
        if charged.sink.truncated {
            charged
        } else {
            match read {
                AllocatorRead::Absent => charged.found(of(VerifyIssueKind::Reachability)),
                AllocatorRead::Malformed => charged.found(of(VerifyIssueKind::InvalidEncoding)),
                AllocatorRead::HighWater(high_water) => {
                    let counted = charged.counted(BodyView::Other);
                    if self.sink.index@ > high_water {
                        counted.found(of(VerifyIssueKind::CountMismatch))
                    } else {
                        counted
                    }
                },
            }
        }
    }

    /// After the scan ended: nothing is concluded from a stopped audit.
    pub open spec fn scan_finished(self) -> AuditView {
        if self.sink.truncated {
            self
        } else {
            let grouped = self.joined(self.records.groups_finished(self.sink));
            let walked = grouped.walked(grouped.ledger.finished(grouped.sink));
            if walked.sink.truncated {
                walked
            } else {
                AuditView {
                    sink: crate::verify::sink::fed(
                        walked.sink,
                        walked.records.leftover_findings(walked.records.facts.len() as int),
                    ),
                    ..walked
                }
            }
        }
    }
}

/// The state of one audit.
pub struct Audit {
    sink: Sink,
    counts: VerifyObjectCounts,
    topology: VerifyTopology,
    records: RecordLedger,
    ledger: TopologyLedger,
}

/// Nothing counted yet.
pub open spec fn no_counts() -> VerifyObjectCounts {
    VerifyObjectCounts {
        total: 0,
        vector_records: 0,
        record_locations: 0,
        partitions: 0,
        entries: 0,
    }
}

/// No tree seen yet.
pub open spec fn no_shape() -> ShapeView {
    ShapeView {
        trees: 0,
        partitions: 0,
        max_level: None,
        partitions_by_level: Map::empty(),
        entries_by_level: Map::empty(),
        max_entries_by_level: Map::empty(),
        partition_states: VerifyPartitionStateCounts {
            ready: 0,
            splitting: 0,
            receiving_split: 0,
            draining_split: 0,
            merging: 0,
        },
        actionable_partitions: 0,
    }
}

/// The content of the items of a page.
pub open spec fn item_views(items: Seq<ScannedItem>) -> Seq<ItemView> {
    Seq::new(items.len(), |i: int| items[i]@)
}

/// The encoded bytes of some pairs of key and value sizes.
pub open spec fn encoded_bytes(sizes: Seq<(usize, usize)>, n: int) -> int
    decreases n,
{
    if n <= 0 {
        0
    } else {
        encoded_bytes(sizes, n - 1) + sizes[n - 1].0 + sizes[n - 1].1
    }
}

/// Returns the encoded bytes of one page, given the sizes of its keys and
/// values.
pub fn page_bytes(sizes: &Vec<(usize, usize)>) -> (res: u64)
    ensures
        res == saturated(encoded_bytes(sizes@, sizes@.len() as int)),
{
    let mut bytes: u64 = 0;
    let mut i: usize = 0;
    while i < sizes.len()
        invariant
            i <= sizes@.len(),
            encoded_bytes(sizes@, i as int) >= 0,
            bytes == saturated(encoded_bytes(sizes@, i as int)),
        decreases sizes@.len() - i,
    {
        let (key, value) = sizes[i];
        bytes = bytes.saturating_add(key as u64).saturating_add(value as u64);
        i = i + 1;
    }
    bytes
}

fn more_at_level(
    counts: &mut std::collections::BTreeMap<u32, u64>,
    level: u32,
    more: u64,
)
    ensures
        final(counts)@ == old(counts)@.insert(
            level,
            saturated(level_count(old(counts)@, level) + more) as u64,
        ),
{
    let before: u64 = match counts.get(&level) {
        Some(count) => *count,
        None => 0,
    };
    counts.insert(level, before.saturating_add(more));
}

fn count_header(topology: &mut VerifyTopology, header: PartitionHeader)
    ensures
        shape_view(*final(topology)) == shape_view(*old(topology)).header_counted(header),
{
    topology.partitions = topology.partitions.saturating_add(1);
    topology.max_level = match topology.max_level {
        Some(highest) => if highest >= header.level {
            Some(highest)
        } else {
            Some(header.level)
        },
        None => Some(header.level),
    };
    more_at_level(&mut topology.partitions_by_level, header.level, 1);
    more_at_level(&mut topology.entries_by_level, header.level, header.entry_count as u64);
    let largest: u32 = match topology.max_entries_by_level.get(&header.level) {
        Some(largest) => *largest,
        None => 0,
    };
    topology.max_entries_by_level.insert(
        header.level,
        if largest >= header.entry_count {
            largest
        } else {
            header.entry_count
        },
    );
    let mut states = topology.partition_states;
    match header.state {
        PartitionState::Ready => {
            states.ready = states.ready.saturating_add(1);
        },
        PartitionState::Splitting => {
            states.splitting = states.splitting.saturating_add(1);
        },
        PartitionState::ReceivingSplit => {
            states.receiving_split = states.receiving_split.saturating_add(1);
        },
        PartitionState::DrainingSplit => {
            states.draining_split = states.draining_split.saturating_add(1);
        },
        PartitionState::Merging => {
            states.merging = states.merging.saturating_add(1);
        },
    }
    topology.partition_states = states;
}

impl Audit {
    /// What the audit has learned.
    pub closed spec fn view(&self) -> AuditView {
        AuditView {
            sink: self.sink@,
            counts: self.counts,
            shape: shape_view(self.topology),
            records: self.records@,
            ledger: self.ledger@,
        }
    }

    /// Starts an audit. `bloom_bits` has one element per schema field, with
    /// the size of its Bloom filter if it keeps one.
    pub fn new(
        index: LogicalIndexId,
        config: &IndexConfig,
        bloom_bits: &Vec<Option<u32>>,
        options: &VerifyOptions,
    ) -> (res: Self)
        ensures
            res@ == (AuditView {
                sink: SinkView {
                    index,
                    limits: Limits {
                        objects_remaining: options@.object_limit,
                        issues_remaining: options@.issue_limit,
                        memory_used: 0,
                        memory_limit: options@.memory_limit_bytes,
                    },
                    issues: Seq::empty(),
                    truncated: false,
                },
                counts: no_counts(),
                shape: no_shape(),
                records: RecordsView { facts: Seq::empty(), groups_finalized: false },
                ledger: LedgerView {
                    trees: Seq::empty(),
                    walk: None,
                    actionable: 0,
                    estimate: synopsis_bytes(bloom_bits@) as u64,
                    minimum: config@.min_partition_entries,
                    maximum: config@.max_partition_entries,
                },
            }),
            res@.ledger.valid(),
    {
        Audit {
            sink: Sink::new(index, options),
            counts: VerifyObjectCounts {
                total: 0,
                vector_records: 0,
                record_locations: 0,
                partitions: 0,
                entries: 0,
            },
            topology: VerifyTopology {
                trees: 0,
                partitions: 0,
                max_level: None,
                partitions_by_level: std::collections::BTreeMap::new(),
                entries_by_level: std::collections::BTreeMap::new(),
                max_entries_by_level: std::collections::BTreeMap::new(),
                partition_states: VerifyPartitionStateCounts {
                    ready: 0,
                    splitting: 0,
                    receiving_split: 0,
                    draining_split: 0,
                    merging: 0,
                },
                actionable_partitions: 0,
            },
            records: RecordLedger::new(),
            ledger: TopologyLedger::new(config, synopsis_estimate(bloom_bits)),
        }
    }

    /// Returns whether a limit stopped the audit.
    pub fn truncated(&self) -> (res: bool)
        ensures
            res == self@.sink.truncated,
    {
        self.sink.truncated()
    }

    fn count(&mut self, value: &ScannedValue)
        ensures
            final(self)@ == old(self)@.counted(value@),
    {
        let mut counts = self.counts;
        counts.total = counts.total.saturating_add(1);
        match value {
            ScannedValue::VectorRecord { .. } => {
                counts.vector_records = counts.vector_records.saturating_add(1);
            },
            ScannedValue::RecordLocation { .. } => {
                counts.record_locations = counts.record_locations.saturating_add(1);
            },
            ScannedValue::TreeManifest { .. } => {
                self.topology.trees = self.topology.trees.saturating_add(1);
            },
            ScannedValue::PartitionHeader { header } => {
                counts.partitions = counts.partitions.saturating_add(1);
                count_header(&mut self.topology, *header);
            },
            ScannedValue::PartitionSynopsis { .. } | ScannedValue::PartitionState { .. }
            | ScannedValue::PartitionCentroid => {
                counts.partitions = counts.partitions.saturating_add(1);
            },
            ScannedValue::LeafEntry { .. } | ScannedValue::ChildEntry => {
                counts.entries = counts.entries.saturating_add(1);
            },
            _ => {},
        }
        self.counts = counts;
    }

    fn report_malformed(&mut self, key: &ScannedKey)
        ensures
            final(self)@ == old(self)@.found(key@.malformed()),
    {
        let kind = VerifyIssueKind::InvalidEncoding;
        match key {
            ScannedKey::Namespace => {
                self.sink.issue(kind, None, None, None);
            },
            ScannedKey::Record { id } | ScannedKey::Location { id } | ScannedKey::Payload { id } => {
                self.sink.issue(kind, None, None, Some(id));
            },
            ScannedKey::TreeManifest { tree } => {
                self.sink.issue(kind, Some(tree.hash), None, None);
            },
            ScannedKey::Header { tree, partition } | ScannedKey::Synopsis { tree, partition }
            | ScannedKey::State { tree, partition } | ScannedKey::Centroid { tree, partition } => {
                self.sink.issue(kind, Some(tree.hash), Some(*partition), None);
            },
            ScannedKey::LeafEntry { tree, partition, id } => {
                self.sink.issue(kind, Some(tree.hash), Some(*partition), Some(id));
            },
            ScannedKey::ChildEntry { tree, partition, .. } => {
                self.sink.issue(kind, Some(tree.hash), Some(*partition), None);
            },
        }
    }

    fn dispatch(&mut self, key: ScannedKey, value: ScannedValue)
        requires
            old(self)@.ledger.valid(),
        ensures
            final(self)@ == old(self)@.dispatched(key@, value@),
            final(self)@.ledger.valid(),
    {
        match (key, value) {
            (ScannedKey::Record { id }, ScannedValue::VectorRecord { canonical }) => {
                self.records.note_record(&mut self.sink, &id, canonical.as_ref());
            },
            (ScannedKey::Location { id }, ScannedValue::RecordLocation { location }) => {
                self.records.note_location(&mut self.sink, &id, location);
            },
            (ScannedKey::Payload { id }, ScannedValue::OpaquePayload) => {
                self.records.note_payload(&mut self.sink, &id);
            },
            (ScannedKey::TreeManifest { tree }, ScannedValue::TreeManifest { manifest }) => {
                self.ledger.note_tree_manifest(&mut self.sink, &tree, manifest);
            },
            (ScannedKey::Header { tree, partition }, ScannedValue::PartitionHeader { header }) => {
                self.ledger.absorb_header(&mut self.sink, &tree, partition, header);
            },
            (
                ScannedKey::Synopsis { tree, partition },
                ScannedValue::PartitionSynopsis { synopsis },
            ) => {
                self.ledger.absorb_synopsis(&mut self.sink, &tree, partition, synopsis);
            },
            (
                ScannedKey::State { tree, partition },
                ScannedValue::PartitionState { transition },
            ) => {
                self.ledger.absorb_state(&mut self.sink, &tree, partition, transition);
            },
            (ScannedKey::Centroid { tree, partition }, ScannedValue::PartitionCentroid) => {
                self.ledger.absorb_centroid(&mut self.sink, &tree, partition);
            },
            (
                ScannedKey::LeafEntry { tree, partition, id },
                ScannedValue::LeafEntry { expanded, bytes },
            ) => {
                self.ledger.absorb_leaf_entry(
                    &mut self.sink,
                    &mut self.records,
                    &tree,
                    partition,
                    LeafEntryItem { id, expanded, bytes },
                );
            },
            (ScannedKey::ChildEntry { tree, partition, child }, ScannedValue::ChildEntry) => {
                self.ledger.absorb_child_entry(&mut self.sink, &tree, partition, child);
            },
            (ScannedKey::Namespace, _) => {},
            (key, _) => {
                self.report_malformed(&key);
            },
        }
    }

    /// Hands one scanned item to its ledger.
    pub fn process_item(&mut self, item: ScannedItem)
        requires
            old(self)@.ledger.valid(),
        ensures
            final(self)@ == old(self)@.processed(item@),
            final(self)@.ledger.valid(),
    {
        reveal(AuditView::processed);
        match item {
            ScannedItem::BadKey => {
                self.sink.issue(VerifyIssueKind::InvalidEncoding, None, None, None);
            },
            ScannedItem::BadValue { key } => {
                self.report_malformed(&key);
            },
            ScannedItem::Decoded { key, value } => {
                self.count(&value);
                let of_a_tree = !matches!(
                    key,
                    ScannedKey::Namespace | ScannedKey::Record { .. } | ScannedKey::Location { .. }
                    | ScannedKey::Payload { .. }
                );
                if of_a_tree {
                    self.records.finalize_groups(&mut self.sink);
                }
                self.dispatch(key, value);
            },
        }
    }

    fn meet(&mut self, item: ScannedItem)
        requires
            old(self)@.ledger.valid(),
        ensures
            final(self)@ == old(self)@.met(item@),
            final(self)@.ledger.valid(),
    {
        self.sink.charge_object();
        if !self.sink.truncated() {
            self.process_item(item);
        }
    }

    /// Takes one scanned page of the given encoded size.
    pub fn process_page(&mut self, items: Vec<ScannedItem>, bytes: u64)
        requires
            old(self)@.ledger.valid(),
        ensures
            final(self)@ == old(self)@.page_processed(item_views(items@), bytes as int),
            final(self)@.ledger.valid(),
    {
        self.sink.charge_memory(bytes);
        let ghost start = self@;
        let ghost views = item_views(items@);
        let ghost all = items@;
        let total: usize = items.len();
        let mut behind = items;
        let mut ahead: Vec<ScannedItem> = Vec::new();
        while behind.len() > 0
            invariant
                behind@.len() + ahead@.len() == all.len(),
                behind@ == all.take(behind@.len() as int),
                forall|i: int|
                    0 <= i < ahead@.len() ==> #[trigger] ahead@[i] == all[all.len() - 1 - i],
            decreases behind@.len(),
        {
            if let Some(item) = behind.pop() {
                assert(behind@ =~= all.take(behind@.len() as int));
                ahead.push(item);
            }
        }
        let mut looked: usize = 0;
        while ahead.len() > 0
            invariant
                looked + ahead@.len() == all.len(),
                total == all.len(),
                forall|i: int|
                    0 <= i < ahead@.len() ==> #[trigger] ahead@[i] == all[all.len() - 1 - i],
                views == item_views(all),
                self@ == start.items_processed(views, looked as int),
                self@.ledger.valid(),
            decreases ahead@.len(),
        {
            assert(ahead@[ahead@.len() - 1] == all[looked as int]);
            assert(views[looked as int] == all[looked as int]@);
            if let Some(item) = ahead.pop() {
                self.meet(item);
            }
            looked = looked + 1;
        }
        self.sink.release_memory(bytes);
    }

    /// Checks the allocator of the namespace against the index.
    pub fn check_allocator(&mut self, read: AllocatorRead)
        ensures
            final(self)@ == old(self)@.allocator_checked(read),
            final(self)@.ledger == old(self)@.ledger,
    {
        self.sink.charge_object();
        if self.sink.truncated() {
            return;
        }
        match read {
            AllocatorRead::Absent => {
                self.sink.issue(VerifyIssueKind::Reachability, None, None, None);
            },
            AllocatorRead::Malformed => {
                self.sink.issue(VerifyIssueKind::InvalidEncoding, None, None, None);
            },
            AllocatorRead::HighWater(high_water) => {
                self.count(&ScannedValue::Other);
                if self.sink.index.get() > high_water {
                    self.sink.issue(VerifyIssueKind::CountMismatch, None, None, None);
                }
            },
        }
    }

    /// Concludes the scan, unless a limit stopped it.
    pub fn finish_scan(&mut self)
        requires
            old(self)@.ledger.valid(),
        ensures
            final(self)@ == old(self)@.scan_finished(),
            final(self)@.ledger.valid(),
    {
        if self.sink.truncated() {
            return;
        }
        self.records.finalize_groups(&mut self.sink);
        self.ledger.finish(&mut self.sink);
        if !self.sink.truncated() {
            self.records.finish(&mut self.sink);
        }
    }

    /// Returns the report: it is complete unless a limit stopped the audit.
    pub fn finish(self) -> (res: VerifyReport)
        ensures
            res.complete == !self@.sink.truncated,
            issue_views(res.issues@) == self@.sink.issues,
            res.objects == self@.counts,
            shape_view(res.topology) == (ShapeView {
                actionable_partitions: self@.ledger.actionable,
                ..self@.shape
            }),
    {
        let mut topology = self.topology;
        topology.actionable_partitions = self.ledger.actionable();
        VerifyReport {
            complete: !self.sink.truncated,
            issues: self.sink.issues,
            objects: self.counts,
            topology,
        }
    }
}

} // verus!
