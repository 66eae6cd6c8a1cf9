//! What an audit counts, charges and reports for each object, stated on its
//! parts.

use vstd::prelude::*;
use vstd::utf8::encode_utf8;

use crate::api::identifiers::{partition_key_of_view, PartitionKey};
use crate::api::schema::ValueView;
use crate::api::verify::{VerifyIssueKind, VerifyPartitionStateCounts};
use crate::ordering::bytes_less;
use crate::topology::{PartitionHeader, PartitionState, PartitionTransition};
use crate::verify::audit::{encoded_bytes, AllocatorRead, AuditView, BodyView, ItemView, KeyView, ShapeView};
use crate::verify::by_key::lookup;
use crate::verify::records::{FactsView, LocationView, RecordsView};
use crate::verify::sink::{fed, running_sinks_report_everything, Finding, IssueView, SinkView};
use crate::verify::synopsis::{bits_within, bloom_bytes, covers_recomputed, saturated, typed_at_most, FieldSynopsisView, SynopsisView};
use crate::verify::topology::{LeafEntryView, LedgerView, ListedTree, PartitionView, WalkView};

verus! {

broadcast use partition_key_of_view;

/// A finding becomes one more issue of the index, of its own kind and place;
/// without a place it names no tree and the first partition.
pub proof fn findings_become_issues(sink: SinkView, finding: Finding)
    requires
        !sink.issued(finding).truncated,
    ensures
        !sink.truncated,
        ({
            let after = sink.issued(finding);
            let issue = after.issues.last();
            &&& after.issues.len() == sink.issues.len() + 1
            &&& after.issues.drop_last() == sink.issues
            &&& issue.kind == finding.kind
            &&& issue.logical_index_id == sink.index
            &&& finding.tree matches Some(hash) ==> issue.tree_key_hash == hash
            &&& finding.tree is None ==> issue.tree_key_hash.len() == 32 && forall|i: int|
                0 <= i < 32 ==> #[trigger] issue.tree_key_hash[i] == 0
            &&& finding.partition matches Some(partition) ==> issue.partition_key == partition
            &&& finding.partition is None ==> issue.partition_key == PartitionKey::of(1)
            &&& issue.record_id == finding.record_id
            &&& after.limits.issues_remaining + 1 == sink.limits.issues_remaining
            &&& after.limits.objects_remaining == sink.limits.objects_remaining
            &&& after.limits.memory_limit == sink.limits.memory_limit
            &&& after.limits.memory_used >= sink.limits.memory_used
            &&& finding.record_id matches Some(id) ==> after.limits.memory_used
                >= sink.limits.memory_used + id.len()
            &&& after.index == sink.index
        }),
{
    assert(sink.issued(finding).issues.drop_last() =~= sink.issues);
}

/// An audit stops exactly where its budget ends: at the object, byte or issue
/// that no longer fits; once stopped it stays so.
pub proof fn budgets_stop_where_they_end(sink: SinkView, bytes: int)
    requires
        bytes >= 0,
    ensures
        sink.truncated ==> sink.object_charged().truncated && sink.memory_charged(bytes).truncated,
        !sink.truncated ==> (sink.object_charged().truncated <==> sink.limits.objects_remaining
            == 0),
        !sink.truncated ==> (sink.memory_charged(bytes).truncated <==> sink.limits.memory_used
            + bytes > sink.limits.memory_limit),
        !sink.object_charged().truncated ==> sink.object_charged().limits.objects_remaining + 1
            == sink.limits.objects_remaining && sink.object_charged().limits.memory_used
            == sink.limits.memory_used,
        !sink.memory_charged(bytes).truncated ==> sink.memory_charged(bytes).limits.memory_used
            == sink.limits.memory_used + bytes && sink.memory_charged(
            bytes,
        ).limits.objects_remaining == sink.limits.objects_remaining,
        !sink.memory_charged(bytes).truncated ==> sink.memory_charged(bytes).memory_released(bytes)
            == sink,
        bytes <= sink.limits.memory_used ==> sink.memory_released(bytes).limits.memory_used + bytes
            == sink.limits.memory_used,
        bytes > sink.limits.memory_used ==> sink.memory_released(bytes).limits.memory_used == 0,
        sink.memory_released(bytes).truncated == sink.truncated,
        sink.object_charged().issues == sink.issues,
        sink.memory_charged(bytes).issues == sink.issues,
        sink.memory_released(bytes).issues == sink.issues,
{
}

/// Values are compared within one domain: booleans, integers and finite numbers
/// as such, and nothing across domains.
pub proof fn bounds_hold_within_one_domain(a: ValueView, b: ValueView)
    ensures
        a matches ValueView::I64(x) ==> (b matches ValueView::I64(y) ==> (typed_at_most(a, b)
            <==> x <= y)),
        a matches ValueView::Bool(x) ==> (b matches ValueView::Bool(y) ==> (typed_at_most(a, b)
            <==> !x || y)),
        a matches ValueView::F64(x) ==> (b matches ValueView::F64(y) ==> (typed_at_most(a, b)
            <==> x.finite() && y.finite() && x.rank() <= y.rank())),
        a matches ValueView::String(x) ==> (b matches ValueView::String(y) ==> (typed_at_most(a, b)
            <==> !bytes_less(encode_utf8(y), encode_utf8(x)))),
        a is Null || b is Null ==> !typed_at_most(a, b),
        a is I64 != b is I64 ==> !typed_at_most(a, b),
        a is Bool != b is Bool ==> !typed_at_most(a, b),
        a is F64 != b is F64 ==> !typed_at_most(a, b),
        a is String != b is String ==> !typed_at_most(a, b),
{
}

/// A Bloom summary lies within another of its length exactly when every set bit
/// is set there too.
pub proof fn summaries_lie_within_bit_by_bit(bits: Seq<u8>, within: Seq<u8>, i: int, k: u8)
    requires
        0 <= i < bits.len(),
        k < 8,
    ensures
        bits_within(bits, within) ==> bits.len() == within.len() && ((bits[i] >> k) & 1 == 1 ==> (
        within[i] >> k) & 1 == 1),
        bits.len() == within.len() && (forall|j: int, l: u8|
            0 <= j < bits.len() && l < 8 ==> (#[trigger] (bits[j] >> l) & 1 == 1 ==> (within[j]
                >> l) & 1 == 1)) ==> bits_within(bits, within),
{
    if bits.len() == within.len() && (forall|j: int, l: u8|
        0 <= j < bits.len() && l < 8 ==> (#[trigger] (bits[j] >> l) & 1 == 1 ==> (within[j] >> l) & 1
            == 1)) {
        assert forall|j: int| 0 <= j < bits.len() implies #[trigger] bits[j] & !within[j] == 0 by {
            let mine = bits[j];
            let theirs = within[j];
            assert((mine >> 0u8) & 1 == 1 ==> (theirs >> 0u8) & 1 == 1);
            assert((mine >> 1u8) & 1 == 1 ==> (theirs >> 1u8) & 1 == 1);
            assert((mine >> 2u8) & 1 == 1 ==> (theirs >> 2u8) & 1 == 1);
            assert((mine >> 3u8) & 1 == 1 ==> (theirs >> 3u8) & 1 == 1);
            assert((mine >> 4u8) & 1 == 1 ==> (theirs >> 4u8) & 1 == 1);
            assert((mine >> 5u8) & 1 == 1 ==> (theirs >> 5u8) & 1 == 1);
            assert((mine >> 6u8) & 1 == 1 ==> (theirs >> 6u8) & 1 == 1);
            assert((mine >> 7u8) & 1 == 1 ==> (theirs >> 7u8) & 1 == 1);
            assert(mine & !theirs == 0) by (bit_vector)
                requires
                    (mine >> 0u8) & 1 == 1 ==> (theirs >> 0u8) & 1 == 1,
                    (mine >> 1u8) & 1 == 1 ==> (theirs >> 1u8) & 1 == 1,
                    (mine >> 2u8) & 1 == 1 ==> (theirs >> 2u8) & 1 == 1,
                    (mine >> 3u8) & 1 == 1 ==> (theirs >> 3u8) & 1 == 1,
                    (mine >> 4u8) & 1 == 1 ==> (theirs >> 4u8) & 1 == 1,
                    (mine >> 5u8) & 1 == 1 ==> (theirs >> 5u8) & 1 == 1,
                    (mine >> 6u8) & 1 == 1 ==> (theirs >> 6u8) & 1 == 1,
                    (mine >> 7u8) & 1 == 1 ==> (theirs >> 7u8) & 1 == 1,
            ;
        }
    }
    if bits_within(bits, within) {
        let mine = bits[i];
        let theirs = within[i];
        assert(mine & !theirs == 0);
        assert((mine >> k) & 1 == 1 ==> (theirs >> k) & 1 == 1) by (bit_vector)
            requires
                mine & !theirs == 0,
                k < 8,
        ;
    }
}

/// A stored field summary covers what its entries show exactly when it admits
/// their nulls, their least and greatest value and their Bloom bits.
pub proof fn summaries_cover_nulls_bounds_and_bits(
    stored: FieldSynopsisView,
    shown: FieldSynopsisView,
)
    ensures
        shown.has_null && !stored.has_null ==> !stored.covers(shown),
        shown.minimum is Some && stored.minimum is None ==> !stored.covers(shown),
        shown.maximum is Some && stored.maximum is None ==> !stored.covers(shown),
        shown.minimum is Some && stored.minimum is Some && !typed_at_most(
            stored.minimum->0,
            shown.minimum->0,
        ) ==> !stored.covers(shown),
        shown.maximum is Some && stored.maximum is Some && !typed_at_most(
            shown.maximum->0,
            stored.maximum->0,
        ) ==> !stored.covers(shown),
        shown.bloom is Some && stored.bloom is Some && !bits_within(
            shown.bloom->0,
            stored.bloom->0,
        ) ==> !stored.covers(shown),
        !shown.has_null && shown.minimum is None && shown.maximum is None && shown.bloom is None
            ==> stored.covers(shown),
        (shown.has_null ==> stored.has_null) && shown.minimum is Some && stored.minimum is Some
            && typed_at_most(stored.minimum->0, shown.minimum->0) && shown.maximum is Some
            && stored.maximum is Some && typed_at_most(shown.maximum->0, stored.maximum->0) && (
        shown.bloom is None || stored.bloom is None || bits_within(shown.bloom->0, stored.bloom->0))
            ==> stored.covers(shown),
{
}

/// A partition summary passes exactly when it fits the schema and covers what
/// its entries show field by field.
pub proof fn partition_summaries_cover_field_by_field(
    stored: SynopsisView,
    shown: SynopsisView,
    i: int,
)
    ensures
        !stored.shape_fits ==> !covers_recomputed(stored, Some(shown)) && !covers_recomputed(
            stored,
            None,
        ),
        !shown.shape_fits ==> !covers_recomputed(stored, Some(shown)),
        stored.shape_fits ==> covers_recomputed(stored, None),
        0 <= i < stored.fields.len() && i < shown.fields.len() && !stored.fields[i].covers(
            shown.fields[i],
        ) ==> !covers_recomputed(stored, Some(shown)),
        stored.shape_fits && shown.shape_fits && (forall|j: int|
            0 <= j < stored.fields.len() && j < shown.fields.len() ==> (
            #[trigger] stored.fields[j]).covers(shown.fields[j])) ==> covers_recomputed(
            stored,
            Some(shown),
        ),
{
}

/// A Bloom field takes its bits in whole bytes and one more, another field none;
/// sizes that do not fit are capped.
pub proof fn bloom_sizes_add_up(counts: Seq<Option<u32>>, n: int, bytes: int)
    requires
        0 <= n < counts.len(),
    ensures
        bloom_bytes(counts, 0) == 0,
        counts[n] is None ==> bloom_bytes(counts, n + 1) == bloom_bytes(counts, n),
        counts[n] matches Some(bits) ==> 8 * (bloom_bytes(counts, n + 1) - bloom_bytes(counts, n)
            - 1) >= bits && 8 * (bloom_bytes(counts, n + 1) - bloom_bytes(counts, n) - 2) < bits,
        bytes <= u64::MAX ==> saturated(bytes) == bytes,
        bytes > u64::MAX ==> saturated(bytes) == u64::MAX,
{
}

/// An entry joins the record that names its place once: it takes the record's
/// facts away and is reported only where its projection differs. Any other entry
/// is reported as a member of nothing.
pub proof fn entries_join_their_record(
    records: RecordsView,
    sink: SinkView,
    key: Seq<u8>,
    hash: Seq<u8>,
    partition: PartitionKey,
    id: Seq<u8>,
    bytes: Seq<u8>,
    other: Seq<u8>,
)
    requires
        !sink.truncated,
    ensures
        ({
            let joined = records.entry_joined(sink, key, hash, partition, id, bytes);
            &&& lookup(records.facts, id) is None && !joined.sink.truncated ==> {
                &&& joined.records == records
                &&& joined.sink.issues.len() == sink.issues.len() + 1
                &&& joined.sink.issues.last().kind == VerifyIssueKind::Membership
                &&& joined.sink.issues.last().record_id == Some(id)
                &&& joined.sink.issues.last().partition_key == partition
                &&& joined.sink.issues.last().tree_key_hash == hash
            }
            &&& lookup(records.facts, id) matches Some(facts) ==> {
                &&& (facts.location is None || (facts.location->0).key != key || (
                facts.location->0).leaf != partition) && !joined.sink.truncated ==> {
                    &&& joined.records == records
                    &&& joined.sink.issues.len() == sink.issues.len() + 1
                    &&& joined.sink.issues.last().kind == VerifyIssueKind::Membership
                    &&& joined.sink.issues.last().record_id == Some(id)
                }
                &&& facts.location is Some && (facts.location->0).key == key && (
                facts.location->0).leaf == partition ==> {
                    &&& facts.expected is None ==> joined.sink.issues == sink.issues
                    &&& facts.expected == Some(crate::hashing::fingerprint(bytes))
                        ==> joined.sink.issues == sink.issues
                    &&& facts.expected is Some && facts.expected
                        != Some(crate::hashing::fingerprint(bytes)) && !joined.sink.truncated ==> {
                        &&& joined.sink.issues.len() == sink.issues.len() + 1
                        &&& joined.sink.issues.last().kind
                            == VerifyIssueKind::RecordProjectionMismatch
                        &&& joined.sink.issues.last().record_id == Some(id)
                    }
                }
            }
        }),
{
}

/// An incomplete record group is reported for each of its parts: a Location or a
/// Payload without a record, and a record without a Location. A complete one is
/// not.
pub proof fn incomplete_groups_are_reported(facts: FactsView, id: Seq<u8>)
    ensures
        ({
            let found = facts.group_findings(id);
            &&& facts.has_record && facts.location is Some ==> found.len() == 0
            &&& !facts.has_record && facts.location is None && !facts.has_payload ==> found.len()
                == 0
            &&& !facts.has_record && facts.location is Some && !facts.has_payload ==> found.len()
                == 1 && found[0].tree == Some((facts.location->0).hash) && found[0].partition
                == Some((facts.location->0).leaf)
            &&& !facts.has_record && facts.location is None && facts.has_payload ==> found.len()
                == 1 && found[0].tree is None && found[0].partition is None
            &&& !facts.has_record && facts.location is Some && facts.has_payload ==> found.len()
                == 2
            &&& facts.has_record && facts.location is None ==> found.len() == 1 && found[0].tree
                is None && found[0].partition is None
            &&& forall|i: int|
                0 <= i < found.len() ==> (#[trigger] found[i]).kind == VerifyIssueKind::Membership
                    && found[i].record_id == Some(id)
            &&& facts.whole() <==> facts.has_record && facts.location is Some
        }),
{
}

/// Every record that no entry joined is reported at its Location.
pub proof fn unjoined_records_are_reported(records: RecordsView, n: int, at: int)
    requires
        0 <= at < n <= records.facts.len(),
        records.facts[at].1.location is Some,
    ensures
        records.leftover_findings(n).contains(
            Finding {
                kind: VerifyIssueKind::Membership,
                tree: Some((records.facts[at].1.location->0).hash),
                partition: Some((records.facts[at].1.location->0).leaf),
                record_id: Some(records.facts[at].0),
            },
        ),
    decreases n,
{
    let finding = Finding {
        kind: VerifyIssueKind::Membership,
        tree: Some((records.facts[at].1.location->0).hash),
        partition: Some((records.facts[at].1.location->0).leaf),
        record_id: Some(records.facts[at].0),
    };
    let before = records.leftover_findings(n - 1);
    let all = records.leftover_findings(n);
    if at < n - 1 {
        unjoined_records_are_reported(records, n - 1, at);
        let k = choose|k: int| 0 <= k < before.len() && before[k] == finding;
        assert(all[k] == finding);
    } else {
        assert(all[before.len() as int] == finding);
    }
}

/// Nothing is left over of records without a Location.
pub proof fn unlocated_records_leave_nothing_over(records: RecordsView, n: int)
    requires
        0 <= n <= records.facts.len(),
        forall|i: int| 0 <= i < n ==> (#[trigger] records.facts[i]).1.location is None,
    ensures
        records.leftover_findings(n).len() == 0,
    decreases n,
{
    if n > 0 {
        unlocated_records_leave_nothing_over(records, n - 1);
        assert(records.facts[n - 1].1.location is None);
    }
}

/// A scanned partition passes exactly when its Header and its state agree and its
/// entries are counted right; a leaf also needs a summary that covers its
/// entries, and any other partition needs none.
pub proof fn partitions_pass_with_their_counts(partition: PartitionView, hash: Seq<u8>)
    ensures
        partition.header is None || partition.transition is None ==> partition.findings(hash).len()
            > 0,
        partition.header matches Some(header) ==> (partition.transition matches Some(transition)
            ==> {
            let same_state = match transition {
                PartitionTransition::Ready { .. } => header.state == PartitionState::Ready,
                PartitionTransition::Splitting { .. } => header.state == PartitionState::Splitting,
                PartitionTransition::ReceivingSplit { .. } => header.state
                    == PartitionState::ReceivingSplit,
                PartitionTransition::DrainingSplit { .. } => header.state
                    == PartitionState::DrainingSplit,
                PartitionTransition::Merging { .. } => header.state == PartitionState::Merging,
            };
            &&& header.level == 1 ==> (partition.findings(hash).len() == 0 <==> same_state
                && partition.leaf_entries == header.entry_count && partition.synopsis is Some
                && covers_recomputed(partition.synopsis->0, partition.recomputed))
            &&& header.level != 1 ==> (partition.findings(hash).len() == 0 <==> same_state
                && partition.child_entries == header.entry_count && partition.synopsis is None)
        }),
{
}

/// Every issue of a partition names its tree and itself, and each kind has its
/// own cause.
pub proof fn partition_issues_name_their_cause(partition: PartitionView, hash: Seq<u8>, i: int)
    requires
        0 <= i < partition.findings(hash).len(),
    ensures
        ({
            let found = partition.findings(hash)[i];
            &&& found.tree == Some(hash)
            &&& found.partition == Some(partition.partition)
            &&& found.record_id is None
            &&& found.kind == VerifyIssueKind::CountMismatch ==> partition.header is Some && (
            partition.leaf_entries != (partition.header->0).entry_count || partition.child_entries
                != (partition.header->0).entry_count)
            &&& found.kind == VerifyIssueKind::SynopsisNotConservative ==> partition.synopsis
                is Some && (partition.header->0).level == 1 && !covers_recomputed(
                partition.synopsis->0,
                partition.recomputed,
            )
            &&& found.kind == VerifyIssueKind::CountMismatch || found.kind
                == VerifyIssueKind::SynopsisNotConservative || found.kind
                == VerifyIssueKind::Reachability
        }),
{
}

/// A closed partition leaves its level and its state behind, and nothing of the
/// walk stays open.
pub proof fn closed_partitions_are_remembered(walk: WalkView, sink: SinkView)
    requires
        walk.current is Some,
        crate::verify::tree::ascending(walk.tree.table),
    ensures
        ({
            let (after, closed) = walk.partition_closed(sink);
            let facts = walk.current->0;
            &&& closed.current is None
            &&& closed.key == walk.key
            &&& closed.tree.edges == walk.tree.edges
            &&& closed.tree.manifest == walk.tree.manifest
            &&& closed.tree.hash == walk.tree.hash
            &&& !after.truncated ==> (closed.tree.summary(facts.partition) matches Some(summary)
                && summary.transition == facts.transition && summary.level
                == match facts.header {
                Some(header) => Some(header.level),
                None => None,
            })
        }),
{
    let facts = walk.current->0;
    crate::verify::tree::recording_keeps_the_order(
        walk.tree.table,
        facts.left_behind(),
        facts.partition,
    );
}

/// Each body of a partition is kept with it: its Header, its state and its
/// summary as they were read, and each entry counted once.
pub proof fn bodies_are_kept_with_their_partition(
    ledger: LedgerView,
    sink: SinkView,
    key: Seq<u8>,
    hash: Seq<u8>,
    partition: PartitionKey,
    header: PartitionHeader,
    transition: PartitionTransition,
    child: PartitionKey,
)
    ensures
        ({
            let opened = ledger.opened(sink, key, hash, partition);
            let facts = opened.ledger.walk->0.current->0;
            let headed = ledger.header_absorbed(sink, key, hash, partition, header);
            let stated = ledger.state_absorbed(sink, key, hash, partition, transition);
            let linked = ledger.child_entry_absorbed(sink, key, hash, partition, child);
            &&& opened.ledger.walk is Some
            &&& !opened.sink.truncated ==> opened.ledger.walk->0.key == key
            &&& opened.ledger.walk->0.current is Some ==> {
                &&& headed.sink == opened.sink
                &&& headed.ledger.walk->0.current is Some
                &&& (headed.ledger.walk->0.current->0).header == Some(header)
                &&& (headed.ledger.walk->0.current->0).transition == facts.transition
                &&& (headed.ledger.walk->0.current->0).leaf_entries == facts.leaf_entries
                &&& (headed.ledger.walk->0.current->0).child_entries == facts.child_entries
                &&& stated.sink == opened.sink
                &&& stated.ledger.walk->0.current is Some
                &&& (stated.ledger.walk->0.current->0).transition == Some(transition)
                &&& (stated.ledger.walk->0.current->0).header == facts.header
                &&& (stated.ledger.walk->0.current->0).leaf_entries == facts.leaf_entries
                &&& (stated.ledger.walk->0.current->0).child_entries == facts.child_entries
            }
            &&& opened.ledger.walk->0.current is Some && !opened.sink.truncated
                && facts.child_entries < u64::MAX ==> {
                &&& (linked.ledger.walk->0.current->0).child_entries == facts.child_entries + 1
                &&& (linked.ledger.walk->0.current->0).leaf_entries == facts.leaf_entries
                &&& !linked.sink.truncated && child != partition && (facts.header is None || (
                facts.header->0).level != 1) ==> {
                    &&& linked.sink.issues == opened.sink.issues
                    &&& linked.ledger.walk->0.tree.edges.len()
                        == opened.ledger.walk->0.tree.edges.len() + 1
                    &&& linked.ledger.walk->0.tree.edges.last().parent == partition
                    &&& linked.ledger.walk->0.tree.edges.last().child == child
                }
                &&& !linked.sink.truncated && (child == partition || facts.header is Some && (
                facts.header->0).level == 1) ==> {
                    &&& linked.sink.issues.len() == opened.sink.issues.len() + 1
                    &&& linked.sink.issues.last().kind == VerifyIssueKind::Membership
                    &&& linked.sink.issues.last().partition_key == partition
                    &&& linked.ledger.walk->0.tree.edges == opened.ledger.walk->0.tree.edges
                }
            }
        }),
{
}

/// A Leaf Entry counts with its partition; below the leaves it is reported, and
/// where its summary cannot be recomputed it is malformed. Otherwise the summary
/// it widened stays for the check of its partition.
pub proof fn leaf_entries_widen_their_partition(
    ledger: LedgerView,
    sink: SinkView,
    records: RecordsView,
    key: Seq<u8>,
    hash: Seq<u8>,
    partition: PartitionKey,
    entry: LeafEntryView,
)
    ensures
        ({
            let opened = ledger.opened(sink, key, hash, partition);
            let facts = opened.ledger.walk->0.current->0;
            let (walked, after) = ledger.leaf_entry_absorbed(
                sink,
                records,
                key,
                hash,
                partition,
                entry,
            );
            &&& opened.sink.truncated ==> walked == opened && after == records
            &&& opened.ledger.walk->0.current is Some && !opened.sink.truncated
                && facts.leaf_entries < u64::MAX ==> {
                let now = walked.ledger.walk->0.current->0;
                let leaf = facts.header is None || (facts.header->0).level == 1;
                &&& now.leaf_entries == facts.leaf_entries + 1
                &&& now.child_entries == facts.child_entries
                &&& now.header == facts.header
                &&& leaf && entry.expanded is Some ==> now.recomputed == entry.expanded
                &&& !leaf || entry.expanded is None ==> now.recomputed == facts.recomputed
                &&& leaf && entry.expanded is Some ==> walked.sink == records.entry_joined(
                    opened.sink,
                    key,
                    hash,
                    partition,
                    entry.id,
                    entry.bytes,
                ).sink
            }
        }),
{
}

/// A partition that comes up again keeps its facts; a new one starts without
/// any.
pub proof fn partitions_start_empty(
    walk: WalkView,
    sink: SinkView,
    partition: PartitionKey,
    estimate: u64,
)
    ensures
        walk.current matches Some(facts) ==> (facts.partition == partition
            ==> walk.partition_opened(sink, partition, estimate) == (sink, walk)),
        ({
            let (after, opened) = walk.partition_opened(sink, partition, estimate);
            (walk.current is None || (walk.current->0).partition != partition) && !after.truncated
                ==> {
                &&& opened.current is Some
                &&& (opened.current->0).partition == partition
                &&& (opened.current->0).header is None
                &&& (opened.current->0).transition is None
                &&& (opened.current->0).synopsis is None
                &&& (opened.current->0).recomputed is None
                &&& (opened.current->0).leaf_entries == 0
                &&& (opened.current->0).child_entries == 0
            }
        }),
{
}

/// A tree that comes up again goes on; another one starts with the Manifest that
/// was read for it, if any, and without partitions.
pub proof fn trees_start_with_their_manifest(
    ledger: LedgerView,
    sink: SinkView,
    key: Seq<u8>,
    hash: Seq<u8>,
)
    ensures
        ledger.walk matches Some(walk) ==> (walk.key == key ==> ledger.tree_opened(sink, key, hash)
            == (crate::verify::topology::Walked { sink, ledger })),
        ledger.walk is None || (ledger.walk->0).key != key ==> {
            let after = ledger.tree_opened(sink, key, hash).ledger;
            &&& after.walk is Some
            &&& (after.walk->0).key == key
            &&& (after.walk->0).current is None
            &&& (after.walk->0).tree.hash == hash
            &&& (after.walk->0).tree.table.len() == 0
            &&& (after.walk->0).tree.edges.len() == 0
            &&& lookup(ledger.trees, key) matches Some(listed) ==> (after.walk->0).tree.manifest
                == Some(listed.manifest)
            &&& lookup(ledger.trees, key) is None ==> (after.walk->0).tree.manifest is None
        },
{
}

/// Every object counts once in total and once under its own kind.
pub proof fn objects_count_under_their_kind(audit: AuditView, body: BodyView)
    ensures
        ({
            let before = audit.counts;
            let after = audit.counted(body).counts;
            let of_partitions = body is PartitionHeader || body is PartitionSynopsis
                || body is PartitionState || body is PartitionCentroid;
            let of_entries = body is LeafEntry || body is ChildEntry;
            &&& before.total < u64::MAX ==> after.total == before.total + 1
            &&& before.total == u64::MAX ==> after.total == u64::MAX
            &&& body is VectorRecord && before.vector_records < u64::MAX ==> after.vector_records
                == before.vector_records + 1
            &&& !(body is VectorRecord) ==> after.vector_records == before.vector_records
            &&& body is RecordLocation && before.record_locations < u64::MAX
                ==> after.record_locations == before.record_locations + 1
            &&& !(body is RecordLocation) ==> after.record_locations == before.record_locations
            &&& of_partitions && before.partitions < u64::MAX ==> after.partitions
                == before.partitions + 1
            &&& !of_partitions ==> after.partitions == before.partitions
            &&& of_entries && before.entries < u64::MAX ==> after.entries == before.entries + 1
            &&& !of_entries ==> after.entries == before.entries
            &&& body is TreeManifest && audit.shape.trees < u64::MAX ==> audit.counted(
                body,
            ).shape.trees == audit.shape.trees + 1
            &&& !(body is TreeManifest) ==> audit.counted(body).shape.trees == audit.shape.trees
            &&& audit.counted(body).sink == audit.sink
            &&& audit.counted(body).records == audit.records
            &&& audit.counted(body).ledger == audit.ledger
            &&& !(body is TreeManifest) && !(body is PartitionHeader) ==> audit.counted(body).shape
                == audit.shape
        }),
{
}

/// A Header counts its partition at its own level and in its own state, adds its
/// entries there, and raises the highest level and the largest partition only
/// where it exceeds them.
pub proof fn headers_count_at_their_level(shape: ShapeView, header: PartitionHeader, other: u32)
    ensures
        ({
            let after = shape.header_counted(header);
            let level = header.level;
            let seen = shape.partitions_by_level.contains_key(level);
            let entered = shape.entries_by_level.contains_key(level);
            let largest = shape.max_entries_by_level.contains_key(level);
            &&& shape.partitions < u64::MAX ==> after.partitions == shape.partitions + 1
            &&& after.trees == shape.trees
            &&& after.actionable_partitions == shape.actionable_partitions
            &&& shape.max_level is None ==> after.max_level == Some(level)
            &&& shape.max_level matches Some(highest) ==> after.max_level is Some
                && after.max_level->0 >= highest && after.max_level->0 >= level && (
            after.max_level->0 == highest || after.max_level->0 == level)
            &&& after.partitions_by_level.contains_key(level)
            &&& !seen ==> after.partitions_by_level[level] == 1
            &&& seen && shape.partitions_by_level[level] < u64::MAX
                ==> after.partitions_by_level[level] == shape.partitions_by_level[level] + 1
            &&& !entered ==> after.entries_by_level[level] == header.entry_count
            &&& entered && shape.entries_by_level[level] + header.entry_count <= u64::MAX
                ==> after.entries_by_level[level] == shape.entries_by_level[level]
                + header.entry_count
            &&& !largest ==> after.max_entries_by_level[level] == header.entry_count
            &&& largest ==> after.max_entries_by_level[level] >= header.entry_count
                && after.max_entries_by_level[level] >= shape.max_entries_by_level[level] && (
            after.max_entries_by_level[level] == header.entry_count
                || after.max_entries_by_level[level] == shape.max_entries_by_level[level])
            &&& other != level ==> {
                &&& after.partitions_by_level.contains_key(other)
                    == shape.partitions_by_level.contains_key(other)
                &&& after.partitions_by_level[other] == shape.partitions_by_level[other]
                &&& after.entries_by_level[other] == shape.entries_by_level[other]
                &&& after.max_entries_by_level[other] == shape.max_entries_by_level[other]
            }
        }),
{
}

/// A partition counts in its own state and in no other.
pub proof fn states_count_one_by_one(counts: VerifyPartitionStateCounts, state: PartitionState)
    ensures
        ({
            let after = crate::verify::audit::state_counted(counts, state);
            &&& state == PartitionState::Ready && counts.ready < u64::MAX ==> after.ready
                == counts.ready + 1
            &&& state != PartitionState::Ready ==> after.ready == counts.ready
            &&& state == PartitionState::Splitting && counts.splitting < u64::MAX
                ==> after.splitting == counts.splitting + 1
            &&& state != PartitionState::Splitting ==> after.splitting == counts.splitting
            &&& state == PartitionState::ReceivingSplit && counts.receiving_split < u64::MAX
                ==> after.receiving_split == counts.receiving_split + 1
            &&& state != PartitionState::ReceivingSplit ==> after.receiving_split
                == counts.receiving_split
            &&& state == PartitionState::DrainingSplit && counts.draining_split < u64::MAX
                ==> after.draining_split == counts.draining_split + 1
            &&& state != PartitionState::DrainingSplit ==> after.draining_split
                == counts.draining_split
            &&& state == PartitionState::Merging && counts.merging < u64::MAX ==> after.merging
                == counts.merging + 1
            &&& state != PartitionState::Merging ==> after.merging == counts.merging
        }),
{
}

/// What cannot be read is reported as malformed, at the place its key names.
pub proof fn unreadable_items_are_reported(audit: AuditView, key: KeyView)
    requires
        !audit.sink.truncated,
    ensures
        ({
            let after = audit.processed(ItemView::BadKey).sink;
            !after.truncated ==> after.issues.len() == audit.sink.issues.len() + 1
                && after.issues.last().kind == VerifyIssueKind::InvalidEncoding
                && after.issues.last().record_id is None
        }),
        ({
            let after = audit.processed(ItemView::BadValue { key }).sink;
            !after.truncated ==> after.issues.len() == audit.sink.issues.len() + 1
                && after.issues.last().kind == VerifyIssueKind::InvalidEncoding
                && after.issues.last().record_id == key.malformed().record_id
        }),
{
    reveal(AuditView::processed);
    let nowhere = Finding {
        kind: VerifyIssueKind::InvalidEncoding,
        tree: None,
        partition: None,
        record_id: None,
    };
    assert(audit.processed(ItemView::BadKey).sink == audit.sink.issued(nowhere));
    if !audit.sink.issued(nowhere).truncated {
        findings_become_issues(audit.sink, nowhere);
    }
    assert(audit.processed(ItemView::BadValue { key }).sink == audit.sink.issued(key.malformed()));
    if !audit.sink.issued(key.malformed()).truncated {
        findings_become_issues(audit.sink, key.malformed());
    }
}

/// A malformed object is reported under the record, the tree and the partition
/// that its key names.
pub proof fn malformed_objects_are_placed_by_their_key(
    id: Seq<u8>,
    key: Seq<u8>,
    hash: [u8; 32],
    partition: PartitionKey,
    child: PartitionKey,
)
    ensures
        (KeyView::Record { id }).malformed().record_id == Some(id),
        (KeyView::Location { id }).malformed().record_id == Some(id),
        (KeyView::Payload { id }).malformed().record_id == Some(id),
        (KeyView::LeafEntry { key, hash, partition, id }).malformed() == (Finding {
            kind: VerifyIssueKind::InvalidEncoding,
            tree: Some(hash@),
            partition: Some(partition),
            record_id: Some(id),
        }),
        (KeyView::ChildEntry { key, hash, partition, child }).malformed() == (Finding {
            kind: VerifyIssueKind::InvalidEncoding,
            tree: Some(hash@),
            partition: Some(partition),
            record_id: None,
        }),
        (KeyView::Header { key, hash, partition }).malformed() == (Finding {
            kind: VerifyIssueKind::InvalidEncoding,
            tree: Some(hash@),
            partition: Some(partition),
            record_id: None,
        }),
        (KeyView::State { key, hash, partition }).malformed() == (KeyView::Header {
            key,
            hash,
            partition,
        }).malformed(),
        (KeyView::Synopsis { key, hash, partition }).malformed() == (KeyView::Header {
            key,
            hash,
            partition,
        }).malformed(),
        (KeyView::Centroid { key, hash, partition }).malformed() == (KeyView::Header {
            key,
            hash,
            partition,
        }).malformed(),
        (KeyView::TreeManifest { key, hash }).malformed() == (Finding {
            kind: VerifyIssueKind::InvalidEncoding,
            tree: Some(hash@),
            partition: None,
            record_id: None,
        }),
        (KeyView::Record { id }).malformed().tree is None,
        (KeyView::Record { id }).malformed().partition is None,
{
}

/// A value of another kind than its key is malformed: nothing but the report
/// comes of it.
pub proof fn mismatched_values_are_reported(audit: AuditView, key: KeyView, body: BodyView)
    requires
        !(key is Namespace),
        key is Record ==> !(body is VectorRecord),
        key is Location ==> !(body is RecordLocation),
        key is Payload ==> !(body is OpaquePayload),
        key is TreeManifest ==> !(body is TreeManifest),
        key is Header ==> !(body is PartitionHeader),
        key is Synopsis ==> !(body is PartitionSynopsis),
        key is State ==> !(body is PartitionState),
        key is Centroid ==> !(body is PartitionCentroid),
        key is LeafEntry ==> !(body is LeafEntry),
        key is ChildEntry ==> !(body is ChildEntry),
    ensures
        audit.dispatched(key, body).sink == audit.sink.issued(key.malformed()),
        audit.dispatched(key, body).records == audit.records,
        audit.dispatched(key, body).ledger == audit.ledger,
        audit.dispatched(key, body).counts == audit.counts,
{
}

/// An index beyond the allocator's high-water mark is reported, as is an
/// allocator that is absent or malformed; one within it is not.
pub proof fn allocators_cover_the_index(audit: AuditView, high_water: u64)
    requires
        !audit.sink.truncated,
        audit.sink.limits.objects_remaining > 0,
    ensures
        audit.sink.index@ <= high_water ==> audit.allocator_checked(
            AllocatorRead::HighWater(high_water),
        ).sink.issues == audit.sink.issues,
        ({
            let after = audit.allocator_checked(AllocatorRead::HighWater(high_water)).sink;
            audit.sink.index@ > high_water && !after.truncated ==> after.issues.len()
                == audit.sink.issues.len() + 1 && after.issues.last().kind
                == VerifyIssueKind::CountMismatch
        }),
        ({
            let after = audit.allocator_checked(AllocatorRead::Absent).sink;
            !after.truncated ==> after.issues.len() == audit.sink.issues.len() + 1
                && after.issues.last().kind == VerifyIssueKind::Reachability
        }),
        ({
            let after = audit.allocator_checked(AllocatorRead::Malformed).sink;
            !after.truncated ==> after.issues.len() == audit.sink.issues.len() + 1
                && after.issues.last().kind == VerifyIssueKind::InvalidEncoding
        }),
{
}

/// The bytes of a page are those of its keys and of its values.
pub proof fn page_bytes_add_up(sizes: Seq<(usize, usize)>, n: int)
    requires
        0 <= n < sizes.len(),
    ensures
        encoded_bytes(sizes, 0) == 0,
        encoded_bytes(sizes, n + 1) - encoded_bytes(sizes, n) == sizes[n].0 + sizes[n].1,
{
}

/// A noted record, Location or Payload is remembered under its id; what was
/// noted of it before stays.
pub proof fn notes_are_remembered(
    records: RecordsView,
    sink: SinkView,
    id: Seq<u8>,
    location: LocationView,
)
    requires
        crate::verify::by_key::keys_ascend(records.facts),
        !sink.truncated,
    ensures
        ({
            let paid = records.payload_noted(sink, id);
            let located = records.location_noted(sink, id, location);
            let before = lookup(records.facts, id);
            &&& !paid.sink.truncated ==> (lookup(paid.records.facts, id) matches Some(now)
                && now.has_payload && (before is None ==> !now.has_record && now.location is None)
                && (before is Some ==> now.has_record == (before->0).has_record && now.location
                == (before->0).location && now.expected == (before->0).expected))
            &&& !located.sink.truncated ==> (lookup(located.records.facts, id) matches Some(now)
                && now.location == Some(location) && (before is None ==> !now.has_record
                && !now.has_payload) && (before is Some ==> now.has_record
                == (before->0).has_record && now.has_payload == (before->0).has_payload
                && now.expected == (before->0).expected))
        }),
{
    let facts = match records.facts_of(sink, id).1 {
        Some(facts) => facts,
        None => crate::verify::records::no_facts(id),
    };
    let paid = FactsView { has_payload: true, ..facts };
    crate::verify::by_key::placing_sets(records.facts, id, paid, id);
    crate::verify::by_key::placing_sets(
        records.facts,
        id,
        FactsView { location: Some(location), ..facts },
        id,
    );
    crate::verify::by_key::placing_sets(
        records.facts,
        id,
        FactsView {
            location: Some(location),
            charged: saturated(facts.charged + location.key.len()) as u64,
            ..facts
        },
        id,
    );
}

/// A record is remembered as one, with the fingerprint of its projection where
/// it could be made; where it could not, that is reported.
pub proof fn records_are_remembered_with_their_fingerprint(
    records: RecordsView,
    sink: SinkView,
    id: Seq<u8>,
    bytes: Seq<u8>,
)
    requires
        crate::verify::by_key::keys_ascend(records.facts),
        !sink.truncated,
    ensures
        ({
            let noted = records.record_noted(sink, id, Some(bytes));
            !noted.sink.truncated ==> (lookup(noted.records.facts, id) matches Some(now)
                && now.has_record && now.expected == Some(crate::hashing::fingerprint(bytes)))
                && noted.sink.issues == sink.issues
        }),
        ({
            let noted = records.record_noted(sink, id, None);
            !noted.sink.truncated ==> (lookup(noted.records.facts, id) matches Some(now)
                && now.has_record && now.expected is None) && noted.sink.issues.len()
                == sink.issues.len() + 1 && noted.sink.issues.last().kind
                == VerifyIssueKind::RecordProjectionMismatch && noted.sink.issues.last().record_id
                == Some(id)
        }),
{
    let (made, expected) = RecordsView::expectation(sink, id, Some(bytes));
    let facts = match records.facts_of(made, id).1 {
        Some(facts) => facts,
        None => crate::verify::records::no_facts(id),
    };
    crate::verify::by_key::placing_sets(
        records.facts,
        id,
        FactsView { has_record: true, expected, ..facts },
        id,
    );
    let (missed, none) = RecordsView::expectation(sink, id, None);
    let others = match records.facts_of(missed, id).1 {
        Some(facts) => facts,
        None => crate::verify::records::no_facts(id),
    };
    crate::verify::by_key::placing_sets(
        records.facts,
        id,
        FactsView { has_record: true, expected: none, ..others },
        id,
    );
}

/// A tree that was listed and never came up is reported at its own hash and its
/// first partition.
pub proof fn unclaimed_trees_are_reported(ledger: LedgerView, sink: SinkView, n: int)
    requires
        0 < n <= ledger.trees.len(),
        !ledger.unclaimed_reported(sink, n).truncated,
    ensures
        !sink.truncated,
        ledger.unclaimed_reported(sink, n).issues.len() == sink.issues.len() + n,
        ledger.unclaimed_reported(sink, n).issues.last().kind == VerifyIssueKind::Reachability,
        ledger.unclaimed_reported(sink, n).issues.last().tree_key_hash
            == ledger.trees[n - 1].1.hash@,
        ledger.unclaimed_reported(sink, n).issues.last().partition_key == PartitionKey::of(1),
        ledger.unclaimed_reported(sink, n).issues.drop_last() == ledger.unclaimed_reported(
            sink,
            n - 1,
        ).issues,
    decreases n,
{
    let before = ledger.unclaimed_reported(sink, n - 1);
    let finding = Finding {
        kind: VerifyIssueKind::Reachability,
        tree: Some(ledger.trees[n - 1].1.hash@),
        partition: Some(PartitionKey::of(1)),
        record_id: None,
    };
    if !before.truncated {
        findings_become_issues(before, finding);
        if n > 1 {
            unclaimed_trees_are_reported(ledger, sink, n - 1);
        } else {
            assert(before == sink);
        }
    }
}

/// A listed Manifest is found under its Tree Key, and no other is lost.
pub proof fn manifests_are_listed_by_their_key(
    ledger: LedgerView,
    sink: SinkView,
    key: Seq<u8>,
    listed: ListedTree,
    other: Seq<u8>,
)
    requires
        crate::verify::by_key::keys_ascend(ledger.trees),
    ensures
        ({
            let after = ledger.manifest_noted(sink, key, listed);
            &&& !after.sink.truncated ==> lookup(after.ledger.trees, key) == Some(listed)
            &&& after.sink.truncated ==> after.ledger == ledger
            &&& other != key ==> lookup(after.ledger.trees, other) == lookup(ledger.trees, other)
            &&& after.ledger.walk == ledger.walk
            &&& after.ledger.actionable == ledger.actionable
        }),
{
    crate::verify::by_key::placing_sets(ledger.trees, key, listed, key);
    crate::verify::by_key::placing_sets(ledger.trees, key, listed, other);
}

/// A read summary is kept with its partition; nothing else of it changes but
/// what it is charged.
pub proof fn read_summaries_are_kept(
    ledger: LedgerView,
    sink: SinkView,
    key: Seq<u8>,
    hash: Seq<u8>,
    partition: PartitionKey,
    synopsis: SynopsisView,
)
    ensures
        ({
            let opened = ledger.opened(sink, key, hash, partition);
            let facts = opened.ledger.walk->0.current->0;
            let after = ledger.synopsis_absorbed(sink, key, hash, partition, synopsis);
            opened.ledger.walk->0.current is Some && !after.sink.truncated ==> {
                let now = after.ledger.walk->0.current->0;
                &&& after.ledger.walk->0.current is Some
                &&& now.synopsis == Some(synopsis)
                &&& now.header == facts.header
                &&& now.transition == facts.transition
                &&& now.leaf_entries == facts.leaf_entries
                &&& now.child_entries == facts.child_entries
                &&& now.recomputed == facts.recomputed
                &&& after.sink.issues == opened.sink.issues
            }
        }),
{
}

/// Closing a walk counts the partition it was at exactly when maintenance has
/// something to do with it.
pub proof fn actionable_partitions_are_counted(ledger: LedgerView, sink: SinkView)
    requires
        ledger.actionable < u64::MAX,
    ensures
        ({
            let after = ledger.walk_closed(sink).ledger;
            let facts = (ledger.walk->0).current->0;
            &&& after.walk is None
            &&& after.trees == ledger.trees
            &&& ledger.walk is None || (ledger.walk->0).current is None || facts.header is None
                ==> after.actionable == ledger.actionable
            &&& ledger.walk is Some && (ledger.walk->0).current is Some && facts.header is Some
                ==> after.actionable == ledger.actionable + if crate::maintenance::fixup::selected_action(
                ledger.minimum,
                ledger.maximum,
                facts.partition,
                facts.header->0,
            ) is Some {
                1int
            } else {
                0
            }
        }),
{
}

/// Complete record groups wait for their entries; incomplete ones are reported
/// and forgotten.
pub proof fn complete_groups_are_kept(records: RecordsView, sink: SinkView, n: int, at: int)
    requires
        0 <= at < n <= records.facts.len(),
        !records.groups_checked(sink, n).sink.truncated,
        records.facts[at].1.has_record,
        records.facts[at].1.location is Some,
    ensures
        records.groups_checked(sink, n).records.facts.contains(records.facts[at]),
    decreases n,
{
    let before = records.groups_checked(sink, n - 1);
    let after = records.groups_checked(sink, n);
    let kept = before.records.facts;
    if at < n - 1 {
        if before.sink.truncated {
            assert(after.sink.truncated);
        } else {
            complete_groups_are_kept(records, sink, n - 1, at);
            let k = choose|k: int| 0 <= k < kept.len() && kept[k] == records.facts[at];
            assert(after.records.facts[k] == records.facts[at]);
        }
    } else {
        assert(after.records.facts[kept.len() as int] == records.facts[at]);
    }
}

/// Every item takes one object of the budget, and nothing is done with one that
/// no longer fits.
pub proof fn items_take_one_object(audit: AuditView, items: Seq<ItemView>, n: int)
    requires
        0 <= n < items.len(),
    ensures
        ({
            let before = audit.items_processed(items, n);
            let after = audit.items_processed(items, n + 1);
            &&& audit.items_processed(items, 0) == audit
            &&& before.sink.truncated || before.sink.limits.objects_remaining == 0
                ==> after.sink.truncated && after.sink.issues == before.sink.issues && after.counts
                == before.counts && after.shape == before.shape && after.records == before.records
                && after.ledger == before.ledger
            &&& !before.sink.truncated && before.sink.limits.objects_remaining > 0 ==> after
                == (AuditView { sink: before.sink.object_charged(), ..before }).processed(items[n])
        }),
{
}

proof fn reported_findings_are_issues(sink: SinkView, findings: Seq<Finding>, finding: Finding)
    requires
        findings.contains(finding),
        !fed(sink, findings).truncated,
    ensures
        fed(sink, findings).issues.contains(sink.issue_of(finding)),
        fed(sink, findings).issues.len() == sink.issues.len() + findings.len(),
        fed(sink, findings).index == sink.index,
{
    running_sinks_report_everything(sink, findings);
    let k = choose|k: int| 0 <= k < findings.len() && findings[k] == finding;
    let issues = fed(sink, findings).issues;
    assert(issues[sink.issues.len() + k] == sink.issue_of(findings[k]));
}

/// Closing a partition reports everything its check finds.
pub proof fn closing_reports_the_partition(walk: WalkView, sink: SinkView, finding: Finding)
    requires
        walk.current is Some,
        (walk.current->0).findings(walk.tree.hash).contains(finding),
        !walk.partition_closed(sink).0.truncated,
    ensures
        walk.partition_closed(sink).0.issues.contains(sink.issue_of(finding)),
        walk.partition_closed(sink).0.issues.len() == sink.issues.len() + (
        walk.current->0).findings(walk.tree.hash).len(),
{
    let findings = (walk.current->0).findings(walk.tree.hash);
    reported_findings_are_issues(sink, findings, finding);
}

/// The walk of a tree ends with the checks of the whole tree, and reports
/// everything they find.
pub proof fn walks_end_with_the_checks_of_the_tree(
    walk: WalkView,
    sink: SinkView,
    finding: Finding,
)
    requires
        walk.current is None,
        walk.tree.findings().contains(finding),
        !walk.finished(sink).truncated,
    ensures
        walk.finished(sink).issues.contains(sink.issue_of(finding)),
        walk.finished(sink).issues.len() == sink.issues.len() + walk.tree.findings().len(),
{
    let charged = sink.memory_charged(walk.check_size());
    if charged.truncated {
        assert(walk.finished(sink).truncated);
    } else {
        assert(charged.issue_of(finding) == sink.issue_of(finding));
        reported_findings_are_issues(charged, walk.tree.findings(), finding);
    }
}

/// A scan ends with every record that nothing joined reported at its Location.
pub proof fn scans_end_with_the_unjoined_records(audit: AuditView, at: int)
    requires
        audit.records.groups_finalized,
        audit.ledger.walk is None,
        audit.ledger.trees.len() == 0,
        0 <= at < audit.records.facts.len(),
        audit.records.facts[at].1.location is Some,
        !audit.scan_finished().sink.truncated,
    ensures
        audit.scan_finished().sink.issues.contains(
            (IssueView {
                kind: VerifyIssueKind::Membership,
                logical_index_id: audit.sink.index,
                tree_key_hash: (audit.records.facts[at].1.location->0).hash,
                partition_key: (audit.records.facts[at].1.location->0).leaf,
                record_id: Some(audit.records.facts[at].0),
            }),
        ),
{
    let n = audit.records.facts.len() as int;
    unjoined_records_are_reported(audit.records, n, at);
    let finding = Finding {
        kind: VerifyIssueKind::Membership,
        tree: Some((audit.records.facts[at].1.location->0).hash),
        partition: Some((audit.records.facts[at].1.location->0).leaf),
        record_id: Some(audit.records.facts[at].0),
    };
    assert(audit.ledger.finished(audit.sink).sink == audit.sink);
    reported_findings_are_issues(audit.sink, audit.records.leftover_findings(n), finding);
}

/// A scan ends with the last tree checked and every tree that never came up
/// reported.
pub proof fn scans_end_with_the_unclaimed_trees(ledger: LedgerView, sink: SinkView)
    requires
        ledger.walk is None,
        ledger.trees.len() > 0,
        !ledger.finished(sink).sink.truncated,
    ensures
        ledger.finished(sink).sink.issues.len() == sink.issues.len() + ledger.trees.len(),
        ledger.finished(sink).sink.issues.last().kind == VerifyIssueKind::Reachability,
        ledger.finished(sink).ledger.trees.len() == 0,
        ledger.finished(sink).ledger.walk is None,
{
    unclaimed_trees_are_reported(ledger, sink, ledger.trees.len() as int);
}

/// Every readable object goes to the ledger of its kind: records, Locations and
/// Payloads to the records, everything of a tree to its walk.
pub proof fn objects_go_to_their_ledger(
    audit: AuditView,
    id: Seq<u8>,
    canonical: Option<Seq<u8>>,
    location: LocationView,
    key: Seq<u8>,
    hash: [u8; 32],
    partition: PartitionKey,
    header: PartitionHeader,
    transition: PartitionTransition,
)
    ensures
        ({
            let after = audit.dispatched(
                KeyView::Record { id },
                BodyView::VectorRecord { canonical },
            );
            let noted = audit.records.record_noted(audit.sink, id, canonical);
            after.records == noted.records && after.sink == noted.sink && after.ledger
                == audit.ledger && after.counts == audit.counts
        }),
        ({
            let after = audit.dispatched(
                KeyView::Location { id },
                BodyView::RecordLocation { location },
            );
            let noted = audit.records.location_noted(audit.sink, id, location);
            after.records == noted.records && after.sink == noted.sink && after.ledger
                == audit.ledger && after.counts == audit.counts
        }),
        ({
            let after = audit.dispatched(KeyView::Payload { id }, BodyView::OpaquePayload);
            let noted = audit.records.payload_noted(audit.sink, id);
            after.records == noted.records && after.sink == noted.sink && after.ledger
                == audit.ledger && after.counts == audit.counts
        }),
        ({
            let after = audit.dispatched(
                KeyView::Header { key, hash, partition },
                BodyView::PartitionHeader { header },
            );
            let walked = audit.ledger.header_absorbed(audit.sink, key, hash@, partition, header);
            after.ledger == walked.ledger && after.sink == walked.sink && after.records
                == audit.records && after.counts == audit.counts
        }),
        ({
            let after = audit.dispatched(
                KeyView::State { key, hash, partition },
                BodyView::PartitionState { transition },
            );
            let walked = audit.ledger.state_absorbed(audit.sink, key, hash@, partition, transition);
            after.ledger == walked.ledger && after.sink == walked.sink && after.records
                == audit.records && after.counts == audit.counts
        }),
{
}

/// What a record, a walk and a listed tree are charged grows with their keys,
/// byte by byte.
pub proof fn charges_grow_with_their_keys(a: Seq<u8>, b: Seq<u8>)
    requires
        crate::verify::records::record_bytes(a) < u64::MAX,
        crate::verify::records::record_bytes(b) < u64::MAX,
        crate::verify::topology::walk_size(a) < u64::MAX,
        crate::verify::topology::walk_size(b) < u64::MAX,
        crate::verify::topology::listed_size(a) < u64::MAX,
        crate::verify::topology::listed_size(b) < u64::MAX,
    ensures
        crate::verify::records::record_bytes(a) - a.len() == crate::verify::records::record_bytes(b)
            - b.len(),
        crate::verify::topology::walk_size(a) - a.len() == crate::verify::topology::walk_size(b)
            - b.len(),
        crate::verify::topology::listed_size(a) - a.len() == crate::verify::topology::listed_size(b)
            - b.len(),
{
}

} // verus!
