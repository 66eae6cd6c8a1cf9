//! Every audit stays within its limits.

use vstd::prelude::*;

use crate::api::identifiers::PartitionKey;
use crate::api::verify::VerifyIssueKind;
use crate::topology::{PartitionHeader, PartitionTransition};
use crate::verify::audit::{AllocatorRead, AuditView, BodyView, ItemView, KeyView};
use crate::verify::by_key::lookup;
use crate::verify::records::{
    placed_finding, record_bytes, record_finding, LocationView, RecordsView,
};
use crate::verify::sink::{fed, Finding, SinkView};
use crate::verify::synopsis::{saturated, SynopsisView};
use crate::verify::topology::{
    edge_size, listed_size, no_bodies, summary_size, walk_size, LeafEntryView, LedgerView, WalkView,
};

verus! {

/// Whether one state of a sink may come behind another: what was reported
/// stays, every new issue takes a slot, a stopped audit stays stopped, objects
/// are only spent, and the resident memory stays within its limit.
pub open spec fn follows(before: SinkView, after: SinkView) -> bool {
    &&& after.index == before.index
    &&& before.truncated ==> after.truncated
    &&& before.issues.len() <= after.issues.len()
    &&& after.issues.take(before.issues.len() as int) == before.issues
    &&& after.issues.len() + after.limits.issues_remaining == before.issues.len()
        + before.limits.issues_remaining
    &&& after.limits.objects_remaining <= before.limits.objects_remaining
    &&& after.limits.memory_limit == before.limits.memory_limit
    &&& before.limits.memory_used <= before.limits.memory_limit ==> after.limits.memory_used
        <= after.limits.memory_limit
}

proof fn follows_itself(sink: SinkView)
    ensures
        follows(sink, sink),
{
    assert(sink.issues.take(sink.issues.len() as int) =~= sink.issues);
}

proof fn follows_on(a: SinkView, b: SinkView, c: SinkView)
    requires
        follows(a, b),
        follows(b, c),
    ensures
        follows(a, c),
{
    let n = a.issues.len() as int;
    assert(c.issues.take(n) =~= c.issues.take(b.issues.len() as int).take(n));
}

proof fn steps_follow(sink: SinkView, bytes: int, finding: Finding)
    requires
        bytes >= 0,
    ensures
        follows(sink, sink.object_charged()),
        follows(sink, sink.memory_charged(bytes)),
        follows(sink, sink.memory_released(bytes)),
        follows(sink, sink.issued(finding)),
{
    follows_itself(sink);
    let n = sink.issues.len() as int;
    assert(sink.object_charged().issues.take(n) =~= sink.issues);
    assert(sink.memory_charged(bytes).issues.take(n) =~= sink.issues);
    assert(sink.memory_released(bytes).issues.take(n) =~= sink.issues);
    assert(sink.issued(finding).issues.take(n) =~= sink.issues);
}

proof fn findings_follow(sink: SinkView, findings: Seq<Finding>)
    ensures
        follows(sink, fed(sink, findings)),
    decreases findings.len(),
{
    if findings.len() == 0 {
        follows_itself(sink);
    } else {
        let before = fed(sink, findings.drop_last());
        findings_follow(sink, findings.drop_last());
        steps_follow(before, 0, findings.last());
        follows_on(sink, before, fed(sink, findings));
    }
}

proof fn charge_follows(start: SinkView, sink: SinkView, bytes: int)
    requires
        bytes >= 0,
        follows(start, sink),
    ensures
        follows(start, sink.memory_charged(bytes)),
        follows(start, sink.memory_released(bytes)),
{
    let finding = arbitrary();
    steps_follow(sink, bytes, finding);
    follows_on(start, sink, sink.memory_charged(bytes));
    follows_on(start, sink, sink.memory_released(bytes));
}

proof fn issue_follows(start: SinkView, sink: SinkView, finding: Finding)
    requires
        follows(start, sink),
    ensures
        follows(start, sink.issued(finding)),
{
    steps_follow(sink, 0, finding);
    follows_on(start, sink, sink.issued(finding));
}

proof fn facts_follow(records: RecordsView, sink: SinkView, id: Seq<u8>)
    ensures
        follows(sink, records.facts_of(sink, id).0),
{
    follows_itself(sink);
    charge_follows(sink, sink, record_bytes(id));
}

proof fn records_follow(
    records: RecordsView,
    sink: SinkView,
    id: Seq<u8>,
    canonical: Option<Seq<u8>>,
    location: LocationView,
)
    ensures
        follows(sink, records.record_noted(sink, id, canonical).sink),
        follows(sink, records.location_noted(sink, id, location).sink),
        follows(sink, records.payload_noted(sink, id).sink),
{
    follows_itself(sink);
    let (projected, expected) = RecordsView::expectation(sink, id, canonical);
    match canonical {
        None => {
            issue_follows(
                sink,
                sink,
                record_finding(
                    VerifyIssueKind::RecordProjectionMismatch,
                    id,
                ),
            );
        },
        Some(bytes) => {
            let charged = sink.memory_charged(bytes.len() as int);
            charge_follows(sink, sink, bytes.len() as int);
            charge_follows(sink, charged, bytes.len() as int);
        },
    }
    facts_follow(records, projected, id);
    follows_on(sink, projected, records.facts_of(projected, id).0);
    facts_follow(records, sink, id);
    charge_follows(sink, records.facts_of(sink, id).0, location.key.len() as int);
}

proof fn groups_follow(records: RecordsView, sink: SinkView, n: int)
    ensures
        follows(sink, records.groups_checked(sink, n).sink),
    decreases n,
{
    if n <= 0 {
        follows_itself(sink);
    } else {
        groups_follow(records, sink, n - 1);
        let before = records.groups_checked(sink, n - 1);
        let (id, facts) = records.facts[n - 1];
        let reported = fed(before.sink, facts.group_findings(id));
        findings_follow(before.sink, facts.group_findings(id));
        follows_on(sink, before.sink, reported);
        charge_follows(sink, reported, facts.charged as int);
    }
}

proof fn join_follows(
    records: RecordsView,
    sink: SinkView,
    key: Seq<u8>,
    hash: Seq<u8>,
    partition: PartitionKey,
    id: Seq<u8>,
    bytes: Seq<u8>,
)
    ensures
        follows(sink, records.entry_joined(sink, key, hash, partition, id, bytes).sink),
{
    follows_itself(sink);
    let membership = placed_finding(
        VerifyIssueKind::Membership,
        hash,
        partition,
        id,
    );
    let mismatch = placed_finding(
        VerifyIssueKind::RecordProjectionMismatch,
        hash,
        partition,
        id,
    );
    issue_follows(sink, sink, membership);
    issue_follows(sink, sink, mismatch);
    if let Some(facts) = lookup(records.facts, id) {
        charge_follows(sink, sink, facts.charged as int);
        charge_follows(sink, sink.issued(mismatch), facts.charged as int);
    }
}

proof fn close_follows(walk: WalkView, sink: SinkView)
    ensures
        follows(sink, walk.partition_closed(sink).0),
{
    follows_itself(sink);
    if let Some(facts) = walk.current {
        let reported = fed(sink, facts.findings(walk.tree.hash));
        findings_follow(sink, facts.findings(walk.tree.hash));
        charge_follows(sink, reported, facts.charged as int);
        charge_follows(
            sink,
            reported.memory_released(facts.charged as int),
            summary_size(),
        );
    }
}

proof fn finish_follows(walk: WalkView, sink: SinkView)
    ensures
        follows(sink, walk.finished(sink)),
{
    close_follows(walk, sink);
    let (reported, closed) = walk.partition_closed(sink);
    let parts = saturated((closed.tree.table.len() + closed.tree.edges.len()) as int);
    let size = edge_size();
    assert(parts * size >= 0) by (nonlinear_arith)
        requires
            parts >= 0,
            size >= 0,
    ;
    charge_follows(sink, reported, closed.check_size());
    let charged = reported.memory_charged(closed.check_size());
    findings_follow(charged, closed.tree.findings());
    follows_on(sink, charged, fed(charged, closed.tree.findings()));
    let checked = if charged.truncated {
        charged
    } else {
        fed(charged, closed.tree.findings())
    };
    charge_follows(
        sink,
        checked,
        saturated(closed.charged + closed.check_size()),
    );
}

proof fn open_follows(
    ledger: LedgerView,
    sink: SinkView,
    key: Seq<u8>,
    hash: Seq<u8>,
    partition: PartitionKey,
)
    ensures
        follows(sink, ledger.walk_closed(sink).sink),
        follows(sink, ledger.tree_opened(sink, key, hash).sink),
        follows(sink, ledger.opened(sink, key, hash, partition).sink),
{
    follows_itself(sink);
    if let Some(walk) = ledger.walk {
        finish_follows(walk, sink);
    }
    let closed = ledger.walk_closed(sink);
    let size = listed_size(key);
    charge_follows(sink, closed.sink, size);
    charge_follows(sink, closed.sink, walk_size(key));
    charge_follows(
        sink,
        closed.sink.memory_released(size),
        walk_size(key),
    );
    let reached = ledger.tree_opened(sink, key, hash);
    assert(follows(sink, reached.sink));
    let walk = reached.ledger.walk->0;
    close_follows(walk, reached.sink);
    let (reported, shut) = walk.partition_closed(reached.sink);
    follows_on(sink, reached.sink, reported);
    charge_follows(
        sink,
        reported,
        no_bodies(partition, ledger.estimate).charged as int,
    );
}

proof fn absorbing_follows(
    ledger: LedgerView,
    records: RecordsView,
    sink: SinkView,
    key: Seq<u8>,
    hash: Seq<u8>,
    partition: PartitionKey,
    child: PartitionKey,
    header: PartitionHeader,
    transition: PartitionTransition,
    synopsis: SynopsisView,
    entry: LeafEntryView,
)
    ensures
        follows(sink, ledger.header_absorbed(sink, key, hash, partition, header).sink),
        follows(sink, ledger.state_absorbed(sink, key, hash, partition, transition).sink),
        follows(sink, ledger.synopsis_absorbed(sink, key, hash, partition, synopsis).sink),
        follows(sink, ledger.child_entry_absorbed(sink, key, hash, partition, child).sink),
        follows(
            sink,
            ledger.leaf_entry_absorbed(sink, records, key, hash, partition, entry).0.sink,
        ),
{
    open_follows(ledger, sink, key, hash, partition);
    let opened = ledger.opened(sink, key, hash, partition);
    charge_follows(sink, opened.sink, ledger.estimate as int);
    charge_follows(sink, opened.sink, edge_size());
    let of = |kind: VerifyIssueKind, id: Option<Seq<u8>>|
        Finding { kind, tree: Some(hash), partition: Some(partition), record_id: id };
    let membership = VerifyIssueKind::Membership;
    let malformed = VerifyIssueKind::InvalidEncoding;
    issue_follows(sink, opened.sink, of(membership, None));
    issue_follows(sink, opened.sink, of(membership, Some(entry.id)));
    issue_follows(sink, opened.sink, of(malformed, Some(entry.id)));
    let a = opened.sink;
    let b = opened.sink.issued(of(membership, Some(entry.id)));
    let c = opened.sink.issued(of(malformed, Some(entry.id)));
    join_follows(records, a, key, hash, partition, entry.id, entry.bytes);
    join_follows(records, b, key, hash, partition, entry.id, entry.bytes);
    join_follows(records, c, key, hash, partition, entry.id, entry.bytes);
    follows_on(sink, a, records.entry_joined(a, key, hash, partition, entry.id, entry.bytes).sink);
    follows_on(sink, b, records.entry_joined(b, key, hash, partition, entry.id, entry.bytes).sink);
    follows_on(sink, c, records.entry_joined(c, key, hash, partition, entry.id, entry.bytes).sink);
}

proof fn unclaimed_follow(ledger: LedgerView, sink: SinkView, n: int)
    ensures
        follows(sink, ledger.unclaimed_reported(sink, n)),
    decreases n,
{
    if n <= 0 {
        follows_itself(sink);
    } else {
        unclaimed_follow(ledger, sink, n - 1);
        let before = ledger.unclaimed_reported(sink, n - 1);
        let (key, listed) = ledger.trees[n - 1];
        let finding = Finding {
            kind: VerifyIssueKind::Reachability,
            tree: Some(listed.hash@),
            partition: Some(PartitionKey::of(1)),
            record_id: None,
        };
        issue_follows(sink, before, finding);
        charge_follows(sink, before.issued(finding), listed_size(key));
    }
}

proof fn groups_finish_follows(records: RecordsView, sink: SinkView)
    ensures
        follows(sink, records.groups_finished(sink).sink),
{
    follows_itself(sink);
    groups_follow(records, sink, records.facts.len() as int);
}

proof fn dispatch_follows(audit: AuditView, key: KeyView, body: BodyView)
    ensures
        follows(audit.sink, audit.dispatched(key, body).sink),
{
    let sink = audit.sink;
    let ledger = audit.ledger;
    let records = audit.records;
    follows_itself(sink);
    issue_follows(sink, sink, key.malformed());
    match (key, body) {
        (KeyView::Record { id }, BodyView::VectorRecord { canonical }) => {
            records_follow(records, sink, id, canonical, arbitrary());
        },
        (KeyView::Location { id }, BodyView::RecordLocation { location }) => {
            records_follow(records, sink, id, None, location);
        },
        (KeyView::Payload { id }, BodyView::OpaquePayload) => {
            records_follow(records, sink, id, None, arbitrary());
        },
        (KeyView::TreeManifest { key, hash }, BodyView::TreeManifest { manifest }) => {
            charge_follows(sink, sink, listed_size(key));
        },
        (KeyView::Header { key, hash, partition }, BodyView::PartitionHeader { header }) => {
            absorbing_follows(
                ledger,
                records,
                sink,
                key,
                hash@,
                partition,
                partition,
                header,
                arbitrary(),
                arbitrary(),
                arbitrary(),
            );
        },
        (KeyView::Synopsis { key, hash, partition }, BodyView::PartitionSynopsis { synopsis }) => {
            absorbing_follows(
                ledger,
                records,
                sink,
                key,
                hash@,
                partition,
                partition,
                arbitrary(),
                arbitrary(),
                synopsis,
                arbitrary(),
            );
        },
        (KeyView::State { key, hash, partition }, BodyView::PartitionState { transition }) => {
            absorbing_follows(
                ledger,
                records,
                sink,
                key,
                hash@,
                partition,
                partition,
                arbitrary(),
                transition,
                arbitrary(),
                arbitrary(),
            );
        },
        (KeyView::Centroid { key, hash, partition }, BodyView::PartitionCentroid) => {
            open_follows(ledger, sink, key, hash@, partition);
        },
        (
            KeyView::LeafEntry { key, hash, partition, id },
            BodyView::LeafEntry { expanded, bytes },
        ) => {
            absorbing_follows(
                ledger,
                records,
                sink,
                key,
                hash@,
                partition,
                partition,
                arbitrary(),
                arbitrary(),
                arbitrary(),
                LeafEntryView { id, expanded, bytes },
            );
        },
        (KeyView::ChildEntry { key, hash, partition, child }, BodyView::ChildEntry) => {
            absorbing_follows(
                ledger,
                records,
                sink,
                key,
                hash@,
                partition,
                child,
                arbitrary(),
                arbitrary(),
                arbitrary(),
                arbitrary(),
            );
        },
        _ => {},
    }
}

proof fn item_follows(audit: AuditView, item: ItemView)
    ensures
        follows(audit.sink, audit.processed(item).sink),
{
    reveal(AuditView::processed);
    let sink = audit.sink;
    follows_itself(sink);
    match item {
        ItemView::BadKey => {
            issue_follows(
                sink,
                sink,
                Finding {
                    kind: VerifyIssueKind::InvalidEncoding,
                    tree: None,
                    partition: None,
                    record_id: None,
                },
            );
        },
        ItemView::BadValue { key } => {
            issue_follows(sink, sink, key.malformed());
        },
        ItemView::Decoded { key, body } => {
            let counted = audit.counted(body);
            assert(counted.sink == sink);
            groups_finish_follows(counted.records, sink);
            let reached = counted.reached(key);
            dispatch_follows(reached, key, body);
            follows_on(sink, reached.sink, reached.dispatched(key, body).sink);
        },
    }
}

proof fn met_items_follow(audit: AuditView, items: Seq<ItemView>, n: int)
    ensures
        follows(audit.sink, audit.items_processed(items, n).sink),
    decreases n,
{
    if n <= 0 {
        follows_itself(audit.sink);
    } else {
        met_items_follow(audit, items, n - 1);
        let before = audit.items_processed(items, n - 1);
        let charged = AuditView { sink: before.sink.object_charged(), ..before };
        steps_follow(before.sink, 0, arbitrary());
        follows_on(audit.sink, before.sink, charged.sink);
        item_follows(charged, items[n - 1]);
        follows_on(audit.sink, charged.sink, charged.processed(items[n - 1]).sink);
    }
}

/// Whatever an audit meets, it never reports more issues than its limit, never
/// takes back an issue, never exceeds its memory limit, and stays stopped once
/// a limit stopped it.
pub proof fn audits_stay_within_their_limits(
    audit: AuditView,
    items: Seq<ItemView>,
    bytes: nat,
    read: AllocatorRead,
)
    ensures
        follows(audit.sink, audit.allocator_checked(read).sink),
        follows(audit.sink, audit.page_processed(items, bytes as int).sink),
        follows(audit.sink, audit.scan_finished().sink),
{
    let sink = audit.sink;
    follows_itself(sink);
    steps_follow(sink, 0, arbitrary());
    let of = |kind: VerifyIssueKind|
        Finding { kind, tree: None, partition: None, record_id: None };
    let visited = sink.object_charged();
    issue_follows(sink, visited, of(VerifyIssueKind::Reachability));
    issue_follows(sink, visited, of(VerifyIssueKind::InvalidEncoding));
    issue_follows(sink, visited, of(VerifyIssueKind::CountMismatch));
    charge_follows(sink, sink, bytes as int);
    let charged = AuditView { sink: sink.memory_charged(bytes as int), ..audit };
    let looked = charged.items_processed(items, items.len() as int);
    met_items_follow(charged, items, items.len() as int);
    follows_on(sink, charged.sink, looked.sink);
    charge_follows(sink, looked.sink, bytes as int);
    groups_finish_follows(audit.records, sink);
    let grouped = audit.joined(audit.records.groups_finished(sink));
    open_follows(
        grouped.ledger,
        grouped.sink,
        Seq::empty(),
        Seq::empty(),
        PartitionKey::of(1),
    );
    let closed = grouped.ledger.walk_closed(grouped.sink);
    follows_on(sink, grouped.sink, closed.sink);
    unclaimed_follow(closed.ledger, closed.sink, closed.ledger.trees.len() as int);
    let walked = grouped.walked(grouped.ledger.finished(grouped.sink));
    follows_on(sink, closed.sink, walked.sink);
    let leftovers = walked.records.leftover_findings(walked.records.facts.len() as int);
    findings_follow(walked.sink, leftovers);
    follows_on(sink, walked.sink, fed(walked.sink, leftovers));
}

} // verus!
