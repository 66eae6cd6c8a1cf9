use ktann::api::config::IndexConfig;
use ktann::api::error::Error;
use ktann::api::identifiers::{LogicalIndexId, PartitionKey};
use ktann::api::number::Float64;
use ktann::api::schema::{Metric, Value};
use ktann::api::verify::{VerifyIssueKind, VerifyOptions, VerifyReport};
use ktann::observe::labels::VerifyCompletion;
use ktann::observe::samples::{completion, issue_count, state_age_millis};
use ktann::topology::{PartitionHeader, PartitionState, PartitionTransition};
use ktann::verify::audit::{
    page_bytes, AllocatorRead, Audit, ScannedItem, ScannedKey, ScannedValue,
};
use ktann::verify::by_key::ByKey;
use ktann::verify::limits::Limits;
use ktann::verify::records::{Location, RecordLedger};
use ktann::verify::sink::{HashedTreeKey, Sink};
use ktann::verify::synopsis::{
    conservative, is_at_most, synopsis_estimate, FieldSynopsis, PartitionSynopsis,
};
use ktann::verify::tree::{Edge, PartitionSummary, TreeFacts, TreeManifest};

fn ok<T>(result: Result<T, Error>) -> T {
    match result {
        Ok(value) => value,
        Err(error) => panic!("{}", error.describe()),
    }
}

fn limits(objects: u64, issues: usize, memory: u64) -> Limits {
    let options = ok(VerifyOptions::default().with_object_limit(objects));
    let options = ok(options.with_issue_limit(issues));
    Limits::new(&ok(options.with_memory_limit_bytes(memory)))
}

#[test]
fn every_limit_exhausts_exactly() {
    let mut limits = limits(2, 1, 8);
    assert!(limits.charge_object());
    assert!(limits.charge_object());
    assert!(!limits.charge_object());

    assert!(limits.take_issue_slot());
    assert!(!limits.take_issue_slot());

    assert!(limits.charge_memory(8));
    assert!(!limits.charge_memory(1));
    limits.release_memory(8);
    assert!(limits.charge_memory(8));
    limits.release_memory(u64::MAX);
    assert!(limits.charge_memory(8));
}

fn p(value: u64) -> PartitionKey {
    ok(PartitionKey::new(value))
}

fn index() -> LogicalIndexId {
    ok(LogicalIndexId::new(3))
}

fn tree() -> HashedTreeKey {
    HashedTreeKey { key: vec![1], hash: [7; 32] }
}

fn header(level: u32, count: u32, state: PartitionState) -> PartitionHeader {
    ok(PartitionHeader::new(level, count, 0, state))
}

const READY: PartitionTransition = PartitionTransition::Ready { started_at_unix_millis: 0 };

fn config() -> IndexConfig {
    ok(ok(IndexConfig::new(1, Metric::L2)).with_partition_entries(2, 8))
}

fn decoded(key: ScannedKey, value: ScannedValue) -> ScannedItem {
    ScannedItem::Decoded { key, value }
}

fn no_fields() -> PartitionSynopsis {
    PartitionSynopsis { shape_fits: true, fields: vec![] }
}

fn record_item(id: u8) -> ScannedItem {
    decoded(
        ScannedKey::Record { id: vec![id] },
        ScannedValue::VectorRecord { canonical: Some(vec![id, id]) },
    )
}

fn location_item(id: u8, leaf: u64) -> ScannedItem {
    decoded(
        ScannedKey::Location { id: vec![id] },
        ScannedValue::RecordLocation { location: Location { tree: tree(), leaf: p(leaf) } },
    )
}

fn manifest_item(high_water: u64) -> ScannedItem {
    decoded(
        ScannedKey::TreeManifest { tree: tree() },
        ScannedValue::TreeManifest {
            manifest: TreeManifest { root: p(1), high_water: p(high_water) },
        },
    )
}

fn header_item(partition: u64, value: PartitionHeader) -> ScannedItem {
    decoded(
        ScannedKey::Header { tree: tree(), partition: p(partition) },
        ScannedValue::PartitionHeader { header: value },
    )
}

fn state_item(partition: u64, transition: PartitionTransition) -> ScannedItem {
    decoded(
        ScannedKey::State { tree: tree(), partition: p(partition) },
        ScannedValue::PartitionState { transition },
    )
}

fn synopsis_item(partition: u64) -> ScannedItem {
    decoded(
        ScannedKey::Synopsis { tree: tree(), partition: p(partition) },
        ScannedValue::PartitionSynopsis { synopsis: no_fields() },
    )
}

fn leaf_entry_item(partition: u64, id: u8, bytes: Vec<u8>) -> ScannedItem {
    decoded(
        ScannedKey::LeafEntry { tree: tree(), partition: p(partition), id: vec![id] },
        ScannedValue::LeafEntry { expanded: Some(no_fields()), bytes },
    )
}

fn child_entry_item(partition: u64, child: u64) -> ScannedItem {
    decoded(
        ScannedKey::ChildEntry { tree: tree(), partition: p(partition), child: p(child) },
        ScannedValue::ChildEntry,
    )
}

fn leaf(partition: u64, entries: &[u8]) -> Vec<ScannedItem> {
    let mut items = vec![
        header_item(partition, header(1, entries.len() as u32, PartitionState::Ready)),
        synopsis_item(partition),
        state_item(partition, READY),
    ];
    for id in entries {
        items.push(leaf_entry_item(partition, *id, vec![*id, *id]));
    }
    items
}

fn sound_index() -> Vec<ScannedItem> {
    let mut items = vec![
        record_item(1),
        location_item(1, 2),
        record_item(2),
        location_item(2, 3),
        manifest_item(3),
        header_item(1, header(2, 2, PartitionState::Ready)),
        state_item(1, READY),
        child_entry_item(1, 2),
        child_entry_item(1, 3),
    ];
    items.extend(leaf(2, &[1]));
    items.extend(leaf(3, &[2]));
    items
}

fn run_with(options: VerifyOptions, items: Vec<ScannedItem>) -> VerifyReport {
    let mut audit = Audit::new(index(), &config(), &vec![], &options);
    audit.check_allocator(AllocatorRead::HighWater(9));
    let bytes = page_bytes(&vec![(4, 4); 3]);
    audit.process_page(items, bytes);
    audit.finish_scan();
    audit.finish()
}

fn run(items: Vec<ScannedItem>) -> VerifyReport {
    run_with(VerifyOptions::default(), items)
}

fn kinds(report: &VerifyReport) -> Vec<(VerifyIssueKind, u64)> {
    report
        .issues
        .iter()
        .map(|issue| (issue.kind, issue.partition_key.get()))
        .collect()
}

#[test]
fn a_sound_index_has_no_findings() {
    let report = run(sound_index());
    assert!(report.complete);
    assert_eq!(kinds(&report), vec![]);
    assert_eq!(report.objects.total, 18);
    assert_eq!(report.objects.vector_records, 2);
    assert_eq!(report.objects.record_locations, 2);
    assert_eq!(report.objects.partitions, 8);
    assert_eq!(report.objects.entries, 4);
    assert_eq!(report.topology.trees, 1);
    assert_eq!(report.topology.partitions, 3);
    assert_eq!(report.topology.max_level, Some(2));
    assert_eq!(report.topology.partitions_by_level.get(&1), Some(&2));
    assert_eq!(report.topology.entries_by_level.get(&2), Some(&2));
    assert_eq!(report.topology.max_entries_by_level.get(&1), Some(&1));
    assert_eq!(report.topology.partition_states.ready, 3);
    assert_eq!(report.topology.actionable_partitions, 2);
    assert_eq!(completion(&report), VerifyCompletion::Complete);
}

#[test]
fn malformed_items_are_reported_with_their_context() {
    let items = vec![
        ScannedItem::BadKey,
        ScannedItem::BadValue { key: ScannedKey::Record { id: vec![5] } },
        ScannedItem::BadValue {
            key: ScannedKey::Header { tree: tree(), partition: p(4) },
        },
        decoded(ScannedKey::Payload { id: vec![6] }, ScannedValue::ChildEntry),
        decoded(ScannedKey::Namespace, ScannedValue::Other),
    ];
    let report = run(items);
    assert_eq!(
        kinds(&report),
        vec![
            (VerifyIssueKind::InvalidEncoding, 1),
            (VerifyIssueKind::InvalidEncoding, 1),
            (VerifyIssueKind::InvalidEncoding, 4),
            (VerifyIssueKind::InvalidEncoding, 1),
        ]
    );
    assert_eq!(report.issues[0].tree_key_hash, [0; 32]);
    assert_eq!(report.issues[1].record_id, Some(vec![5]));
    assert_eq!(report.issues[2].tree_key_hash, [7; 32]);
    assert_eq!(report.issues[3].record_id, Some(vec![6]));
    assert_eq!(report.issues[0].logical_index_id, index());
}

#[test]
fn the_allocator_bounds_the_index() {
    let check = |read: AllocatorRead| {
        let mut audit = Audit::new(index(), &config(), &vec![], &VerifyOptions::default());
        audit.check_allocator(read);
        let report = audit.finish();
        report.issues.first().map(|issue| issue.kind)
    };
    assert_eq!(check(AllocatorRead::HighWater(3)), None);
    assert_eq!(check(AllocatorRead::HighWater(2)), Some(VerifyIssueKind::CountMismatch));
    assert_eq!(check(AllocatorRead::Absent), Some(VerifyIssueKind::Reachability));
    assert_eq!(check(AllocatorRead::Malformed), Some(VerifyIssueKind::InvalidEncoding));
}

#[test]
fn record_groups_must_be_whole() {
    let items = vec![
        location_item(1, 2),
        decoded(ScannedKey::Payload { id: vec![2] }, ScannedValue::OpaquePayload),
        record_item(3),
    ];
    let report = run(items);
    assert_eq!(
        kinds(&report),
        vec![
            (VerifyIssueKind::Membership, 2),
            (VerifyIssueKind::Membership, 1),
            (VerifyIssueKind::Membership, 1),
        ]
    );
    let ids: Vec<Option<Vec<u8>>> =
        report.issues.iter().map(|issue| issue.record_id.clone()).collect();
    assert_eq!(ids, vec![Some(vec![1]), Some(vec![2]), Some(vec![3])]);
}

#[test]
fn records_without_an_entry_are_reported_at_the_end() {
    let mut items = vec![record_item(9), location_item(9, 1), manifest_item(1)];
    items.extend(leaf(1, &[]));
    let report = run(items);
    assert_eq!(kinds(&report), vec![(VerifyIssueKind::Membership, 1)]);
    assert_eq!(report.issues[0].record_id, Some(vec![9]));
}

#[test]
fn entries_must_agree_with_their_record() {
    let mut items = vec![record_item(1), location_item(1, 1), manifest_item(1)];
    items.push(header_item(1, header(1, 1, PartitionState::Ready)));
    items.push(synopsis_item(1));
    items.push(state_item(1, READY));
    items.push(leaf_entry_item(1, 1, vec![1, 2]));
    let report = run(items);
    assert_eq!(kinds(&report), vec![(VerifyIssueKind::RecordProjectionMismatch, 1)]);
}

#[test]
fn entries_join_their_record_once() {
    let mut ledger = RecordLedger::new();
    let mut sink = Sink::new(index(), &VerifyOptions::default());
    ledger.note_record(&mut sink, &vec![1], Some(&vec![4]));
    ledger.note_location(&mut sink, &vec![1], Location { tree: tree(), leaf: p(2) });
    ledger.join_leaf_entry(&mut sink, &tree(), p(2), &vec![1], &vec![4]);
    assert_eq!(sink.issues.len(), 0);
    assert_eq!(sink.limits.memory_used, 0);
    ledger.join_leaf_entry(&mut sink, &tree(), p(2), &vec![1], &vec![4]);
    assert_eq!(sink.issues.len(), 1);
    assert_eq!(sink.issues[0].kind, VerifyIssueKind::Membership);
}

#[test]
fn records_that_cannot_be_projected_are_reported() {
    let items = vec![decoded(
        ScannedKey::Record { id: vec![1] },
        ScannedValue::VectorRecord { canonical: None },
    )];
    let report = run(items);
    assert_eq!(
        kinds(&report),
        vec![
            (VerifyIssueKind::RecordProjectionMismatch, 1),
            (VerifyIssueKind::Membership, 1),
        ]
    );
}

#[test]
fn counts_and_bodies_are_checked_per_partition() {
    let mut items = vec![manifest_item(1)];
    items.push(header_item(1, header(1, 2, PartitionState::Splitting)));
    items.push(state_item(1, READY));
    let report = run(items);
    assert_eq!(
        kinds(&report),
        vec![
            (VerifyIssueKind::Reachability, 1),
            (VerifyIssueKind::CountMismatch, 1),
            (VerifyIssueKind::Reachability, 1),
        ]
    );
    assert_eq!(issue_count(&report, VerifyIssueKind::Reachability), 2);
    assert_eq!(issue_count(&report, VerifyIssueKind::Membership), 0);
}

#[test]
fn unclaimed_manifests_have_no_root() {
    let report = run(vec![manifest_item(4)]);
    assert_eq!(kinds(&report), vec![(VerifyIssueKind::Reachability, 1)]);
    assert_eq!(report.issues[0].tree_key_hash, [7; 32]);
}

#[test]
fn unowned_trees_report_every_partition() {
    let report = run(leaf(4, &[]));
    assert_eq!(kinds(&report), vec![(VerifyIssueKind::Reachability, 4)]);
}

fn summary(level: u32, transition: PartitionTransition) -> PartitionSummary {
    PartitionSummary { level: Some(level), transition: Some(transition) }
}

fn findings(facts: &TreeFacts) -> Vec<(VerifyIssueKind, u64)> {
    let mut sink = Sink::new(index(), &VerifyOptions::default());
    facts.check_tree(&mut sink);
    sink.issues
        .iter()
        .map(|issue| (issue.kind, issue.partition_key.get()))
        .collect()
}

fn owned(high_water: u64) -> TreeFacts {
    TreeFacts::new([7; 32], Some(TreeManifest { root: p(1), high_water: p(high_water) }))
}

#[test]
fn sound_trees_have_no_findings() {
    let mut facts = owned(3);
    facts.insert(p(2), summary(1, READY));
    facts.insert(p(1), summary(2, READY));
    facts.insert(p(3), summary(1, READY));
    facts.edges.push(Edge { parent: p(1), child: p(2) });
    facts.edges.push(Edge { parent: p(1), child: p(3) });
    assert_eq!(findings(&facts), vec![]);
    assert!(facts.get(p(4)).is_none());
}

#[test]
fn partitions_are_owned_once_and_reachable() {
    let mut facts = owned(3);
    facts.insert(p(1), summary(2, READY));
    facts.insert(p(2), summary(1, READY));
    facts.insert(p(3), summary(2, READY));
    facts.insert(p(4), summary(1, READY));
    facts.edges.push(Edge { parent: p(1), child: p(2) });
    facts.edges.push(Edge { parent: p(3), child: p(4) });
    facts.edges.push(Edge { parent: p(1), child: p(2) });
    facts.edges.push(Edge { parent: p(1), child: p(9) });
    assert_eq!(
        findings(&facts),
        vec![
            (VerifyIssueKind::CountMismatch, 4),
            (VerifyIssueKind::Membership, 2),
            (VerifyIssueKind::Reachability, 1),
            (VerifyIssueKind::Membership, 3),
            (VerifyIssueKind::Reachability, 3),
            (VerifyIssueKind::Reachability, 4),
        ]
    );
}

#[test]
fn levels_descend_by_one() {
    let mut facts = owned(2);
    facts.insert(p(1), summary(3, READY));
    facts.insert(p(2), summary(1, READY));
    facts.edges.push(Edge { parent: p(1), child: p(2) });
    assert_eq!(findings(&facts), vec![(VerifyIssueKind::Membership, 1)]);
}

#[test]
fn a_splitting_root_owns_its_targets_without_edges() {
    let splitting = PartitionTransition::DrainingSplit {
        left: p(2),
        right: p(3),
        started_at_unix_millis: 0,
    };
    let receiving =
        PartitionTransition::ReceivingSplit { source: p(1), started_at_unix_millis: 0 };
    let mut facts = owned(3);
    facts.insert(p(1), summary(1, splitting));
    facts.insert(p(2), summary(1, receiving));
    facts.insert(p(3), summary(1, receiving));
    assert_eq!(findings(&facts), vec![]);

    let mut half = owned(3);
    half.insert(p(1), summary(1, splitting));
    half.insert(p(2), summary(1, receiving));
    assert_eq!(findings(&half), vec![(VerifyIssueKind::Reachability, 1)]);
}

#[test]
fn state_references_name_each_other() {
    let receiving =
        PartitionTransition::ReceivingSplit { source: p(1), started_at_unix_millis: 0 };
    let mut facts = owned(2);
    facts.insert(p(1), summary(2, READY));
    facts.insert(p(2), summary(1, receiving));
    facts.edges.push(Edge { parent: p(1), child: p(2) });
    assert_eq!(findings(&facts), vec![(VerifyIssueKind::Reachability, 2)]);

    let reserved = PartitionTransition::Splitting {
        left: p(1),
        right: p(9),
        started_at_unix_millis: 0,
    };
    let mut splitting = owned(3);
    splitting.insert(p(1), summary(1, reserved));
    assert_eq!(
        findings(&splitting),
        vec![(VerifyIssueKind::Reachability, 1), (VerifyIssueKind::CountMismatch, 1)]
    );
}

#[test]
fn cycles_are_not_reachable() {
    let mut facts = owned(3);
    facts.insert(p(1), summary(1, READY));
    facts.insert(p(2), summary(2, READY));
    facts.insert(p(3), summary(2, READY));
    facts.edges.push(Edge { parent: p(2), child: p(3) });
    facts.edges.push(Edge { parent: p(3), child: p(2) });
    let unreachable: Vec<u64> = findings(&facts)
        .into_iter()
        .filter(|(kind, _)| *kind == VerifyIssueKind::Reachability)
        .map(|(_, partition)| partition)
        .collect();
    assert_eq!(unreachable, vec![2, 3]);
}

#[test]
fn reaching_a_limit_stops_the_audit() {
    let one_issue = ok(VerifyOptions::default().with_issue_limit(1));
    let report = run_with(one_issue, vec![ScannedItem::BadKey, ScannedItem::BadKey, ScannedItem::BadKey]);
    assert!(!report.complete);
    assert_eq!(report.issues.len(), 1);
    assert_eq!(completion(&report), VerifyCompletion::Incomplete);

    let few_objects = ok(VerifyOptions::default().with_object_limit(3));
    let report = run_with(few_objects, sound_index());
    assert!(!report.complete);
    assert_eq!(report.objects.total, 3);
    assert_eq!(kinds(&report), vec![]);

    let no_memory = ok(VerifyOptions::default().with_memory_limit_bytes(8));
    let report = run_with(no_memory, sound_index());
    assert!(!report.complete);
    assert_eq!(kinds(&report), vec![]);
}

#[test]
fn synopses_cover_their_entries() {
    let text = |value: &str| Some(Value::String(value.to_string()));
    let field = |null: bool, low: &str, high: &str, bloom: u8| FieldSynopsis {
        has_null: null,
        minimum: text(low),
        maximum: text(high),
        bloom: Some(vec![bloom]),
    };
    let of = |one: FieldSynopsis| PartitionSynopsis { shape_fits: true, fields: vec![one] };
    let stored = of(field(true, "b", "y", 0b0111));
    assert!(conservative(&stored, &None));
    assert!(conservative(&stored, &Some(of(field(true, "b", "y", 0b0101)))));
    assert!(conservative(&stored, &Some(of(field(false, "c", "x", 0)))));
    assert!(!conservative(&stored, &Some(of(field(false, "a", "x", 0)))));
    assert!(!conservative(&stored, &Some(of(field(false, "c", "z", 0)))));
    assert!(!conservative(&stored, &Some(of(field(false, "c", "x", 0b1000)))));
    let without_null = of(field(false, "a", "z", 0xff));
    assert!(!conservative(&without_null, &Some(of(field(true, "b", "y", 0)))));
    let misshapen = PartitionSynopsis { shape_fits: false, fields: vec![] };
    assert!(!conservative(&misshapen, &None));
}

#[test]
fn typed_values_are_ordered_within_their_type() {
    let double = |value: f64| Value::F64(Float64 { bits: value.to_bits() });
    assert!(is_at_most(&Value::I64(-1), &Value::I64(0)));
    assert!(!is_at_most(&Value::I64(1), &Value::I64(0)));
    assert!(is_at_most(&double(-0.5), &double(0.25)));
    assert!(is_at_most(&double(-0.0), &double(0.0)));
    assert!(is_at_most(&double(0.0), &double(-0.0)));
    assert!(!is_at_most(&double(f64::NAN), &double(0.0)));
    assert!(is_at_most(&Value::Bool(false), &Value::Bool(true)));
    assert!(!is_at_most(&Value::Bool(true), &Value::Bool(false)));
    let text = |value: &str| Value::String(value.to_string());
    assert!(is_at_most(&text("ab"), &text("abc")));
    assert!(is_at_most(&text("z"), &text("é")));
    assert!(!is_at_most(&Value::I64(1), &double(2.0)));
    assert!(!is_at_most(&Value::Null, &Value::Null));
}

#[test]
fn synopsis_estimates_count_their_bloom_bytes() {
    let none = synopsis_estimate(&vec![None]);
    let nine_bits = synopsis_estimate(&vec![Some(9)]);
    assert_eq!(nine_bits - none, 3);
    assert_eq!(
        none - synopsis_estimate(&vec![]),
        std::mem::size_of::<FieldSynopsis>() as u64
    );
}

#[test]
fn tables_keep_their_keys_in_order() {
    let mut table: ByKey<u32> = ByKey::new();
    table.insert(vec![2], 20);
    table.insert(vec![1], 10);
    table.insert(vec![1, 0], 11);
    table.insert(vec![2], 21);
    assert_eq!(table.len(), 3);
    let keys: Vec<Vec<u8>> = (0..table.len()).map(|i| table.slot(i).key.clone()).collect();
    assert_eq!(keys, vec![vec![1], vec![1, 0], vec![2]]);
    assert_eq!(table.get(&vec![2]), Some(&21));
    assert_eq!(table.take(&vec![1]), Some(10));
    assert_eq!(table.take(&vec![1]), None);
    assert_eq!(table.get(&vec![1]), None);
    assert_eq!(table.get(&vec![1, 0]), Some(&11));
    table.insert(vec![1], 12);
    assert_eq!(table.get(&vec![1]), Some(&12));
    assert_eq!(table.len(), 3);
}

#[test]
fn page_sizes_and_state_ages_saturate() {
    assert_eq!(page_bytes(&vec![(3, 4), (5, 0)]), 12);
    assert_eq!(page_bytes(&vec![(usize::MAX, usize::MAX)]), u64::MAX);
    assert_eq!(state_age_millis(10, 4), 6);
    assert_eq!(state_age_millis(4, 10), 0);
}
