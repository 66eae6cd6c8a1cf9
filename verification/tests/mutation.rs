use ktann::api::config::IndexConfig;
use ktann::api::duration::Duration;
use ktann::api::error::{Error, ErrorKind};
use ktann::api::identifiers::{FieldId, PartitionKey};
use ktann::api::number::{Distance, Float32, Float64};
use ktann::api::operation::{Mutation, MutationOutcome};
use ktann::api::record::Record;
use ktann::api::schema::{DataType, FieldSchema, Metric, Value};
use ktann::maintenance::beam::{
    accept_candidates, corrective_family, corrective_source_family, Admission, CorrectiveBeam,
    FamilyPlan, LevelOutcome,
};
use ktann::maintenance::fixup::{action, plan_step, Action};
use ktann::maintenance::mutation::{
    attribute_upsert_failure, finish_item, place_expected, plan_item, route_groups,
    tree_key_values, upsert_positions, ChangedHeaders, ItemPlan, ItemReport, LocationSet,
    RecordLocation, RouteTable,
};
use ktann::maintenance::ranking::ChildCandidate;
use ktann::maintenance::routing::{Incoming, Route};
use ktann::maintenance::waiting::{Member, Waiting, WaveKey};
use ktann::topology::{Authority, Body, PartitionHeader, PartitionState, PartitionTransition};

fn ok<T>(result: Result<T, Error>) -> T {
    match result {
        Ok(value) => value,
        Err(error) => panic!("{}", error.describe()),
    }
}

fn kind_of<T>(result: Result<T, Error>) -> Option<ErrorKind> {
    result.err().map(|error| error.kind())
}

fn p(value: u64) -> PartitionKey {
    ok(PartitionKey::new(value))
}

fn d(value: f64) -> Distance {
    Distance::new(Float64 { bits: value.to_bits() }).expect("finite distance")
}

fn header(level: u32, count: u32, state: PartitionState) -> PartitionHeader {
    ok(PartitionHeader::new(level, count, 0, state))
}

fn config() -> IndexConfig {
    let fields = vec![
        ok(FieldSchema::new("bucket".to_string(), DataType::I64)),
        ok(FieldSchema::new("name".to_string(), DataType::String)),
    ];
    let config = ok(ok(IndexConfig::new(1, Metric::L2)).with_fields(fields));
    let config = ok(config.with_tree_key_fields(vec![FieldId(1), FieldId(0)]));
    ok(config.with_partition_entries(2, 8))
}

fn record(id: &[u8]) -> Record {
    ok(Record::new(
        id.to_vec(),
        vec![Float32 { bits: 1.0_f32.to_bits() }],
        vec![Value::I64(7), Value::String("x".to_string())],
    ))
}

fn at(tree: u8, leaf: u64) -> RecordLocation {
    RecordLocation { tree_key: vec![tree], leaf: p(leaf) }
}

fn plain(location: &RecordLocation) -> (Vec<u8>, u64) {
    (location.tree_key.clone(), location.leaf.get())
}

#[test]
fn tree_keys_project_their_fields_in_order() {
    let values = ok(tree_key_values(&config(), &record(b"a")));
    assert_eq!(values.len(), 2);
    assert!(values[0].same(&Value::String("x".to_string())));
    assert!(values[1].same(&Value::I64(7)));
    let bare = ok(Record::new(vec![1], vec![], vec![]));
    assert_eq!(kind_of(tree_key_values(&config(), &bare)), Some(ErrorKind::InvalidArgument));
}

#[test]
fn batches_are_routed_tree_by_tree() {
    let keys = vec![Some(vec![2]), None, Some(vec![1]), Some(vec![2])];
    let groups = route_groups(&keys);
    let plain: Vec<(Vec<u8>, usize, Vec<usize>)> = groups
        .iter()
        .map(|group| (group.tree_key.clone(), group.first_position, group.members.clone()))
        .collect();
    assert_eq!(plain, vec![(vec![2], 0, vec![0, 3]), (vec![1], 2, vec![2])]);

    let mut table = RouteTable::new(4);
    let route = |leaf: u64, incoming: Incoming| Route {
        leaf: p(leaf),
        leaf_header: header(1, 3, PartitionState::Ready),
        parent: Some(p(1)),
        incoming,
    };
    table.place(
        &groups[0],
        &vec![route(5, Incoming::ParentEdge), route(6, Incoming::SourceSlot(p(4)))],
    );
    assert_eq!(table.targets[0].as_ref().map(plain_ref), Some((vec![2], 5)));
    assert_eq!(table.targets[3].as_ref().map(plain_ref), Some((vec![2], 6)));
    assert!(table.targets[1].is_none());
    let draining: Vec<(Vec<u8>, u64)> =
        table.draining.into_items().iter().map(plain_ref).collect();
    assert_eq!(draining, vec![(vec![2], 4)]);
}

fn plain_ref(location: &RecordLocation) -> (Vec<u8>, u64) {
    plain(location)
}

#[test]
fn locations_are_kept_once_and_in_order() {
    let mut set = LocationSet::new();
    for location in [at(2, 1), at(1, 9), at(2, 1), at(1, 3)] {
        set.insert(location);
    }
    let items: Vec<(Vec<u8>, u64)> = set.into_items().iter().map(plain_ref).collect();
    assert_eq!(items, vec![(vec![1], 3), (vec![1], 9), (vec![2], 1)]);
}

#[test]
fn upsert_failures_name_the_input_position() {
    let mutations = vec![
        Mutation::Delete(vec![1]),
        Mutation::Upsert(record(b"a")),
        Mutation::Insert(record(b"b")),
        Mutation::Upsert(record(b"c")),
    ];
    let positions = upsert_positions(&mutations);
    assert_eq!(positions, vec![1, 3]);
    let error = Error::new(ErrorKind::Corruption).at_position(1);
    assert_eq!(attribute_upsert_failure(error, &positions).position(), Some(3));
    let general = Error::new(ErrorKind::Backend);
    assert_eq!(attribute_upsert_failure(general, &positions).position(), None);
    let expected = place_expected(4, &positions, &vec![None, Some(at(1, 5))]);
    assert!(expected[0].is_none() && expected[1].is_none() && expected[2].is_none());
    assert_eq!(expected[3].as_ref().map(plain_ref), Some((vec![1], 5)));
}

#[test]
fn items_are_applied_by_what_is_stored() {
    let insert = Mutation::Insert(record(b"a"));
    let upsert = Mutation::Upsert(record(b"a"));
    let delete = Mutation::Delete(b"a".to_vec());
    assert_eq!(ok(plan_item(&insert, true, false)), ItemPlan::Insert { upsert: false });
    assert_eq!(ok(plan_item(&upsert, true, false)), ItemPlan::Insert { upsert: true });
    assert_eq!(ok(plan_item(&upsert, true, true)), ItemPlan::Replace);
    assert_eq!(ok(plan_item(&delete, false, true)), ItemPlan::Delete);
    assert_eq!(kind_of(plan_item(&insert, false, false)), Some(ErrorKind::Backend));
}

#[test]
fn applied_items_report_outcomes_and_maintenance() {
    let mut changed = ChangedHeaders::new();
    let full = ItemReport {
        target: Some((at(1, 5), header(1, 9, PartitionState::Ready))),
        source: None,
    };
    assert_eq!(
        finish_item(ItemPlan::Insert { upsert: false }, &full, &mut changed),
        MutationOutcome::Inserted
    );
    let shrunk = ItemReport {
        target: None,
        source: Some((at(1, 6), header(1, 1, PartitionState::Ready))),
    };
    assert_eq!(
        finish_item(ItemPlan::Delete, &shrunk, &mut changed),
        MutationOutcome::Deleted { existed: true }
    );
    let nothing = ItemReport { target: None, source: None };
    assert_eq!(
        finish_item(ItemPlan::Delete, &nothing, &mut changed),
        MutationOutcome::Deleted { existed: false }
    );
    let stable = ItemReport {
        target: Some((at(1, 7), header(1, 4, PartitionState::Ready))),
        source: None,
    };
    assert_eq!(
        finish_item(ItemPlan::Replace, &stable, &mut changed),
        MutationOutcome::Upserted { replaced: true }
    );
    let mut draining = LocationSet::new();
    draining.insert(at(0, 3));
    let offered: Vec<(Vec<u8>, u64)> =
        changed.maintenance(&config(), draining).iter().map(plain_ref).collect();
    assert_eq!(offered, vec![(vec![0], 3), (vec![1], 5), (vec![1], 6)]);
}

#[test]
fn headers_select_their_state_machine() {
    let config = config();
    assert_eq!(action(&config, p(4), header(1, 9, PartitionState::Ready)), Some(Action::Split));
    assert_eq!(action(&config, p(4), header(1, 1, PartitionState::Ready)), Some(Action::Merge));
    assert_eq!(action(&config, p(1), header(1, 1, PartitionState::Ready)), None);
    let merging = Authority {
        header: header(1, 1, PartitionState::Merging),
        transition: PartitionTransition::Merging { started_at_unix_millis: 1_000 },
    };
    let timeout = Some(Duration::from_millis(100));
    assert_eq!(plan_step(&config, p(4), Some(merging), 1_050, timeout), None);
    assert_eq!(plan_step(&config, p(4), Some(merging), 1_100, timeout), Some(Action::Merge));
    assert_eq!(plan_step(&config, p(4), Some(merging), 1_050, None), Some(Action::Merge));
    assert_eq!(plan_step(&config, p(4), None, 1_050, None), None);
}

#[test]
fn waiting_groups_come_in_level_and_partition_order() {
    let mut waiting = Waiting::new();
    assert!(waiting.is_empty());
    let member = |position: usize| Member { member: position, parent: None, distance: d(0.0) };
    let key = |partition: u64, level: u32| WaveKey { partition: p(partition), level: Some(level) };
    waiting.add_one(key(7, 1), member(0));
    waiting.add_one(key(3, 1), member(1));
    waiting.add_all(key(7, 1), vec![member(2)]);
    assert_eq!(waiting.len(), 2);
    let first = waiting.pop_first().expect("one group");
    assert_eq!(first.key.partition, p(3));
    let second = waiting.pop_first().expect("another group");
    let members: Vec<usize> = second.members.iter().map(|one| one.member).collect();
    assert_eq!(members, vec![0, 2]);
    assert!(waiting.pop_first().is_none());
}

#[test]
fn corrective_beams_find_ready_neighbours() {
    let root = header(2, 3, PartitionState::Ready);
    assert!(ok(CorrectiveBeam::start(2, p(1), p(2), p(3), root, 4)).is_none());
    assert_eq!(
        kind_of(CorrectiveBeam::start(2, p(9), p(2), p(3), root, 4)),
        Some(ErrorKind::Corruption)
    );
    let mut beam = ok(CorrectiveBeam::start(1, p(9), p(2), p(3), root, 2)).expect("a search");
    assert_eq!(beam.next_partition(), Some(p(1)));
    assert_eq!(ok(beam.visit(Body { partition: p(1), header: root })), Admission::Scan);
    for (child, left, right) in [(5, 3.0, 1.0), (6, 0.5, 9.0), (7, 4.0, 5.0)] {
        assert!(beam.observe(p(1), p(child), Some(d(left)), Some(d(right))).is_ok());
    }
    assert!(beam.next_partition().is_none());
    match beam.finish_level() {
        LevelOutcome::Reached(found) => {
            let children: Vec<u64> = found.iter().map(|one| one.child.get()).collect();
            assert_eq!(children, vec![6, 5]);
        }
        _ => panic!("the level is reached"),
    }
    let edges = vec![
        ChildCandidate { distance: d(0.5), child: p(6), owner: p(1) },
        ChildCandidate { distance: d(1.0), child: p(5), owner: p(1) },
    ];
    let headers = vec![
        Some(header(1, 4, PartitionState::Ready)),
        Some(header(1, 4, PartitionState::Merging)),
    ];
    let accepted = ok(accept_candidates(1, &edges, &headers));
    assert_eq!(accepted.len(), 1);
    assert_eq!(accepted[0].partition, p(6));
}

#[test]
fn corrective_searches_read_whole_split_families() {
    let ready = Authority {
        header: header(2, 4, PartitionState::Ready),
        transition: PartitionTransition::Ready { started_at_unix_millis: 0 },
    };
    assert!(matches!(corrective_family(p(4), ready, 2), Ok(FamilyPlan::Alone { .. })));
    assert_eq!(kind_of(corrective_family(p(4), ready, 1)), Some(ErrorKind::Corruption));
    let draining = Authority {
        header: header(2, 4, PartitionState::DrainingSplit),
        transition: PartitionTransition::DrainingSplit {
            left: p(5),
            right: p(6),
            started_at_unix_millis: 0,
        },
    };
    assert!(matches!(
        corrective_family(p(4), draining, 2),
        Ok(FamilyPlan::Split { left, right, .. }) if left == p(5) && right == p(6)
    ));
    assert!(matches!(
        corrective_source_family(p(5), p(4), draining, 2),
        Ok(FamilyPlan::Split { .. })
    ));
    let receiving = Authority {
        header: header(2, 4, PartitionState::ReceivingSplit),
        transition: PartitionTransition::ReceivingSplit {
            source: p(4),
            started_at_unix_millis: 0,
        },
    };
    assert!(matches!(
        corrective_family(p(5), receiving, 2),
        Ok(FamilyPlan::Source { source }) if source == p(4)
    ));
}
