use ktann::api::error::{Error, ErrorKind};
use ktann::api::identifiers::PartitionKey;
use ktann::api::number::{Distance, Float64};
use ktann::maintenance::descent::WriteDescent;
use ktann::maintenance::ranking::{
    beam_width, beats, nearer_of_two, nearest_ready_candidate, ChildCandidate, NearestChildren,
};
use ktann::maintenance::routing::{
    check_level, check_root_state, child_scan_limits, distinct_routes, drain_target, guard_keys,
    nearer_redirect_target, resolve_hop, resolve_source, validate_for_write, BodyScans, Descent,
    GuardKey, GuardValue, HopPlan, Incoming, NearestChild, PageSummary, Route,
};
use ktann::topology::{
    split_family_bodies, Authority, Body, LevelCandidate, PartitionHeader, PartitionState,
    PartitionTransition,
};

fn ok<T>(result: Result<T, Error>) -> T {
    match result {
        Ok(value) => value,
        Err(error) => panic!("{}", error.describe()),
    }
}

fn kind_of<T>(result: Result<T, Error>) -> Option<ErrorKind> {
    result.err().map(|error| error.kind())
}

const CORRUPTION: Option<ErrorKind> = Some(ErrorKind::Corruption);

fn p(value: u64) -> PartitionKey {
    ok(PartitionKey::new(value))
}

fn d(value: f64) -> Distance {
    Distance::new(Float64 { bits: value.to_bits() }).expect("finite distance")
}

fn header(level: u32, count: u32, state: PartitionState) -> PartitionHeader {
    ok(PartitionHeader::new(level, count, 0, state))
}

fn authority(level: u32, transition: PartitionTransition) -> Authority {
    ok(Authority::new(header(level, 4, transition.state()), transition))
}

fn ready(level: u32) -> Authority {
    authority(level, PartitionTransition::Ready { started_at_unix_millis: 0 })
}

fn splitting(level: u32, left: u64, right: u64) -> Authority {
    authority(
        level,
        PartitionTransition::Splitting {
            left: p(left),
            right: p(right),
            started_at_unix_millis: 0,
        },
    )
}

fn draining(level: u32, left: u64, right: u64) -> Authority {
    authority(
        level,
        PartitionTransition::DrainingSplit {
            left: p(left),
            right: p(right),
            started_at_unix_millis: 0,
        },
    )
}

fn receiving(level: u32, source: u64) -> Authority {
    authority(
        level,
        PartitionTransition::ReceivingSplit { source: p(source), started_at_unix_millis: 0 },
    )
}

fn merging(level: u32) -> Authority {
    authority(level, PartitionTransition::Merging { started_at_unix_millis: 0 })
}

fn route(leaf: u64, parent: Option<u64>, incoming: Incoming) -> Route {
    Route {
        leaf: p(leaf),
        leaf_header: header(1, 4, PartitionState::Ready),
        parent: parent.map(p),
        incoming,
    }
}

#[test]
fn authority_values_come_in_consistent_pairs() {
    assert_eq!(
        kind_of(PartitionHeader::new(0, 1, 0, PartitionState::Ready)),
        Some(ErrorKind::InvalidArgument)
    );
    assert!(ok(Authority::from_values(None, None)).is_none());
    let lone = Authority::from_values(Some(header(1, 1, PartitionState::Ready)), None);
    assert_eq!(kind_of(lone), CORRUPTION);
    let disagreeing = Authority::new(
        header(1, 1, PartitionState::Ready),
        PartitionTransition::Merging { started_at_unix_millis: 0 },
    );
    assert_eq!(kind_of(disagreeing), CORRUPTION);
}

#[test]
fn only_stable_and_filling_leaves_accept_writes() {
    assert!(PartitionState::Ready.accepts_writes());
    assert!(PartitionState::Splitting.accepts_writes());
    assert!(PartitionState::ReceivingSplit.accepts_writes());
    assert!(!PartitionState::DrainingSplit.accepts_writes());
    assert!(!PartitionState::Merging.accepts_writes());
}

#[test]
fn distance_ties_prefer_the_smaller_partition() {
    assert!(beats(d(1.0), p(9), d(2.0), p(2)));
    assert!(beats(d(1.0), p(2), d(1.0), p(3)));
    assert!(!beats(d(1.0), p(3), d(1.0), p(3)));
    assert_eq!(nearer_of_two(p(3), d(1.0), p(2), d(1.0)), p(2));
    assert_eq!(nearer_of_two(p(3), d(0.5), p(2), d(1.0)), p(3));
}

#[test]
fn a_beam_keeps_the_nearest_children() {
    let mut beam = NearestChildren::new(2);
    for (distance, child) in [(3.0, 5), (1.0, 9), (2.0, 7), (1.0, 4)] {
        beam.consider(ChildCandidate { distance: d(distance), child: p(child), owner: p(1) });
    }
    let best: Vec<u64> = beam.into_best().iter().map(|one| one.child.get()).collect();
    assert_eq!(best, vec![4, 9]);
}

#[test]
fn upper_levels_use_a_narrower_beam() {
    assert_eq!(beam_width(32, 1), 32);
    assert!(beam_width(32, 2) <= 32);
    assert!(beam_width(1, 9) >= 1);
}

#[test]
fn merges_choose_the_nearest_other_ready_partition() {
    let candidate = |partition: u64, state: PartitionState| LevelCandidate {
        partition: p(partition),
        parent: p(1),
        header: header(1, 3, state),
    };
    let level = vec![
        candidate(5, PartitionState::Ready),
        candidate(6, PartitionState::Merging),
        candidate(7, PartitionState::Ready),
    ];
    let distances = vec![Some(d(0.0)), Some(d(0.5)), Some(d(2.0))];
    assert_eq!(ok(nearest_ready_candidate(p(5), &level, &distances)), Some(2));
    assert_eq!(ok(nearest_ready_candidate(p(9), &level, &distances)), Some(0));
    let only = vec![candidate(5, PartitionState::Ready)];
    assert_eq!(ok(nearest_ready_candidate(p(5), &only, &vec![Some(d(0.0))])), None);
}

#[test]
fn hops_resolve_by_level_and_state() {
    let root = p(1);
    assert!(matches!(
        resolve_hop(root, p(4), Some(1), ready(1)),
        Ok(HopPlan::Leaf(found)) if found.level == 1
    ));
    assert!(matches!(
        resolve_hop(root, root, None, ready(3)),
        Ok(HopPlan::Children { next_level: 2, .. })
    ));
    assert_eq!(kind_of(resolve_hop(root, p(4), Some(2), ready(1))), CORRUPTION);
    assert!(matches!(
        resolve_hop(root, p(4), Some(2), draining(2, 5, 6)),
        Ok(HopPlan::ReadFamily { next_level: 1, .. })
    ));
    assert!(matches!(
        resolve_hop(root, p(4), Some(1), draining(1, 5, 6)),
        Ok(HopPlan::ReadDrainTargets { left, right }) if left == p(5) && right == p(6)
    ));
    assert!(matches!(
        resolve_hop(root, p(4), Some(1), merging(1)),
        Ok(HopPlan::ReadCandidates { level: 1 })
    ));
    assert!(matches!(
        resolve_hop(root, p(5), Some(2), receiving(2, 4)),
        Ok(HopPlan::ReadSource { source }) if source == p(4)
    ));
}

#[test]
fn the_root_never_merges_and_never_receives() {
    let root = p(1);
    assert_eq!(kind_of(check_root_state(root, root, merging(1).transition)), CORRUPTION);
    assert_eq!(kind_of(check_root_state(root, root, receiving(1, 2).transition)), CORRUPTION);
    assert!(check_root_state(root, root, splitting(1, 2, 3).transition).is_ok());
    assert!(check_root_state(root, p(2), merging(1).transition).is_ok());
    assert!(check_level(&header(2, 0, PartitionState::Ready), None).is_ok());
    assert_eq!(
        kind_of(check_level(&header(2, 0, PartitionState::Ready), Some(1))),
        CORRUPTION
    );
}

#[test]
fn a_filling_target_reads_its_source_family() {
    let plan = ok(resolve_source(p(5), 2, p(4), draining(2, 5, 6)));
    assert!(matches!(plan, HopPlan::ReadFamily { .. }));
    let early = ok(resolve_source(p(5), 2, p(4), splitting(2, 5, 6)));
    assert!(matches!(early, HopPlan::Sideways { source } if source == p(4)));
}

#[test]
fn split_families_stand_on_one_level() {
    let source = Body { partition: p(4), header: header(2, 3, PartitionState::DrainingSplit) };
    let filling = Some(header(2, 1, PartitionState::ReceivingSplit));
    let family = ok(split_family_bodies(source, p(5), filling, p(6), filling, 2));
    let members: Vec<u64> = family.iter().map(|body| body.partition.get()).collect();
    assert_eq!(members, vec![4, 5, 6]);
    let lower = Some(header(1, 1, PartitionState::ReceivingSplit));
    assert_eq!(kind_of(split_family_bodies(source, p(5), lower, p(6), filling, 2)), CORRUPTION);
    assert_eq!(kind_of(split_family_bodies(source, p(5), None, p(6), filling, 2)), CORRUPTION);
}

#[test]
fn drains_redirect_to_the_nearer_target() {
    let target = |value: u64| {
        ok(drain_target(p(value), true, Some(header(1, 1, PartitionState::ReceivingSplit))))
    };
    let nearer = nearer_redirect_target(target(5), d(2.0), target(6), d(1.0));
    assert_eq!(nearer.partition, p(6));
    assert_eq!(kind_of(drain_target(p(5), false, None)), CORRUPTION);
}

#[test]
fn one_descent_follows_the_nearest_child() {
    let mut descent = Descent::new(p(1));
    assert!(matches!(descent.resolve(ready(2)), Ok(HopPlan::Children { next_level: 1, .. })));
    let mut nearest = NearestChild::new();
    nearest.consider(d(2.0), p(8), p(1));
    nearest.consider(d(1.0), p(9), p(1));
    assert!(descent.follow(nearest, 1).is_ok());
    let route = descent.arrive(header(1, 4, PartitionState::Ready));
    assert_eq!(route.leaf(), p(9));
    assert_eq!(route.parent(), Some(p(1)));
    assert_eq!(route.draining_source(), None);
    assert_eq!(kind_of(NearestChild::new().finish()), CORRUPTION);
}

#[test]
fn scans_read_every_body_to_its_exact_count() {
    let body = |count: u32| Body { partition: p(4), header: header(2, count, PartitionState::Ready) };
    let mut scans = BodyScans::new(2);
    assert_eq!(scans.legs(), vec![0, 1]);
    scans.absorb(0, PageSummary { items: 3, more: false });
    scans.absorb(1, PageSummary { items: 64, more: true });
    assert_eq!(scans.legs(), vec![1]);
    scans.absorb(1, PageSummary { items: 1, more: false });
    assert_eq!(scans.legs(), Vec::<usize>::new());
    assert!(scans.finish(&vec![body(3), body(65)]).is_ok());
    assert_eq!(kind_of(scans.finish(&vec![body(3), body(64)])), CORRUPTION);
    let limits = ok(child_scan_limits(8));
    assert_eq!(limits.item_limit, 64);
}

#[test]
fn writes_revalidate_every_distinct_route() {
    let routes = vec![
        route(4, Some(1), Incoming::ParentEdge),
        route(4, Some(1), Incoming::ParentEdge),
        route(7, None, Incoming::ParentEdge),
    ];
    let distinct = distinct_routes(&routes);
    assert_eq!(distinct.len(), 2);
    let keys = guard_keys(&distinct);
    assert!(keys.contains(&GuardKey::Header(p(4))));
    assert!(keys.contains(&GuardKey::ChildEntry { parent: p(1), child: p(4) }));
    let values: Vec<Option<GuardValue>> = keys
        .iter()
        .map(|key| {
            Some(match key {
                GuardKey::Header(_) => GuardValue::Header(header(1, 4, PartitionState::Ready)),
                GuardKey::ChildEntry { child, .. } => GuardValue::ChildEntry(*child),
                GuardKey::State(_) => GuardValue::Other,
            })
        })
        .collect();
    assert!(validate_for_write(&distinct, &values).is_ok());
    let mut missing = values.clone();
    missing[0] = None;
    assert!(validate_for_write(&distinct, &missing).is_err());
}

#[test]
fn a_batch_descends_together_to_its_leaves() {
    let mut descent = WriteDescent::new(p(1), 2, 1);
    assert!(!descent.is_done());
    assert_eq!(descent.begin_wave(), vec![p(1)]);
    let group = descent.next_group().expect("the root group");
    assert_eq!(group.members.len(), 2);
    let body = Body { partition: p(1), header: header(2, 2, PartitionState::Ready) };
    assert!(descent.scan(group, &vec![body], 1).is_ok());
    assert!(descent.next_group().is_none());
    assert!(descent.observe_entry(0, p(8), &vec![d(1.0), d(5.0)]).is_ok());
    assert!(descent.observe_entry(0, p(9), &vec![d(2.0), d(4.0)]).is_ok());
    descent.finish_wave();
    assert!(descent.expects_leaves());
    assert_eq!(descent.pending_partitions(), vec![p(8), p(9)]);
    assert!(ok(descent.finish_leaf_wave(&vec![ready(1), ready(1)])));
    assert!(descent.is_done());
    let routes = ok(descent.into_routes());
    assert_eq!(routes[0].leaf(), p(8));
    assert_eq!(routes[1].leaf(), p(9));
    assert_eq!(routes[0].parent(), Some(p(1)));
}
