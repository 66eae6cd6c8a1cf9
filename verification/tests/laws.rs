use std::collections::{BTreeMap, BTreeSet};

use ktann::api::error::{Error, ErrorKind};
use ktann::api::identifiers::PartitionKey;
use ktann::api::number::{Distance, Float64};
use ktann::maintenance::descent::WriteDescent;
use ktann::maintenance::ranking::nearest_ready_candidate;
use ktann::maintenance::routing::{
    check_routings, drain_target, resolve_source, Descent, HopPlan, Incoming, NearestChild, Route,
};
use ktann::runtime::admission::{Control, Lifecycle, Phase};
use ktann::runtime::index::{prepare_delete_step, DropStep};
use ktann::topology::{
    Authority, Body, LevelCandidate, PartitionHeader, PartitionState, PartitionTransition,
};
use ktann::verify::by_key::ByKey;

fn ok<T>(result: Result<T, Error>) -> T {
    match result {
        Ok(value) => value,
        Err(error) => panic!("{}", error.describe()),
    }
}

fn kind_of<T>(result: Result<T, Error>) -> Option<ErrorKind> {
    result.err().map(|error| error.kind())
}

fn p(value: u64) -> PartitionKey {
    ok(PartitionKey::new(value))
}

fn d(value: f64) -> Distance {
    Distance::new(Float64 { bits: value.to_bits() }).expect("finite distance")
}

fn ready(level: u32, count: u32) -> Authority {
    let transition = PartitionTransition::Ready { started_at_unix_millis: 0 };
    let header = ok(PartitionHeader::new(level, count, 0, PartitionState::Ready));
    ok(Authority::new(header, transition))
}

const FREE: Control = Control { cancelled: false, deadline: None, now: 0 };

#[test]
fn a_shutdown_waits_for_the_admitted_and_releases_once() {
    let mut lifecycle = Lifecycle::new();
    assert!(lifecycle.enter(FREE).is_ok());
    assert!(lifecycle.enter(FREE).is_ok());
    let mut releases = 0;
    let start = lifecycle.begin_shutdown();
    assert!(start.started_closing);
    releases += usize::from(start.release);
    assert_eq!(kind_of(lifecycle.enter(FREE)), Some(ErrorKind::RuntimeClosed));
    releases += usize::from(lifecycle.finish_operation());
    assert_eq!((releases, lifecycle.phase), (0, Phase::Closing));
    releases += usize::from(lifecycle.begin_shutdown().release);
    releases += usize::from(lifecycle.finish_operation());
    assert_eq!((releases, lifecycle.phase), (1, Phase::Releasing));
    releases += usize::from(lifecycle.begin_shutdown().release);
    lifecycle.finish_release();
    releases += usize::from(lifecycle.begin_shutdown().release);
    assert_eq!((releases, lifecycle.phase), (1, Phase::Closed));
    assert_eq!(kind_of(lifecycle.enter(FREE)), Some(ErrorKind::RuntimeClosed));
}

/// Drops a range of keys in pages of two; the manifest's key is 3.
fn drop_in_pages(keys: &mut BTreeSet<u8>, mut name: bool) -> Vec<Vec<u8>> {
    let mut commits = Vec::new();
    let mut cursor: u8 = 0;
    while name {
        let rest: Vec<u8> = keys.iter().copied().filter(|key| *key >= cursor).collect();
        let page: Vec<u8> = rest.iter().copied().take(2).collect();
        let more = rest.len() > page.len();
        let is_manifest: Vec<bool> = page.iter().map(|key| *key == 3).collect();
        let next = page.last().map_or(cursor, |last| last + 1);
        match prepare_delete_step(false, &is_manifest, more) {
            DropStep::Advance => cursor = next,
            DropStep::Commit { clear_range, deletes, delete_manifest, complete } => {
                assert!(!clear_range);
                let mut gone: Vec<u8> = deletes.iter().map(|at| page[*at]).collect();
                if delete_manifest {
                    gone.push(3);
                }
                for key in &gone {
                    assert!(keys.remove(key));
                }
                commits.push(gone);
                cursor = next;
                name = !complete;
            }
        }
    }
    commits
}

#[test]
fn a_drop_removes_the_manifest_and_the_name_last() {
    let mut keys: BTreeSet<u8> = [1, 2, 3, 4, 5, 6].into_iter().collect();
    let commits = drop_in_pages(&mut keys, true);
    assert!(keys.is_empty());
    assert_eq!(commits.last(), Some(&vec![3]));
    assert_eq!(commits.concat().len(), 6);
    assert!(drop_in_pages(&mut keys, false).is_empty());
}

#[test]
fn routes_through_a_parent_end_below_the_root() {
    let mut descent = Descent::new(p(1));
    let leaf = ready(1, 4);
    assert_eq!(ok(descent.resolve(leaf)), HopPlan::Leaf(leaf.header));
    let at_root = descent.arrive(leaf.header);
    assert_eq!((at_root.leaf, at_root.parent), (p(1), None));
    let root = ready(2, 3);
    assert!(matches!(ok(descent.resolve(root)), HopPlan::Children { next_level: 1, .. }));
    let mut nearest = NearestChild::new();
    nearest.consider(d(1.0), p(5), p(1));
    ok(descent.follow(nearest, 1));
    let below = descent.arrive(leaf.header);
    assert_eq!((below.leaf, below.parent), (p(5), Some(p(1))));
    // The root is no child of itself: its level does not fit.
    let mut looped = Descent::new(p(1));
    let mut nearest = NearestChild::new();
    nearest.consider(d(1.0), p(1), p(1));
    ok(looped.follow(nearest, 1));
    assert_eq!(kind_of(looped.resolve(root)), Some(ErrorKind::Corruption));
}

#[test]
fn routings_need_a_beam_and_the_dimension() {
    assert_eq!(kind_of(check_routings(0, 2, &vec![2])), Some(ErrorKind::InvalidArgument));
    assert_eq!(kind_of(check_routings(0, 2, &vec![])), Some(ErrorKind::InvalidArgument));
    assert_eq!(kind_of(check_routings(1, 2, &vec![2, 3])), Some(ErrorKind::InvalidArgument));
    assert!(!ok(check_routings(1, 2, &vec![])));
    assert!(ok(check_routings(4, 2, &vec![2, 2])));
}

#[test]
fn waves_visit_their_groups_in_key_order() {
    let mut descent = WriteDescent::new(p(1), 2, 2);
    descent.begin_wave();
    let group = descent.next_group().expect("the root");
    let body = Body { partition: p(1), header: ready(2, 2).header };
    ok(descent.scan(group, &vec![body], 1));
    ok(descent.observe_entry(0, p(7), &vec![d(1.0), d(2.0)]));
    ok(descent.observe_entry(0, p(4), &vec![d(2.0), d(1.0)]));
    descent.finish_wave();
    descent.begin_wave();
    let first = descent.next_group().expect("a group");
    let second = descent.next_group().expect("another group");
    assert_eq!((first.key.partition, second.key.partition), (p(4), p(7)));
    assert!(descent.next_group().is_none());
}

#[test]
fn taking_a_key_frees_its_slot() {
    let mut table: ByKey<u32> = ByKey::new();
    table.insert(vec![2], 20);
    table.insert(vec![1], 10);
    table.insert(vec![3], 30);
    assert_eq!(table.take(&vec![2]), Some(20));
    assert_eq!(table.take(&vec![2]), None);
    assert_eq!(table.len(), 2);
    assert_eq!((table.slot(0).value, table.slot(1).value), (10, 30));
    table.insert(vec![2], 21);
    assert_eq!(table.get(&vec![2]), Some(&21));
    assert_eq!(table.take_at(0), 10);
    assert_eq!(table.len(), 2);
}

fn at(level: u32, transition: PartitionTransition) -> Authority {
    let header = ok(PartitionHeader::new(level, 1, 0, transition.state()));
    ok(Authority::new(header, transition))
}

/// A tree of three levels: internal partition 3 splits into 5 and 6, which are
/// still filling, 4 merges, leaf 20 drains into 30 and 31, and leaf 21 merges.
struct Tree {
    authorities: BTreeMap<u64, Authority>,
    children: BTreeMap<u64, Vec<u64>>,
}

fn tree() -> Tree {
    let started_at_unix_millis = 0;
    let stable = PartitionTransition::Ready { started_at_unix_millis };
    let merging = PartitionTransition::Merging { started_at_unix_millis };
    let receiving =
        |source: u64| PartitionTransition::ReceivingSplit { source: p(source), started_at_unix_millis };
    let splitting =
        PartitionTransition::Splitting { left: p(5), right: p(6), started_at_unix_millis };
    let draining =
        PartitionTransition::DrainingSplit { left: p(30), right: p(31), started_at_unix_millis };
    Tree {
        authorities: BTreeMap::from([
            (1, at(3, stable)),
            (2, at(2, stable)),
            (3, at(2, splitting)),
            (4, at(2, merging)),
            (5, at(2, receiving(3))),
            (6, at(2, receiving(3))),
            (10, at(1, stable)),
            (11, at(1, stable)),
            (20, at(1, draining)),
            (21, at(1, merging)),
            (30, at(1, receiving(20))),
            (31, at(1, receiving(20))),
        ]),
        children: BTreeMap::from([
            (1, vec![2, 3, 4, 5, 6]),
            (2, vec![10, 11]),
            (3, vec![20, 21, 30, 31]),
        ]),
    }
}

impl Tree {
    fn authority(&self, partition: PartitionKey) -> Authority {
        self.authorities[&partition.get()]
    }

    fn level(&self, level: u32) -> Vec<LevelCandidate> {
        self.children
            .iter()
            .flat_map(|(owner, children)| children.iter().map(move |child| (*owner, *child)))
            .map(|(owner, child)| LevelCandidate {
                partition: p(child),
                parent: p(owner),
                header: self.authorities[&child].header,
            })
            .filter(|candidate| candidate.header.level == level)
            .collect()
    }

    fn resolve(&self, root: PartitionKey, place: PartitionKey, level: Option<u32>) -> HopPlan {
        let authority = self.authority(place);
        let descent = Descent { root, partition: place, parent: None, expected_level: level };
        match ok(descent.resolve(authority)) {
            HopPlan::ReadSource { source } => ok(resolve_source(
                place,
                authority.header.level,
                source,
                self.authority(source),
            )),
            plan => plan,
        }
    }
}

/// How far a vector is from a partition's centroid.
fn far(vector: u64, partition: PartitionKey) -> Distance {
    d(((partition.get() * 37 + vector * 11) % 23) as f64)
}

fn target(tree: &Tree, partition: PartitionKey) -> ktann::maintenance::routing::DrainTarget {
    ok(drain_target(partition, true, Some(tree.authority(partition).header)))
}

/// Descends for one vector alone; returns its route and how many partitions it
/// visited.
fn descend_alone(tree: &Tree, vector: u64) -> (Route, usize) {
    let root = p(1);
    let mut descent = Descent::new(root);
    let mut visits = 0;
    loop {
        visits += 1;
        let place = descent.partition;
        match tree.resolve(root, place, descent.expected_level) {
            HopPlan::Leaf(header) => return (descent.arrive(header), visits),
            HopPlan::ReadDrainTargets { left, right } => {
                let route = descent.redirect(
                    target(tree, left),
                    far(vector, left),
                    target(tree, right),
                    far(vector, right),
                );
                return (route, visits);
            }
            HopPlan::ReadCandidates { level } => {
                let candidates = tree.level(level);
                let distances =
                    candidates.iter().map(|one| Some(far(vector, one.partition))).collect();
                let chosen = ok(nearest_ready_candidate(place, &candidates, &distances))
                    .map(|position| candidates[position]);
                if let Some(route) = ok(descent.reroute(level, chosen)) {
                    return (route, visits);
                }
            }
            HopPlan::Sideways { source } => descent.sideways(source),
            HopPlan::Children { body, next_level } => {
                let mut nearest = NearestChild::new();
                for child in &tree.children[&body.partition.get()] {
                    nearest.consider(far(vector, p(*child)), p(*child), body.partition);
                }
                ok(descent.follow(nearest, next_level));
            }
            plan => panic!("{plan:?}"),
        }
    }
}

/// Descends for vectors `0..batch` together.
fn descend_together(tree: &Tree, batch: u64, beam: u32) -> Vec<Route> {
    let root = p(1);
    let mut descent = WriteDescent::new(root, batch as usize, beam);
    while !descent.is_done() {
        if descent.expects_leaves() {
            let leaves: Vec<Authority> =
                descent.pending_partitions().into_iter().map(|leaf| tree.authority(leaf)).collect();
            if ok(descent.finish_leaf_wave(&leaves)) {
                continue;
            }
        }
        descent.begin_wave();
        while let Some(group) = descent.next_group() {
            let place = group.key.partition;
            let vectors: Vec<u64> = group.members.iter().map(|one| one.member as u64).collect();
            match tree.resolve(root, place, group.key.level) {
                HopPlan::Leaf(header) => descent.arrive(group, header),
                HopPlan::ReadDrainTargets { left, right } => {
                    let distances =
                        vectors.iter().map(|one| (far(*one, left), far(*one, right))).collect();
                    let (left, right) = (target(tree, left), target(tree, right));
                    descent.redirect(group, left, right, &distances);
                }
                HopPlan::ReadCandidates { level } => {
                    let candidates = tree.level(level);
                    let distances = vectors
                        .iter()
                        .map(|one| candidates.iter().map(|c| Some(far(*one, c.partition))).collect())
                        .collect();
                    assert!(ok(descent.reroute(group, level, &candidates, &distances)));
                }
                HopPlan::Sideways { source } => descent.sideways(group, source),
                HopPlan::Children { body, next_level } => {
                    ok(descent.scan(group, &vec![body], next_level));
                }
                plan => panic!("{plan:?}"),
            }
        }
        for body in 0..descent.bodies.len() {
            let owner = descent.bodies[body].partition;
            for child in &tree.children[&owner.get()] {
                let distances = descent.scan_members[descent.body_slots[body]]
                    .iter()
                    .map(|one| far(one.member as u64, p(*child)))
                    .collect();
                ok(descent.observe_entry(body, p(*child), &distances));
            }
        }
        descent.finish_wave();
    }
    ok(descent.into_routes())
}

#[test]
fn a_beam_of_one_agrees_with_single_descents() {
    let tree = tree();
    let together = descend_together(&tree, 23, 1);
    let alone: Vec<Route> = (0..23).map(|vector| descend_alone(&tree, vector).0).collect();
    assert_eq!(together, alone);
    let redirected = alone.iter().filter(|route| route.draining_source() == Some(p(20))).count();
    assert!(redirected > 0);
    let leaves: BTreeSet<u64> = alone.iter().map(|route| route.leaf.get()).collect();
    assert!(leaves.len() > 2);
}

#[test]
fn descents_visit_few_partitions_and_repeat() {
    let tree = tree();
    for vector in 0..23 {
        let (route, visits) = descend_alone(&tree, vector);
        assert!(visits <= 2 * 3 - 1);
        assert_eq!(descend_alone(&tree, vector), (route, visits));
    }
    assert!((0..23).any(|vector| descend_alone(&tree, vector).1 > 3));
}

#[test]
fn redirects_from_below_the_root_have_a_parent() {
    let tree = tree();
    for vector in 0..23 {
        let (route, _) = descend_alone(&tree, vector);
        assert!(route.parent.is_some());
        assert!(route.leaf != p(1));
    }
    let root = Descent::new(p(20));
    let plan = ok(root.resolve(tree.authority(p(20))));
    assert_eq!(plan, HopPlan::ReadDrainTargets { left: p(30), right: p(31) });
    let route = root.redirect(target(&tree, p(30)), d(2.0), target(&tree, p(31)), d(1.0));
    assert_eq!((route.leaf, route.parent), (p(31), None));
    assert_eq!(route.incoming, Incoming::SourceSlot(p(20)));
}

#[test]
fn a_wide_beam_ends_at_the_nearest_leaf_it_reached() {
    let mut descent = WriteDescent::new(p(1), 1, 2);
    descent.begin_wave();
    let group = descent.next_group().expect("the root");
    let body = Body { partition: p(1), header: ready(2, 3).header };
    ok(descent.scan(group, &vec![body], 1));
    ok(descent.observe_entry(0, p(7), &vec![d(1.0)]));
    ok(descent.observe_entry(0, p(6), &vec![d(1.0)]));
    ok(descent.observe_entry(0, p(5), &vec![d(3.0)]));
    descent.finish_wave();
    assert_eq!(descent.pending_partitions(), vec![p(6), p(7)]);
    assert!(ok(descent.finish_leaf_wave(&vec![ready(1, 4), ready(1, 4)])));
    let routes = ok(descent.into_routes());
    assert_eq!(routes[0].leaf, p(6));
}
