//! Descents over one snapshot: where one vector's descent goes, where it ends,
//! and what holds of every descent.
//!
//! A [`Snapshot`] is what the reads of one consistent version return, and a
//! [`Sight`] is how far one routing vector is from each centroid. Together
//! they fix a descent: each hop goes to the nearest child, each redirect to
//! the nearer target, and each reroute to the nearest `Ready` partition.

use vstd::prelude::*;

use crate::api::identifiers::{partition_key_of_view, PartitionKey};
use crate::api::number::Distance;
use crate::maintenance::ranking::{precedes, smaller_ranks_come_first, ChildCandidate};
use crate::maintenance::routing::{hop, level_fits, nearer_target, nearest_is_least, nearest_of, root_state_fits, source_hop, Descent, DrainTarget, HopPlan, Incoming, Route};
use crate::topology::{family, receiving_at, Authority, Body, LevelCandidate, PartitionHeader, PartitionState};

verus! {

broadcast use partition_key_of_view;

/// One snapshot of a tree, as its reads return it.
pub ghost struct Snapshot {
    /// The authority values of each partition.
    pub authorities: Map<PartitionKey, Authority>,
    /// The children that each partition's Child Entries name.
    pub children: Map<PartitionKey, Set<PartitionKey>>,
    /// The partitions of each level, as a merging partition of it sees them.
    pub levels: Map<u32, Set<LevelCandidate>>,
}

/// The distances of one routing vector.
pub ghost struct Sight {
    /// To the centroid in the Child Entry that an owner keeps of a child.
    pub entry: spec_fn(PartitionKey, PartitionKey) -> Distance,
    /// To the centroid of a split target.
    pub target: spec_fn(PartitionKey) -> Distance,
    /// To the centroid of a partition of a merging partition's level.
    pub candidate: spec_fn(PartitionKey) -> Distance,
}

impl Snapshot {
    /// The Header of a partition, if it exists.
    pub open spec fn header(self, partition: PartitionKey) -> Option<PartitionHeader> {
        if self.authorities.contains_key(partition) {
            Some(self.authorities[partition].header)
        } else {
            None
        }
    }

    /// Whether a Child Entry of one partition names another.
    pub open spec fn owns(self, owner: PartitionKey, child: PartitionKey) -> bool {
        self.children.contains_key(owner) && self.children[owner].contains(child)
    }

    /// Whether a partition of a level is seen there.
    pub open spec fn sees(self, level: u32, candidate: LevelCandidate) -> bool {
        self.levels.contains_key(level) && self.levels[level].contains(candidate)
    }

    /// Whether the snapshot is that of a tree: authority values are
    /// consistent, no child has two owners, and a level shows each of its
    /// partitions once, with its Header.
    pub open spec fn sound(self) -> bool {
        &&& forall|key: PartitionKey| #[trigger]
            self.authorities.contains_key(key) ==> self.authorities[key].consistent()
        &&& forall|first: PartitionKey, second: PartitionKey, child: PartitionKey|
            #![trigger self.owns(first, child), self.owns(second, child)]
            self.owns(first, child) && self.owns(second, child) ==> first == second
        &&& forall|level: u32, candidate: LevelCandidate| #[trigger]
            self.sees(level, candidate) ==> self.header(candidate.partition) == Some(
                candidate.header,
            ) && candidate.header.level == level
        &&& forall|level: u32, first: LevelCandidate, second: LevelCandidate|
            #![trigger self.sees(level, first), self.sees(level, second)]
            self.sees(level, first) && self.sees(level, second) && first.partition
                == second.partition ==> first == second
    }
}

/// The bodies whose Child Entries a plan descends across; `None` when it does
/// not descend, or the family it names contradicts the split.
pub open spec fn plan_bodies(snapshot: Snapshot, plan: HopPlan) -> Option<Seq<Body>> {
    match plan {
        HopPlan::Children { body, .. } => Some(seq![body]),
        HopPlan::ReadFamily { body, left, right, next_level } => {
            let level = (next_level + 1) as u32;
            if body.header.level == level && receiving_at(snapshot.header(left), level)
                && receiving_at(snapshot.header(right), level) {
                Some(
                    family(
                        body,
                        left,
                        snapshot.header(left)->0,
                        right,
                        snapshot.header(right)->0,
                    ),
                )
            } else {
                None
            }
        },
        _ => None,
    }
}

/// The level of the children a plan descends to.
pub open spec fn plan_level(plan: HopPlan) -> Option<u32> {
    match plan {
        HopPlan::Children { next_level, .. } => Some(next_level),
        HopPlan::ReadFamily { next_level, .. } => Some(next_level),
        _ => None,
    }
}

/// Whether some of the bodies belongs to a partition.
pub open spec fn among(bodies: Seq<Body>, owner: PartitionKey) -> bool {
    exists|i: int| 0 <= i < bodies.len() && (#[trigger] bodies[i]).partition == owner
}

/// Whether a candidate is a Child Entry of the bodies, as a vector sees it.
pub open spec fn entry_of(
    snapshot: Snapshot,
    sight: Sight,
    bodies: Seq<Body>,
    one: ChildCandidate,
) -> bool {
    &&& among(bodies, one.owner)
    &&& snapshot.owns(one.owner, one.child)
    &&& one.distance == (sight.entry)(one.owner, one.child)
}

/// Whether a candidate is the nearest child of the bodies.
pub open spec fn nearest_entry(
    snapshot: Snapshot,
    sight: Sight,
    bodies: Seq<Body>,
    best: ChildCandidate,
) -> bool {
    &&& entry_of(snapshot, sight, bodies, best)
    &&& forall|one: ChildCandidate| #[trigger]
        entry_of(snapshot, sight, bodies, one) ==> !precedes(
            one.distance,
            one.child,
            best.distance,
            best.child,
        )
}

/// Whether a candidate is the nearest `Ready` partition of a level other than
/// the merging source.
pub open spec fn nearest_ready(
    snapshot: Snapshot,
    sight: Sight,
    level: u32,
    source: PartitionKey,
    chosen: LevelCandidate,
) -> bool {
    &&& snapshot.sees(level, chosen)
    &&& chosen.legal_for(source)
    &&& forall|other: LevelCandidate| #[trigger]
        snapshot.sees(level, other) && other.legal_for(source) ==> !precedes(
            (sight.candidate)(other.partition),
            other.partition,
            (sight.candidate)(chosen.partition),
            chosen.partition,
        )
}

impl Descent {
    /// The plan for the visited partition in a snapshot, once its source was
    /// read where the plan asks for it; `None` when the visit is Corruption.
    pub open spec fn plan_in(self, snapshot: Snapshot) -> Option<HopPlan> {
        let authority = snapshot.authorities[self.partition];
        if snapshot.authorities.contains_key(self.partition) && level_fits(
            authority.header,
            self.expected_level,
        ) && root_state_fits(self.root, self.partition, authority.transition) {
            match hop(self.partition, authority) {
                HopPlan::ReadSource { source } => if snapshot.authorities.contains_key(source) {
                    source_hop(
                        self.partition,
                        authority.header.level,
                        source,
                        snapshot.authorities[source],
                    )
                } else {
                    None
                },
                plan => Some(plan),
            }
        } else {
            None
        }
    }

    /// The position after following a child.
    pub open spec fn followed(self, best: ChildCandidate, level: u32) -> Descent {
        Descent {
            root: self.root,
            partition: best.child,
            parent: Some(best.owner),
            expected_level: Some(level),
        }
    }

    /// The position after reselecting an internal partition.
    pub open spec fn reselected(self, chosen: LevelCandidate) -> Descent {
        Descent { partition: chosen.partition, parent: Some(chosen.parent), ..self }
    }

    /// Whether the descent goes on to `after`: to the nearest child one level
    /// below, to the source of a split target, or to the nearest `Ready`
    /// partition of a merging partition's level.
    pub open spec fn hops_to(self, snapshot: Snapshot, sight: Sight, after: Descent) -> bool {
        match self.plan_in(snapshot) {
            Some(HopPlan::Sideways { source }) => after == (Descent { partition: source, ..self }),
            Some(HopPlan::ReadCandidates { level }) => {
                &&& level != 1
                &&& exists|chosen: LevelCandidate|
                    {
                        &&& #[trigger] nearest_ready(
                            snapshot,
                            sight,
                            level,
                            self.partition,
                            chosen,
                        )
                        &&& after == self.reselected(chosen)
                    }
            },
            Some(plan) => {
                &&& plan_bodies(snapshot, plan) is Some
                &&& plan_level(plan) is Some
                &&& exists|best: ChildCandidate|
                    {
                        &&& #[trigger] nearest_entry(
                            snapshot,
                            sight,
                            plan_bodies(snapshot, plan)->0,
                            best,
                        )
                        &&& after == self.followed(best, plan_level(plan)->0)
                    }
            },
            None => false,
        }
    }

    /// The route that ends at a write-accepting visited leaf.
    pub open spec fn arrival(self, header: PartitionHeader) -> Route {
        Route {
            leaf: self.partition,
            leaf_header: header,
            parent: self.parent,
            incoming: Incoming::ParentEdge,
        }
    }

    /// The route that redirects around a visited draining leaf.
    pub open spec fn redirection(
        self,
        sight: Sight,
        left: DrainTarget,
        right: DrainTarget,
    ) -> Route {
        let target = nearer_target(
            left,
            (sight.target)(left.partition),
            right,
            (sight.target)(right.partition),
        );
        Route {
            leaf: target.partition,
            leaf_header: target.header,
            parent: self.parent,
            incoming: Incoming::SourceSlot(self.partition),
        }
    }

    /// Whether the descent ends with a route: at the visited leaf, at the
    /// nearer target of a draining leaf, or at the nearest `Ready` leaf when
    /// the visited one merges.
    pub open spec fn ends_at(self, snapshot: Snapshot, sight: Sight, route: Route) -> bool {
        match self.plan_in(snapshot) {
            Some(HopPlan::Leaf(header)) => route == self.arrival(header),
            Some(HopPlan::ReadDrainTargets { left, right }) => {
                &&& receiving_at(snapshot.header(left), 1)
                &&& receiving_at(snapshot.header(right), 1)
                &&& route == self.redirection(
                    sight,
                    DrainTarget { partition: left, header: snapshot.header(left)->0 },
                    DrainTarget { partition: right, header: snapshot.header(right)->0 },
                )
            },
            Some(HopPlan::ReadCandidates { level }) => {
                &&& level == 1
                &&& exists|chosen: LevelCandidate|
                    {
                        &&& #[trigger] nearest_ready(
                            snapshot,
                            sight,
                            level,
                            self.partition,
                            chosen,
                        )
                        &&& route == self.reselected(chosen).arrival(chosen.header)
                    }
            },
            _ => false,
        }
    }

    /// Whether the descent visits the root first, or a partition below it
    /// through an observed parent.
    pub open spec fn knows_its_parent(self, snapshot: Snapshot) -> bool {
        ||| self == first_visit(self.root)
        ||| {
            &&& self.parent is Some
            &&& snapshot.authorities.contains_key(self.root)
            &&& self.expected_level is Some
            &&& self.expected_level->0 < snapshot.authorities[self.root].header.level
        }
    }
}

/// The first position of every descent: about to visit the root.
pub open spec fn first_visit(root: PartitionKey) -> Descent {
    Descent { root, partition: root, parent: None, expected_level: None }
}

/// Whether visits are those of one descent from a root.
pub open spec fn is_descent(
    snapshot: Snapshot,
    sight: Sight,
    root: PartitionKey,
    visits: Seq<Descent>,
) -> bool {
    &&& visits.len() > 0
    &&& visits[0] == first_visit(root)
    &&& forall|i: int, j: int|
        0 <= i && j == i + 1 && j < visits.len() ==> (#[trigger] visits[i]).hops_to(
            snapshot,
            sight,
            #[trigger] visits[j],
        )
}

/// Whether a descent from a root ends with a route.
pub open spec fn routes_to(
    snapshot: Snapshot,
    sight: Sight,
    root: PartitionKey,
    visits: Seq<Descent>,
    route: Route,
) -> bool {
    is_descent(snapshot, sight, root, visits) && visits.last().ends_at(snapshot, sight, route)
}

/// The children considered in a scan of all the bodies, in whatever order,
/// have the nearest entry as their nearest.
pub proof fn scans_find_the_nearest_entry(
    snapshot: Snapshot,
    sight: Sight,
    bodies: Seq<Body>,
    considered: Seq<ChildCandidate>,
)
    requires
        forall|one: ChildCandidate|
            considered.contains(one) <==> #[trigger] entry_of(snapshot, sight, bodies, one),
    ensures
        nearest_of(considered) matches Some(best) ==> nearest_entry(snapshot, sight, bodies, best),
        nearest_of(considered) is None ==> forall|one: ChildCandidate| !#[trigger]
            entry_of(snapshot, sight, bodies, one),
{
    nearest_is_least(considered);
    if let Some(best) = nearest_of(considered) {
        assert(entry_of(snapshot, sight, bodies, best));
        assert forall|one: ChildCandidate| #[trigger]
            entry_of(snapshot, sight, bodies, one) implies !precedes(
            one.distance,
            one.child,
            best.distance,
            best.child,
        ) by {
            let i = choose|i: int| 0 <= i < considered.len() && considered[i] == one;
            assert(considered[i] == one);
        }
    } else {
        assert forall|one: ChildCandidate| !#[trigger]
            entry_of(snapshot, sight, bodies, one) by {
            if entry_of(snapshot, sight, bodies, one) {
                assert(considered.contains(one));
            }
        }
    }
}

/// Every visit but the first is below the root's level and through an observed
/// parent.
pub proof fn visits_know_their_parent(
    snapshot: Snapshot,
    sight: Sight,
    root: PartitionKey,
    visits: Seq<Descent>,
    at: int,
)
    requires
        snapshot.sound(),
        is_descent(snapshot, sight, root, visits),
        0 <= at < visits.len(),
    ensures
        visits[at].root == root,
        visits[at].knows_its_parent(snapshot),
    decreases at,
{
    if at > 0 {
        visits_know_their_parent(snapshot, sight, root, visits, at - 1);
        let before = visits[at - 1];
        assert(before.hops_to(snapshot, sight, visits[at]));
        assert(snapshot.authorities.contains_key(before.partition));
        assert(snapshot.authorities[before.partition].consistent());
    }
}

/// A route that was not redirected has no observed parent exactly when its
/// leaf is the root. A redirected route never ends at the root; it has no
/// observed parent exactly when it redirects around the root.
pub proof fn only_root_routes_have_no_parent(
    snapshot: Snapshot,
    sight: Sight,
    root: PartitionKey,
    visits: Seq<Descent>,
    route: Route,
)
    requires
        snapshot.sound(),
        routes_to(snapshot, sight, root, visits, route),
    ensures
        match route.incoming {
            Incoming::ParentEdge => route.parent is None <==> route.leaf == root,
            Incoming::SourceSlot(source) => {
                &&& route.leaf != root
                &&& route.parent is None <==> source == root
            },
        },
{
    visits_know_their_parent(snapshot, sight, root, visits, visits.len() - 1);
    let last = visits.last();
    assert(snapshot.authorities.contains_key(last.partition));
    assert(snapshot.authorities[last.partition].consistent());
    if visits.len() > 1 {
        assert(visits[0].hops_to(snapshot, sight, visits[1]));
    }
    assert(visits[0].plan_in(snapshot) is Some);
    assert(snapshot.authorities[root].consistent());
}

/// How many visits a resolved position may still take: two for each level
/// down to the leaves, and one less once the visited partition descends.
spec fn visits_left(snapshot: Snapshot, visit: Descent) -> int {
    let level = snapshot.authorities[visit.partition].header.level as int;
    match visit.plan_in(snapshot) {
        Some(HopPlan::Sideways { .. }) => 2 * level,
        Some(HopPlan::ReadCandidates { .. }) => 2 * level,
        _ => 2 * level - 1,
    }
}

proof fn visits_run_out(
    snapshot: Snapshot,
    sight: Sight,
    root: PartitionKey,
    visits: Seq<Descent>,
    at: int,
)
    requires
        snapshot.sound(),
        snapshot.authorities.contains_key(root),
        is_descent(snapshot, sight, root, visits),
        0 <= at < visits.len(),
        at < visits.len() - 1 || visits[at].plan_in(snapshot) is Some,
    ensures
        visits[at].plan_in(snapshot) is Some,
        visits_left(snapshot, visits[at]) + at <= 2
            * snapshot.authorities[root].header.level - 1,
    decreases at,
{
    if at < visits.len() - 1 {
        assert(visits[at].hops_to(snapshot, sight, visits[at + 1]));
    }
    let here = visits[at];
    assert(snapshot.authorities[here.partition].consistent());
    if at > 0 {
        visits_run_out(snapshot, sight, root, visits, at - 1);
        visits_know_their_parent(snapshot, sight, root, visits, at - 1);
        let before = visits[at - 1];
        assert(before.hops_to(snapshot, sight, here));
        assert(snapshot.authorities[before.partition].consistent());
    }
}

/// A descent visits at most two partitions per level of the tree, and only one
/// at the root's.
pub proof fn descents_are_bounded_by_the_root_level(
    snapshot: Snapshot,
    sight: Sight,
    root: PartitionKey,
    visits: Seq<Descent>,
)
    requires
        snapshot.sound(),
        snapshot.authorities.contains_key(root),
        is_descent(snapshot, sight, root, visits),
    ensures
        visits.len() <= 2 * snapshot.authorities[root].header.level - 1,
{
    assert(snapshot.authorities[root].consistent());
    if visits.len() > 1 {
        let at = visits.len() - 2;
        visits_run_out(snapshot, sight, root, visits, at);
        let before = visits[at];
        assert(before.hops_to(snapshot, sight, visits[at + 1]));
        assert(snapshot.authorities[before.partition].consistent());
    }
}

proof fn nearest_entry_is_unique(
    snapshot: Snapshot,
    sight: Sight,
    bodies: Seq<Body>,
    first: ChildCandidate,
    second: ChildCandidate,
)
    requires
        snapshot.sound(),
        nearest_entry(snapshot, sight, bodies, first),
        nearest_entry(snapshot, sight, bodies, second),
    ensures
        first == second,
{
    assert(PartitionKey::of(first.child@) == first.child);
    assert(PartitionKey::of(second.child@) == second.child);
    assert(first.child == second.child);
    assert(snapshot.owns(first.owner, first.child));
    assert(snapshot.owns(second.owner, second.child));
}

proof fn nearest_ready_is_unique(
    snapshot: Snapshot,
    sight: Sight,
    level: u32,
    source: PartitionKey,
    first: LevelCandidate,
    second: LevelCandidate,
)
    requires
        snapshot.sound(),
        nearest_ready(snapshot, sight, level, source, first),
        nearest_ready(snapshot, sight, level, source, second),
    ensures
        first == second,
{
    assert(PartitionKey::of(first.partition@) == first.partition);
    assert(PartitionKey::of(second.partition@) == second.partition);
    assert(snapshot.sees(level, first) && snapshot.sees(level, second));
}

/// A position has at most one next position or end, and never both.
pub proof fn hops_are_determined(
    snapshot: Snapshot,
    sight: Sight,
    visit: Descent,
    after: Descent,
    other: Descent,
    route: Route,
    other_route: Route,
)
    requires
        snapshot.sound(),
    ensures
        visit.hops_to(snapshot, sight, after) && visit.hops_to(snapshot, sight, other) ==> after
            == other,
        visit.ends_at(snapshot, sight, route) && visit.ends_at(snapshot, sight, other_route)
            ==> route == other_route,
        !(visit.hops_to(snapshot, sight, after) && visit.ends_at(snapshot, sight, route)),
{
    let plan = visit.plan_in(snapshot);
    if visit.hops_to(snapshot, sight, after) && visit.hops_to(snapshot, sight, other) {
        match plan {
            Some(HopPlan::Sideways { .. }) => {},
            Some(HopPlan::ReadCandidates { level }) => {
                let first = choose|chosen: LevelCandidate| #[trigger]
                    nearest_ready(snapshot, sight, level, visit.partition, chosen) && after
                        == visit.reselected(chosen);
                let second = choose|chosen: LevelCandidate| #[trigger]
                    nearest_ready(snapshot, sight, level, visit.partition, chosen) && other
                        == visit.reselected(chosen);
                nearest_ready_is_unique(snapshot, sight, level, visit.partition, first, second);
            },
            Some(plan) => {
                let bodies = plan_bodies(snapshot, plan)->0;
                let level = plan_level(plan)->0;
                let first = choose|best: ChildCandidate| #[trigger]
                    nearest_entry(snapshot, sight, bodies, best) && after == visit.followed(
                        best,
                        level,
                    );
                let second = choose|best: ChildCandidate| #[trigger]
                    nearest_entry(snapshot, sight, bodies, best) && other == visit.followed(
                        best,
                        level,
                    );
                nearest_entry_is_unique(snapshot, sight, bodies, first, second);
            },
            None => {},
        }
    }
    if visit.ends_at(snapshot, sight, route) && visit.ends_at(snapshot, sight, other_route) {
        if let Some(HopPlan::ReadCandidates { level }) = plan {
            let first = choose|chosen: LevelCandidate| #[trigger]
                nearest_ready(snapshot, sight, level, visit.partition, chosen) && route
                    == visit.reselected(chosen).arrival(chosen.header);
            let second = choose|chosen: LevelCandidate| #[trigger]
                nearest_ready(snapshot, sight, level, visit.partition, chosen) && other_route
                    == visit.reselected(chosen).arrival(chosen.header);
            nearest_ready_is_unique(snapshot, sight, level, visit.partition, first, second);
        }
    }
}

/// Two descents of one snapshot agree on each visit that both make.
pub proof fn visits_agree(
    snapshot: Snapshot,
    sight: Sight,
    root: PartitionKey,
    visits: Seq<Descent>,
    others: Seq<Descent>,
    at: int,
)
    requires
        snapshot.sound(),
        is_descent(snapshot, sight, root, visits),
        is_descent(snapshot, sight, root, others),
        0 <= at < visits.len(),
        at < others.len(),
    ensures
        visits[at] == others[at],
    decreases at,
{
    if at > 0 {
        visits_agree(snapshot, sight, root, visits, others, at - 1);
        assert(visits[at - 1].hops_to(snapshot, sight, visits[at]));
        assert(others[at - 1].hops_to(snapshot, sight, others[at]));
        hops_are_determined(
            snapshot,
            sight,
            visits[at - 1],
            visits[at],
            others[at],
            arbitrary(),
            arbitrary(),
        );
    }
}

/// A descent is a function of the snapshot and the vector: two of them visit
/// the same partitions and end with the same route.
pub proof fn descents_of_one_snapshot_agree(
    snapshot: Snapshot,
    sight: Sight,
    root: PartitionKey,
    visits: Seq<Descent>,
    route: Route,
    others: Seq<Descent>,
    other_route: Route,
)
    requires
        snapshot.sound(),
        routes_to(snapshot, sight, root, visits, route),
        routes_to(snapshot, sight, root, others, other_route),
    ensures
        visits == others,
        route == other_route,
{
    let shorter = if visits.len() <= others.len() {
        visits.len()
    } else {
        others.len()
    };
    assert forall|i: int| 0 <= i < shorter implies visits[i] == others[i] by {
        visits_agree(snapshot, sight, root, visits, others, i);
    }
    if visits.len() < others.len() {
        let at = visits.len() - 1;
        assert(others[at].hops_to(snapshot, sight, others[at + 1]));
        hops_are_determined(
            snapshot,
            sight,
            visits[at],
            others[at + 1],
            others[at + 1],
            route,
            route,
        );
    } else if others.len() < visits.len() {
        let at = others.len() - 1;
        assert(visits[at].hops_to(snapshot, sight, visits[at + 1]));
        hops_are_determined(
            snapshot,
            sight,
            visits[at],
            visits[at + 1],
            visits[at + 1],
            other_route,
            other_route,
        );
    } else {
        hops_are_determined(
            snapshot,
            sight,
            visits.last(),
            visits.last(),
            visits.last(),
            route,
            other_route,
        );
    }
    assert(visits =~= others);
}

/// From a partition at rest above the leaves a descent goes to one of its own
/// children, one level below, and to none of them that ranks behind another.
pub proof fn hops_go_to_a_child_of_least_rank(
    snapshot: Snapshot,
    sight: Sight,
    visit: Descent,
    after: Descent,
    other: PartitionKey,
)
    requires
        visit.hops_to(snapshot, sight, after),
        snapshot.authorities.contains_key(visit.partition),
        snapshot.authorities[visit.partition].transition is Ready,
        snapshot.authorities[visit.partition].header.state == PartitionState::Ready,
        snapshot.authorities[visit.partition].header.level > 1,
    ensures
        after.root == visit.root,
        after.parent == Some(visit.partition),
        after.expected_level is Some,
        after.expected_level->0 + 1 == snapshot.authorities[visit.partition].header.level,
        snapshot.children.contains_key(visit.partition),
        snapshot.children[visit.partition].contains(after.partition),
        snapshot.children[visit.partition].contains(other) ==> (sight.entry)(
            visit.partition,
            after.partition,
        ).rank <= (sight.entry)(visit.partition, other).rank,
{
    let plan = visit.plan_in(snapshot)->0;
    let bodies = plan_bodies(snapshot, plan)->0;
    let best = choose|best: ChildCandidate| #[trigger]
        nearest_entry(snapshot, sight, bodies, best) && after == visit.followed(
            best,
            plan_level(plan)->0,
        );
    assert(bodies =~= seq![
        Body { partition: visit.partition, header: snapshot.authorities[visit.partition].header },
    ]);
    assert(best.owner == visit.partition);
    if snapshot.owns(visit.partition, other) {
        let one = ChildCandidate {
            owner: visit.partition,
            child: other,
            distance: (sight.entry)(visit.partition, other),
        };
        assert(bodies[0].partition == visit.partition);
        assert(among(bodies, one.owner));
        assert(entry_of(snapshot, sight, bodies, one));
        smaller_ranks_come_first(one.child, one.distance, best.child, best.distance);
    }
}

/// A descent ends at a leaf that takes writes: at the visited one unless it
/// drains or merges.
pub proof fn routes_end_at_leaves_that_take_writes(
    snapshot: Snapshot,
    sight: Sight,
    visit: Descent,
    route: Route,
)
    requires
        snapshot.sound(),
        visit.ends_at(snapshot, sight, route),
    ensures
        snapshot.authorities.contains_key(route.leaf),
        route.leaf_header == snapshot.authorities[route.leaf].header,
        route.leaf_header.level == 1,
        route.leaf_header.state == PartitionState::Ready || route.leaf_header.state
            == PartitionState::Splitting || route.leaf_header.state
            == PartitionState::ReceivingSplit,
        route.incoming == Incoming::ParentEdge && route.leaf == visit.partition
            ==> !(snapshot.authorities[visit.partition].transition is Merging),
        snapshot.authorities[visit.partition].transition is Ready ==> route.leaf == visit.partition
            && route.parent == visit.parent,
{
    assert(snapshot.authorities[visit.partition].consistent());
    match visit.plan_in(snapshot) {
        Some(HopPlan::ReadCandidates { level }) => {
            let chosen = choose|chosen: LevelCandidate| #[trigger]
                nearest_ready(snapshot, sight, level, visit.partition, chosen) && route
                    == visit.reselected(chosen).arrival(chosen.header);
            assert(snapshot.sees(level, chosen));
        },
        _ => {},
    }
}

/// Around a merging leaf a descent ends at another leaf at rest, and at none
/// that ranks behind another.
pub proof fn reroutes_end_at_the_least_rank(
    snapshot: Snapshot,
    sight: Sight,
    visit: Descent,
    route: Route,
    other: LevelCandidate,
)
    requires
        snapshot.sound(),
        visit.ends_at(snapshot, sight, route),
        snapshot.authorities[visit.partition].transition is Merging,
        snapshot.levels.contains_key(1),
        snapshot.levels[1].contains(other),
        other.header.state == PartitionState::Ready,
        other.partition != visit.partition,
    ensures
        route.leaf != visit.partition,
        route.leaf_header.state == PartitionState::Ready,
        (sight.candidate)(route.leaf).rank <= (sight.candidate)(other.partition).rank,
{
    assert(snapshot.authorities[visit.partition].consistent());
    let level = 1u32;
    assert(visit.plan_in(snapshot) == Some(HopPlan::ReadCandidates { level }));
    let chosen = choose|chosen: LevelCandidate| #[trigger]
        nearest_ready(snapshot, sight, level, visit.partition, chosen) && route
            == visit.reselected(chosen).arrival(chosen.header);
    assert(snapshot.sees(level, other));
    smaller_ranks_come_first(
        other.partition,
        (sight.candidate)(other.partition),
        chosen.partition,
        (sight.candidate)(chosen.partition),
    );
}

/// Around a draining leaf a descent ends at the target of the smaller rank, and
/// remembers the leaf it left.
pub proof fn redirects_end_at_the_nearer_target(
    snapshot: Snapshot,
    sight: Sight,
    visit: Descent,
    route: Route,
)
    requires
        snapshot.sound(),
        visit.ends_at(snapshot, sight, route),
        snapshot.authorities[visit.partition].transition is DrainingSplit,
    ensures
        ({
            let transition = snapshot.authorities[visit.partition].transition;
            let left = transition->DrainingSplit_left;
            let right = transition->DrainingSplit_right;
            &&& route.leaf == left || route.leaf == right
            &&& (sight.target)(route.leaf).rank <= (sight.target)(left).rank
            &&& (sight.target)(route.leaf).rank <= (sight.target)(right).rank
            &&& route.incoming == Incoming::SourceSlot(visit.partition)
            &&& route.parent == visit.parent
        }),
{
    assert(snapshot.authorities[visit.partition].consistent());
    let transition = snapshot.authorities[visit.partition].transition;
    let left = transition->DrainingSplit_left;
    let right = transition->DrainingSplit_right;
    smaller_ranks_come_first(right, (sight.target)(right), left, (sight.target)(left));
    smaller_ranks_come_first(left, (sight.target)(left), right, (sight.target)(right));
}

} // verus!
