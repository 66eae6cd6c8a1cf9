//! The grouped and the single descent agree: with a beam of one, every vector
//! of a batch ends at the leaf that its own descent ends at.
//!
//! A [`Stage`] is a batch's position with the group in hand, and a run is a
//! sequence of stages that follow each other by the steps of a
//! [`WriteDescent`], each fed with what one snapshot holds.

use vstd::prelude::*;

use crate::api::identifiers::{partition_key_of_view, PartitionKey};
use crate::api::number::Distance;
use crate::maintenance::descent::{arrivals, arrived, best_is_least, best_of, drained, entry_observed, group_arrivals, group_taken, is_reroute, leaf_legal, leaf_reroutes, leaves_arrived, leaves_refused, moved_sideways, observed, positions_fit, redirected, redirects, rerouted, rerouted_leaf, scanning, spread, spread_all, started, wave_begun, wave_finished, wave_reroutes, RankedRoute, Reroute, WriteDescent};
use crate::maintenance::ranking::{beam_retains_the_nearest, before_is_total, halving_bottoms_out, nearest_legal, precedes, retained, ChildCandidate};
use crate::maintenance::routing::{Descent, DrainTarget, HopPlan, Incoming, Route};
use crate::maintenance::snapshot::{among, descents_of_one_snapshot_agree, entry_of, first_visit, is_descent, nearest_entry, nearest_ready, plan_bodies, plan_level, routes_to, visits_know_their_parent, Sight, Snapshot};
use crate::maintenance::waiting::{waiting_at, Group, Member, WaveKey};
use crate::topology::{receiving_at, Authority, Body, LevelCandidate, PartitionHeader};

verus! {

broadcast use partition_key_of_view;

/// A batch's position with the group that is being resolved.
pub ghost struct Stage {
    /// The position.
    pub descent: WriteDescent,
    /// The group in hand.
    pub held: Option<Group>,
}

/// The single descent's position of a member waiting at a place.
pub open spec fn position(root: PartitionKey, key: WaveKey, one: Member) -> Descent {
    Descent { root, partition: key.partition, parent: one.parent, expected_level: key.level }
}

/// The plan for the members waiting at a place.
pub open spec fn group_plan(
    snapshot: Snapshot,
    root: PartitionKey,
    key: WaveKey,
) -> Option<HopPlan> {
    (Descent { root, partition: key.partition, parent: None, expected_level: key.level }).plan_in(
        snapshot,
    )
}

/// Whether a drain target is what a snapshot holds.
pub open spec fn target_in(
    snapshot: Snapshot,
    partition: PartitionKey,
    target: DrainTarget,
) -> bool {
    target.partition == partition && snapshot.header(partition) == Some(target.header)
        && receiving_at(snapshot.header(partition), 1)
}

/// Whether candidates are the partitions a snapshot shows of a level, and
/// distances those of each member to them.
pub open spec fn level_read(
    snapshot: Snapshot,
    sights: Seq<Sight>,
    level: u32,
    members: Seq<Member>,
    candidates: Seq<LevelCandidate>,
    distances: Seq<Vec<Option<Distance>>>,
) -> bool {
    &&& forall|c: LevelCandidate| candidates.contains(c) <==> #[trigger] snapshot.sees(level, c)
    &&& distances.len() == members.len()
    &&& forall|i: int, j: int|
        0 <= i < members.len() && 0 <= j < candidates.len() ==> #[trigger] distances[i]@[j]
            == Some((sights[members[i].member as int].candidate)(candidates[j].partition))
}

/// The members that wait for a body.
pub open spec fn waiters(descent: WriteDescent, body: int) -> Seq<Member> {
    descent.scan_members@[descent.body_slots@[body] as int]@
}

/// Whether every Child Entry of every body in the wave was considered by every
/// member waiting for the body.
pub open spec fn scanned_through(
    snapshot: Snapshot,
    sights: Seq<Sight>,
    descent: WriteDescent,
) -> bool {
    forall|body: int, at: int, child: PartitionKey|
        0 <= body < descent.bodies@.len() && 0 <= at < waiters(descent, body).len()
            && #[trigger] snapshot.owns(descent.bodies@[body].partition, child)
            ==> descent.considered@[(#[trigger] waiters(descent, body)[at]).member as int].contains(
            ChildCandidate {
                distance: (sights[waiters(descent, body)[at].member as int].entry)(
                    descent.bodies@[body].partition,
                    child,
                ),
                child,
                owner: descent.bodies@[body].partition,
            },
        )
}

/// Whether authorities are those a snapshot holds of the partitions with
/// waiting members, in visiting order.
pub open spec fn leaves_read(
    snapshot: Snapshot,
    descent: WriteDescent,
    authorities: Seq<Authority>,
) -> bool {
    let groups = descent.pending.ordered();
    &&& authorities.len() == groups.len()
    &&& forall|i: int|
        0 <= i < groups.len() ==> snapshot.authorities.contains_key(
            (#[trigger] groups[i]).key.partition,
        ) && authorities[i] == snapshot.authorities[groups[i].key.partition]
}

impl Stage {
    /// Whether the waiting members all arrived at write-accepting leaves.
    pub open spec fn finishes_leaves(self, snapshot: Snapshot, after: Stage) -> bool {
        &&& self.held is None && after.held is None
        &&& forall|key: WaveKey| #[trigger]
            self.descent.pending@.dom().contains(key) ==> key.level == Some(1u32)
        &&& exists|authorities: Seq<Authority>| #[trigger]
            leaves_read(snapshot, self.descent, authorities) && (leaves_arrived(
                self.descent,
                after.descent,
                authorities,
            ) || leaves_refused(self.descent, after.descent, authorities))
    }

    /// Whether a wave began or ended, or its next group was taken.
    pub open spec fn turns(self, snapshot: Snapshot, sights: Seq<Sight>, after: Stage) -> bool {
        &&& self.held is None
        &&& match after.held {
            Some(group) => group_taken(self.descent, after.descent, group),
            None => {
                ||| wave_begun(self.descent, after.descent) && self.descent.pending.ordered().len()
                    > 0 && self.descent.child_level is None
                ||| wave_finished(self.descent, after.descent) && scanned_through(
                    snapshot,
                    sights,
                    self.descent,
                )
            },
        }
    }

    /// Whether the group in hand was resolved as the snapshot says.
    pub open spec fn resolves(self, snapshot: Snapshot, sights: Seq<Sight>, after: Stage) -> bool {
        let group = self.held->0;
        let before = self.descent;
        &&& self.held is Some && after.held is None
        &&& match group_plan(snapshot, before.root, group.key) {
            Some(HopPlan::Leaf(header)) => arrived(before, after.descent, group, header),
            Some(HopPlan::ReadDrainTargets { left, right }) => exists|
                first: DrainTarget,
                second: DrainTarget,
                distances: Seq<(Distance, Distance)>,
            |
                {
                    &&& #[trigger] drained(
                        before,
                        after.descent,
                        group,
                        first,
                        second,
                        distances,
                    )
                    &&& target_in(snapshot, left, first)
                    &&& target_in(snapshot, right, second)
                    &&& distances.len() == group.members@.len()
                    &&& forall|i: int|
                        0 <= i < distances.len() ==> {
                            let sight = sights[group.members@[i].member as int];
                            #[trigger] distances[i] == ((sight.target)(left), (sight.target)(right))
                        }
                },
            Some(HopPlan::ReadCandidates { level }) => exists|
                candidates: Seq<LevelCandidate>,
                distances: Seq<Vec<Option<Distance>>>,
                chosen: Seq<Reroute>,
            |
                {
                    &&& #[trigger] rerouted(
                        before,
                        after.descent,
                        group,
                        level,
                        candidates,
                        distances,
                        chosen,
                    )
                    &&& level_read(
                        snapshot,
                        sights,
                        level,
                        group.members@,
                        candidates,
                        distances,
                    )
                },
            Some(HopPlan::Sideways { source }) => moved_sideways(
                before,
                after.descent,
                group,
                source,
            ),
            Some(plan) => {
                &&& plan_bodies(snapshot, plan) is Some
                &&& plan_level(plan) is Some
                &&& scanning(
                    before,
                    after.descent,
                    group,
                    plan_bodies(snapshot, plan)->0,
                    plan_level(plan)->0,
                )
            },
            None => false,
        }
    }

    /// Whether one scanned Child Entry was observed.
    pub open spec fn observes(self, snapshot: Snapshot, sights: Seq<Sight>, after: Stage) -> bool {
        &&& self.held is None && after.held is None
        &&& exists|body: int, child: PartitionKey, distances: Seq<Distance>|
            {
                let owner = self.descent.bodies@[body].partition;
                let members = waiters(self.descent, body);
                &&& #[trigger] entry_observed(
                    self.descent,
                    after.descent,
                    body,
                    child,
                    distances,
                )
                &&& 0 <= body < self.descent.bodies@.len()
                &&& snapshot.owns(owner, child)
                &&& distances.len() == members.len()
                &&& forall|i: int|
                    0 <= i < distances.len() ==> #[trigger] distances[i] == (
                    sights[members[i].member as int].entry)(owner, child)
            }
    }

    /// Whether one step of a run leads to `after`.
    pub open spec fn advances(self, snapshot: Snapshot, sights: Seq<Sight>, after: Stage) -> bool {
        ||| self.finishes_leaves(snapshot, after)
        ||| self.turns(snapshot, sights, after)
        ||| self.resolves(snapshot, sights, after)
        ||| self.observes(snapshot, sights, after)
    }
}

/// Whether a position is one that a vector's own descent visits.
pub open spec fn on_path(
    snapshot: Snapshot,
    sight: Sight,
    root: PartitionKey,
    visit: Descent,
) -> bool {
    exists|visits: Seq<Descent>| #[trigger]
        is_descent(snapshot, sight, root, visits) && visits.last() == visit
}

/// Whether a vector's own descent ends with a route.
pub open spec fn ends_with(
    snapshot: Snapshot,
    sight: Sight,
    root: PartitionKey,
    route: Route,
) -> bool {
    exists|visits: Seq<Descent>| #[trigger] routes_to(snapshot, sight, root, visits, route)
}

proof fn hops_stay_on_path(
    snapshot: Snapshot,
    sight: Sight,
    root: PartitionKey,
    visit: Descent,
    after: Descent,
)
    requires
        on_path(snapshot, sight, root, visit),
        visit.hops_to(snapshot, sight, after),
    ensures
        on_path(snapshot, sight, root, after),
{
    let visits = choose|visits: Seq<Descent>| #[trigger]
        is_descent(snapshot, sight, root, visits) && visits.last() == visit;
    let longer = visits.push(after);
    assert forall|i: int, j: int| 0 <= i && j == i + 1 && j < longer.len() implies (
    #[trigger] longer[i]).hops_to(snapshot, sight, #[trigger] longer[j]) by {
        if j < visits.len() {
            assert(visits[i].hops_to(snapshot, sight, visits[j]));
        }
    }
    assert(longer[0] == visits[0]);
    assert(is_descent(snapshot, sight, root, longer));
    assert(longer.last() == after);
}

proof fn path_ends(
    snapshot: Snapshot,
    sight: Sight,
    root: PartitionKey,
    visit: Descent,
    route: Route,
)
    requires
        on_path(snapshot, sight, root, visit),
        visit.ends_at(snapshot, sight, route),
    ensures
        ends_with(snapshot, sight, root, route),
{
    let visits = choose|visits: Seq<Descent>| #[trigger]
        is_descent(snapshot, sight, root, visits) && visits.last() == visit;
    assert(routes_to(snapshot, sight, root, visits, route));
}

/// Whether something holds of every terminal leaf reached.
spec fn all_reached(
    reached: Seq<Seq<RankedRoute>>,
    holds: spec_fn(int, RankedRoute) -> bool,
) -> bool {
    forall|m: int, i: int|
        0 <= m < reached.len() && 0 <= i < reached[m].len() ==> holds(
            m,
            #[trigger] reached[m][i],
        )
}

proof fn arrivals_keep(
    reached: Seq<Seq<RankedRoute>>,
    members: Seq<Member>,
    n: nat,
    leaf: PartitionKey,
    header: PartitionHeader,
    holds: spec_fn(int, RankedRoute) -> bool,
)
    requires
        all_reached(reached, holds),
        positions_fit(members, reached.len()),
        n <= members.len(),
        forall|i: int|
            0 <= i < n ==> holds(
                (#[trigger] members[i]).member as int,
                RankedRoute {
                    distance: members[i].distance,
                    route: Route {
                        leaf,
                        leaf_header: header,
                        parent: members[i].parent,
                        incoming: Incoming::ParentEdge,
                    },
                },
            ),
    ensures
        all_reached(arrivals(reached, members, n, leaf, header), holds),
        arrivals(reached, members, n, leaf, header).len() == reached.len(),
    decreases n,
{
    if n > 0 {
        arrivals_keep(reached, members, (n - 1) as nat, leaf, header, holds);
        assert(members[n - 1].member < reached.len());
    }
}

proof fn redirects_keep(
    reached: Seq<Seq<RankedRoute>>,
    members: Seq<Member>,
    distances: Seq<(Distance, Distance)>,
    n: nat,
    source: PartitionKey,
    left: DrainTarget,
    right: DrainTarget,
    holds: spec_fn(int, RankedRoute) -> bool,
)
    requires
        all_reached(reached, holds),
        positions_fit(members, reached.len()),
        n <= members.len(),
        forall|i: int|
            0 <= i < n ==> holds(
                (#[trigger] members[i]).member as int,
                redirected(members[i], distances[i], source, left, right),
            ),
    ensures
        all_reached(redirects(reached, members, distances, n, source, left, right), holds),
        redirects(reached, members, distances, n, source, left, right).len() == reached.len(),
    decreases n,
{
    if n > 0 {
        redirects_keep(
            reached,
            members,
            distances,
            (n - 1) as nat,
            source,
            left,
            right,
            holds,
        );
        assert(members[n - 1].member < reached.len());
    }
}

proof fn leaf_reroutes_keep(
    reached: Seq<Seq<RankedRoute>>,
    members: Seq<Member>,
    chosen: Seq<Reroute>,
    n: nat,
    holds: spec_fn(int, RankedRoute) -> bool,
)
    requires
        all_reached(reached, holds),
        positions_fit(members, reached.len()),
        n <= members.len(),
        forall|i: int|
            0 <= i < n ==> holds(
                (#[trigger] members[i]).member as int,
                rerouted_leaf(chosen[i]),
            ),
    ensures
        all_reached(leaf_reroutes(reached, members, chosen, n), holds),
        leaf_reroutes(reached, members, chosen, n).len() == reached.len(),
    decreases n,
{
    if n > 0 {
        leaf_reroutes_keep(reached, members, chosen, (n - 1) as nat, holds);
        assert(members[n - 1].member < reached.len());
    }
}

/// Whether something holds of every child considered.
spec fn all_considered(
    considered: Seq<Seq<ChildCandidate>>,
    holds: spec_fn(int, ChildCandidate) -> bool,
) -> bool {
    forall|m: int, i: int|
        0 <= m < considered.len() && 0 <= i < considered[m].len() ==> holds(
            m,
            #[trigger] considered[m][i],
        )
}

proof fn observed_keep(
    considered: Seq<Seq<ChildCandidate>>,
    members: Seq<Member>,
    distances: Seq<Distance>,
    n: nat,
    child: PartitionKey,
    owner: PartitionKey,
    holds: spec_fn(int, ChildCandidate) -> bool,
)
    requires
        all_considered(considered, holds),
        positions_fit(members, considered.len()),
        n <= members.len(),
        forall|i: int|
            0 <= i < n ==> holds(
                (#[trigger] members[i]).member as int,
                ChildCandidate { distance: distances[i], child, owner },
            ),
    ensures
        all_considered(observed(considered, members, distances, n, child, owner), holds),
        observed(considered, members, distances, n, child, owner).len() == considered.len(),
    decreases n,
{
    if n > 0 {
        observed_keep(considered, members, distances, (n - 1) as nat, child, owner, holds);
        assert(members[n - 1].member < considered.len());
    }
}

/// Whether something holds of every waiting member.
spec fn all_waiting(
    waiting: Map<WaveKey, Seq<Member>>,
    holds: spec_fn(WaveKey, Member) -> bool,
) -> bool {
    forall|key: WaveKey, i: int|
        waiting.dom().contains(key) && 0 <= i < waiting[key].len() ==> holds(
            key,
            #[trigger] waiting[key][i],
        )
}

proof fn joining_keeps(
    waiting: Map<WaveKey, Seq<Member>>,
    key: WaveKey,
    joined: Seq<Member>,
    holds: spec_fn(WaveKey, Member) -> bool,
)
    requires
        all_waiting(waiting, holds),
        forall|i: int| 0 <= i < joined.len() ==> holds(key, #[trigger] joined[i]),
    ensures
        all_waiting(waiting.insert(key, waiting_at(waiting, key) + joined), holds),
{
    let before = waiting_at(waiting, key);
    let after = waiting.insert(key, before + joined);
    assert forall|place: WaveKey, i: int|
        after.dom().contains(place) && 0 <= i < after[place].len() implies holds(
        place,
        #[trigger] after[place][i],
    ) by {
        if place == key {
            if i < before.len() {
                assert(waiting[key][i] == before[i]);
            } else {
                assert(joined[i - before.len()] == after[place][i]);
            }
        } else {
            assert(waiting[place][i] == after[place][i]);
        }
    }
}

proof fn joining_one_keeps(
    waiting: Map<WaveKey, Seq<Member>>,
    key: WaveKey,
    one: Member,
    holds: spec_fn(WaveKey, Member) -> bool,
)
    requires
        all_waiting(waiting, holds),
        holds(key, one),
    ensures
        all_waiting(waiting.insert(key, waiting_at(waiting, key).push(one)), holds),
{
    joining_keeps(waiting, key, seq![one], holds);
    assert(waiting_at(waiting, key) + seq![one] =~= waiting_at(waiting, key).push(one));
}

proof fn wave_reroutes_keep(
    wave: Map<WaveKey, Seq<Member>>,
    members: Seq<Member>,
    chosen: Seq<Reroute>,
    level: u32,
    n: nat,
    holds: spec_fn(WaveKey, Member) -> bool,
)
    requires
        all_waiting(wave, holds),
        n <= members.len(),
        forall|i: int|
            0 <= i < n ==> holds(
                WaveKey { partition: chosen[i].candidate.partition, level: Some(level) },
                Member {
                    member: (#[trigger] members[i]).member,
                    parent: Some(chosen[i].candidate.parent),
                    distance: chosen[i].distance,
                },
            ),
    ensures
        all_waiting(wave_reroutes(wave, members, chosen, level, n), holds),
    decreases n,
{
    if n > 0 {
        wave_reroutes_keep(wave, members, chosen, level, (n - 1) as nat, holds);
        let target = chosen[n - 1];
        assert(members[n - 1] == members[n - 1]);
        joining_one_keeps(
            wave_reroutes(wave, members, chosen, level, (n - 1) as nat),
            WaveKey { partition: target.candidate.partition, level: Some(level) },
            Member {
                member: members[n - 1].member,
                parent: Some(target.candidate.parent),
                distance: target.distance,
            },
            holds,
        );
    }
}

/// The member that follows a retained child.
spec fn follower(member: int, one: ChildCandidate) -> Member {
    Member { member: member as usize, parent: Some(one.owner), distance: one.distance }
}

proof fn spread_keeps(
    waiting: Map<WaveKey, Seq<Member>>,
    member: usize,
    kept: Seq<ChildCandidate>,
    level: u32,
    n: nat,
    holds: spec_fn(WaveKey, Member) -> bool,
)
    requires
        all_waiting(waiting, holds),
        n <= kept.len(),
        forall|i: int|
            0 <= i < n ==> holds(
                WaveKey { partition: (#[trigger] kept[i]).child, level: Some(level) },
                follower(member as int, kept[i]),
            ),
    ensures
        all_waiting(spread(waiting, member, kept, level, n), holds),
    decreases n,
{
    if n > 0 {
        spread_keeps(waiting, member, kept, level, (n - 1) as nat, holds);
        joining_one_keeps(
            spread(waiting, member, kept, level, (n - 1) as nat),
            WaveKey { partition: kept[n - 1].child, level: Some(level) },
            follower(member as int, kept[n - 1]),
            holds,
        );
    }
}

proof fn spread_all_keeps(
    waiting: Map<WaveKey, Seq<Member>>,
    kept: Seq<Seq<ChildCandidate>>,
    level: u32,
    n: nat,
    holds: spec_fn(WaveKey, Member) -> bool,
)
    requires
        all_waiting(waiting, holds),
        n <= kept.len(),
        n <= usize::MAX,
        forall|m: int, i: int|
            0 <= m < n && 0 <= i < kept[m].len() ==> holds(
                WaveKey { partition: (#[trigger] kept[m][i]).child, level: Some(level) },
                follower(m, kept[m][i]),
            ),
    ensures
        all_waiting(spread_all(waiting, kept, level, n), holds),
    decreases n,
{
    if n > 0 {
        spread_all_keeps(waiting, kept, level, (n - 1) as nat, holds);
        let here = kept[n - 1];
        assert forall|i: int| 0 <= i < here.len() implies holds(
            WaveKey { partition: (#[trigger] here[i]).child, level: Some(level) },
            follower(((n - 1) as usize) as int, here[i]),
        ) by {
            assert(kept[n - 1][i] == here[i]);
        }
        spread_keeps(
            spread_all(waiting, kept, level, (n - 1) as nat),
            (n - 1) as usize,
            here,
            level,
            here.len(),
            holds,
        );
    }
}

/// What a wave scans and for whom.
ghost struct Scan {
    child_level: Option<u32>,
    bodies: Seq<Body>,
    slots: Seq<usize>,
    members: Seq<Vec<Member>>,
}

spec fn scan_of(descent: WriteDescent) -> Scan {
    Scan {
        child_level: descent.child_level,
        bodies: descent.bodies@,
        slots: descent.body_slots@,
        members: descent.scan_members@,
    }
}

/// Whether a waiting member is where its own descent visits.
spec fn waits(
    snapshot: Snapshot,
    sights: Seq<Sight>,
    root: PartitionKey,
) -> spec_fn(WaveKey, Member) -> bool {
    |key: WaveKey, one: Member|
        one.member < sights.len() && on_path(
            snapshot,
            sights[one.member as int],
            root,
            position(root, key, one),
        )
}

/// Whether a terminal leaf is where its vector's own descent ends.
spec fn ended(
    snapshot: Snapshot,
    sights: Seq<Sight>,
    root: PartitionKey,
) -> spec_fn(int, RankedRoute) -> bool {
    |m: int, ranked: RankedRoute| ends_with(snapshot, sights[m], root, ranked.route)
}

/// Whether a scanning group scans a partition's body.
spec fn slot_owns(scan: Scan, slot: int, owner: PartitionKey) -> bool {
    exists|body: int|
        0 <= body < scan.bodies.len() && scan.slots[body] == slot && (
        #[trigger] scan.bodies[body]).partition == owner
}

/// Whether a position's plan is the scan of a scanning group.
spec fn scans_at(snapshot: Snapshot, scan: Scan, slot: int, visit: Descent) -> bool {
    &&& visit.plan_in(snapshot) matches Some(plan)
    &&& scan.child_level is Some
    &&& plan_level(plan) == scan.child_level
    &&& plan_bodies(snapshot, plan) matches Some(bodies)
    &&& forall|owner: PartitionKey| among(bodies, owner) <==> #[trigger] slot_owns(
        scan,
        slot,
        owner,
    )
}

/// Whether a member of a scanning group waits where its own descent scans.
spec fn slot_follows(
    snapshot: Snapshot,
    sights: Seq<Sight>,
    root: PartitionKey,
    scan: Scan,
    slot: int,
    one: Member,
) -> bool {
    exists|visit: Descent|
        on_path(snapshot, sights[one.member as int], root, visit) && #[trigger] scans_at(
            snapshot,
            scan,
            slot,
            visit,
        )
}

spec fn all_slots_follow(
    snapshot: Snapshot,
    sights: Seq<Sight>,
    root: PartitionKey,
    scan: Scan,
) -> bool {
    forall|slot: int, i: int|
        0 <= slot < scan.members.len() && 0 <= i < scan.members[slot]@.len() ==> slot_follows(
            snapshot,
            sights,
            root,
            scan,
            slot,
            #[trigger] scan.members[slot]@[i],
        )
}

/// Whether a vector waits in a scanning group.
spec fn scans_for(scan: Scan, slot: int, i: int, m: int) -> bool {
    &&& 0 <= slot < scan.members.len()
    &&& 0 <= i < scan.members[slot]@.len()
    &&& scan.members[slot]@[i].member == m
}

/// Whether a considered child is a Child Entry that its vector scans.
spec fn seen(
    snapshot: Snapshot,
    sights: Seq<Sight>,
    scan: Scan,
) -> spec_fn(int, ChildCandidate) -> bool {
    |m: int, one: ChildCandidate|
        {
            &&& snapshot.owns(one.owner, one.child)
            &&& one.distance == (sights[m].entry)(one.owner, one.child)
            &&& exists|slot: int, i: int| #[trigger]
                scans_for(scan, slot, i, m) && slot_owns(scan, slot, one.owner)
        }
}

/// Whether everything a batch holds follows its vectors' own descents.
spec fn follows(snapshot: Snapshot, sights: Seq<Sight>, descent: WriteDescent) -> bool {
    &&& descent.well_formed()
    &&& descent.beam == 1
    &&& sights.len() == descent.batch()
    &&& all_waiting(descent.pending@, waits(snapshot, sights, descent.root))
    &&& all_waiting(descent.wave@, waits(snapshot, sights, descent.root))
    &&& all_reached(descent.reached@, ended(snapshot, sights, descent.root))
    &&& all_slots_follow(snapshot, sights, descent.root, scan_of(descent))
    &&& all_considered(descent.considered@, seen(snapshot, sights, scan_of(descent)))
    &&& descent.child_level is None ==> descent.scan_members@.len() == 0
}

spec fn stage_follows(snapshot: Snapshot, sights: Seq<Sight>, stage: Stage) -> bool {
    &&& follows(snapshot, sights, stage.descent)
    &&& stage.held matches Some(group) ==> {
        &&& positions_fit(group.members@, stage.descent.batch())
        &&& forall|i: int|
            0 <= i < group.members@.len() ==> waits(snapshot, sights, stage.descent.root)(
                group.key,
                #[trigger] group.members@[i],
            )
    }
}

proof fn arriving_follows(
    snapshot: Snapshot,
    sights: Seq<Sight>,
    stage: Stage,
    after: Stage,
    header: PartitionHeader,
)
    requires
        snapshot.sound(),
        stage_follows(snapshot, sights, stage),
        stage.held is Some && after.held is None,
        group_plan(snapshot, stage.descent.root, stage.held->0.key) == Some(
            HopPlan::Leaf(header),
        ),
        arrived(stage.descent, after.descent, stage.held->0, header),
    ensures
        stage_follows(snapshot, sights, after),
{
    let group = stage.held->0;
    let root = stage.descent.root;
    let holds = ended(snapshot, sights, root);
    let members = group.members@;
    assert forall|i: int| 0 <= i < members.len() implies holds(
        (#[trigger] members[i]).member as int,
        RankedRoute {
            distance: members[i].distance,
            route: Route {
                leaf: group.key.partition,
                leaf_header: header,
                parent: members[i].parent,
                incoming: Incoming::ParentEdge,
            },
        },
    ) by {
        let one = members[i];
        assert(waits(snapshot, sights, root)(group.key, one));
        let visit = position(root, group.key, one);
        let sight = sights[one.member as int];
        let route = visit.arrival(header);
        assert(visit.ends_at(snapshot, sight, route));
        path_ends(snapshot, sight, root, visit, route);
    }
    arrivals_keep(
        stage.descent.reached@,
        members,
        members.len(),
        group.key.partition,
        header,
        holds,
    );
    assert(scan_of(after.descent) == scan_of(stage.descent));
}

proof fn draining_follows(
    snapshot: Snapshot,
    sights: Seq<Sight>,
    stage: Stage,
    after: Stage,
    left: PartitionKey,
    right: PartitionKey,
    first: DrainTarget,
    second: DrainTarget,
    distances: Seq<(Distance, Distance)>,
)
    requires
        snapshot.sound(),
        stage_follows(snapshot, sights, stage),
        stage.held is Some && after.held is None,
        group_plan(snapshot, stage.descent.root, stage.held->0.key) == Some(
            HopPlan::ReadDrainTargets { left, right },
        ),
        drained(stage.descent, after.descent, stage.held->0, first, second, distances),
        target_in(snapshot, left, first),
        target_in(snapshot, right, second),
        distances.len() == stage.held->0.members@.len(),
        forall|i: int|
            0 <= i < distances.len() ==> {
                let sight = sights[stage.held->0.members@[i].member as int];
                #[trigger] distances[i] == ((sight.target)(left), (sight.target)(right))
            },
    ensures
        stage_follows(snapshot, sights, after),
{
    let group = stage.held->0;
    let root = stage.descent.root;
    let source = group.key.partition;
    let holds = ended(snapshot, sights, root);
    let members = group.members@;
    assert forall|i: int| 0 <= i < members.len() implies holds(
        (#[trigger] members[i]).member as int,
        redirected(members[i], distances[i], source, first, second),
    ) by {
        let one = members[i];
        assert(waits(snapshot, sights, root)(group.key, one));
        let visit = position(root, group.key, one);
        let sight = sights[one.member as int];
        assert(distances[i] == ((sight.target)(left), (sight.target)(right)));
        let route = redirected(one, distances[i], source, first, second).route;
        assert(visit.ends_at(snapshot, sight, route));
        path_ends(snapshot, sight, root, visit, route);
    }
    redirects_keep(
        stage.descent.reached@,
        members,
        distances,
        members.len(),
        source,
        first,
        second,
        holds,
    );
    assert(scan_of(after.descent) == scan_of(stage.descent));
}

proof fn reroutes_are_nearest(
    snapshot: Snapshot,
    sights: Seq<Sight>,
    level: u32,
    source: PartitionKey,
    members: Seq<Member>,
    candidates: Seq<LevelCandidate>,
    distances: Seq<Vec<Option<Distance>>>,
    i: int,
    chosen: Reroute,
)
    requires
        level_read(snapshot, sights, level, members, candidates, distances),
        0 <= i < members.len(),
        is_reroute(source, candidates, distances[i]@, chosen),
    ensures
        nearest_ready(
            snapshot,
            sights[members[i].member as int],
            level,
            source,
            chosen.candidate,
        ),
{
    let sight = sights[members[i].member as int];
    let best = choose|best: int| #[trigger]
        nearest_legal(source, candidates, distances[i]@, best, candidates.len() as int)
            && chosen.candidate == candidates[best] && distances[i]@[best] == Some(
            chosen.distance,
        );
    assert(candidates.contains(candidates[best]));
    assert(distances[i]@[best] == Some((sight.candidate)(candidates[best].partition)));
    assert forall|other: LevelCandidate| #[trigger]
        snapshot.sees(level, other) && other.legal_for(source) implies !precedes(
        (sight.candidate)(other.partition),
        other.partition,
        (sight.candidate)(chosen.candidate.partition),
        chosen.candidate.partition,
    ) by {
        assert(candidates.contains(other));
        let j = choose|j: int| 0 <= j < candidates.len() && candidates[j] == other;
        assert(distances[i]@[j] == Some((sight.candidate)(candidates[j].partition)));
        assert(candidates[j].legal_for(source));
    }
}

proof fn rerouting_follows(
    snapshot: Snapshot,
    sights: Seq<Sight>,
    stage: Stage,
    after: Stage,
    level: u32,
    candidates: Seq<LevelCandidate>,
    distances: Seq<Vec<Option<Distance>>>,
    chosen: Seq<Reroute>,
)
    requires
        snapshot.sound(),
        stage_follows(snapshot, sights, stage),
        stage.held is Some && after.held is None,
        group_plan(snapshot, stage.descent.root, stage.held->0.key) == Some(
            HopPlan::ReadCandidates { level },
        ),
        rerouted(
            stage.descent,
            after.descent,
            stage.held->0,
            level,
            candidates,
            distances,
            chosen,
        ),
        level_read(snapshot, sights, level, stage.held->0.members@, candidates, distances),
    ensures
        stage_follows(snapshot, sights, after),
{
    let group = stage.held->0;
    let root = stage.descent.root;
    let source = group.key.partition;
    let members = group.members@;
    if level == 1 {
        let holds = ended(snapshot, sights, root);
        assert forall|i: int| 0 <= i < members.len() implies holds(
            (#[trigger] members[i]).member as int,
            rerouted_leaf(chosen[i]),
        ) by {
            let one = members[i];
            assert(waits(snapshot, sights, root)(group.key, one));
            assert(is_reroute(source, candidates, distances[i]@, chosen[i]));
            reroutes_are_nearest(
                snapshot,
                sights,
                level,
                source,
                members,
                candidates,
                distances,
                i,
                chosen[i],
            );
            let visit = position(root, group.key, one);
            let sight = sights[one.member as int];
            let route = rerouted_leaf(chosen[i]).route;
            assert(route == visit.reselected(chosen[i].candidate).arrival(
                chosen[i].candidate.header,
            ));
            assert(visit.ends_at(snapshot, sight, route));
            path_ends(snapshot, sight, root, visit, route);
        }
        leaf_reroutes_keep(stage.descent.reached@, members, chosen, members.len(), holds);
    } else {
        let holds = waits(snapshot, sights, root);
        assert forall|i: int| 0 <= i < members.len() implies holds(
            WaveKey { partition: chosen[i].candidate.partition, level: Some(level) },
            Member {
                member: (#[trigger] members[i]).member,
                parent: Some(chosen[i].candidate.parent),
                distance: chosen[i].distance,
            },
        ) by {
            let one = members[i];
            assert(waits(snapshot, sights, root)(group.key, one));
            assert(is_reroute(source, candidates, distances[i]@, chosen[i]));
            reroutes_are_nearest(
                snapshot,
                sights,
                level,
                source,
                members,
                candidates,
                distances,
                i,
                chosen[i],
            );
            let visit = position(root, group.key, one);
            let sight = sights[one.member as int];
            let next = visit.reselected(chosen[i].candidate);
            assert(visit.plan_in(snapshot) == Some(HopPlan::ReadCandidates { level }));
            assert(nearest_ready(
                snapshot,
                sight,
                level,
                visit.partition,
                chosen[i].candidate,
            ));
            assert(visit.hops_to(snapshot, sight, next));
            hops_stay_on_path(snapshot, sight, root, visit, next);
            assert(visit.expected_level == Some(level)) by {
                visits_below_the_root_expect_a_level(snapshot, sight, root, visit);
            }
        }
        wave_reroutes_keep(
            stage.descent.wave@,
            members,
            chosen,
            level,
            members.len(),
            holds,
        );
    }
    assert(scan_of(after.descent) == scan_of(stage.descent));
}

proof fn visits_below_the_root_expect_a_level(
    snapshot: Snapshot,
    sight: Sight,
    root: PartitionKey,
    visit: Descent,
)
    requires
        snapshot.sound(),
        on_path(snapshot, sight, root, visit),
        visit.plan_in(snapshot) is Some,
    ensures
        visit != first_visit(root) ==> visit.expected_level == Some(
            snapshot.authorities[visit.partition].header.level,
        ),
        visit.root == root,
{
    let visits = choose|visits: Seq<Descent>| #[trigger]
        is_descent(snapshot, sight, root, visits) && visits.last() == visit;
    visits_know_their_parent(snapshot, sight, root, visits, visits.len() - 1);
}

proof fn sideways_follows(
    snapshot: Snapshot,
    sights: Seq<Sight>,
    stage: Stage,
    after: Stage,
    source: PartitionKey,
)
    requires
        snapshot.sound(),
        stage_follows(snapshot, sights, stage),
        stage.held is Some && after.held is None,
        group_plan(snapshot, stage.descent.root, stage.held->0.key) == Some(
            HopPlan::Sideways { source },
        ),
        moved_sideways(stage.descent, after.descent, stage.held->0, source),
    ensures
        stage_follows(snapshot, sights, after),
{
    let group = stage.held->0;
    let root = stage.descent.root;
    let members = group.members@;
    let key = WaveKey { partition: source, level: group.key.level };
    let holds = waits(snapshot, sights, root);
    assert forall|i: int| 0 <= i < members.len() implies holds(key, #[trigger] members[i]) by {
        let one = members[i];
        assert(waits(snapshot, sights, root)(group.key, one));
        let visit = position(root, group.key, one);
        let sight = sights[one.member as int];
        let next = position(root, key, one);
        assert(visit.hops_to(snapshot, sight, next));
        hops_stay_on_path(snapshot, sight, root, visit, next);
    }
    joining_keeps(stage.descent.wave@, key, members, holds);
    assert(scan_of(after.descent) == scan_of(stage.descent));
}

proof fn scanning_follows(
    snapshot: Snapshot,
    sights: Seq<Sight>,
    stage: Stage,
    after: Stage,
    plan: HopPlan,
)
    requires
        snapshot.sound(),
        stage_follows(snapshot, sights, stage),
        stage.held is Some && after.held is None,
        group_plan(snapshot, stage.descent.root, stage.held->0.key) == Some(plan),
        plan_bodies(snapshot, plan) is Some,
        plan_level(plan) is Some,
        scanning(
            stage.descent,
            after.descent,
            stage.held->0,
            plan_bodies(snapshot, plan)->0,
            plan_level(plan)->0,
        ),
    ensures
        stage_follows(snapshot, sights, after),
{
    let group = stage.held->0;
    let root = stage.descent.root;
    let bodies = plan_bodies(snapshot, plan)->0;
    let old_scan = scan_of(stage.descent);
    let new_scan = scan_of(after.descent);
    let fresh = old_scan.members.len() as int;
    assert(stage.descent.scan_members.len() == fresh);
    assert forall|slot: int, owner: PartitionKey| 0 <= slot < fresh implies slot_owns(
        old_scan,
        slot,
        owner,
    ) == #[trigger] slot_owns(new_scan, slot, owner) by {
        if slot_owns(old_scan, slot, owner) {
            let body = choose|body: int|
                0 <= body < old_scan.bodies.len() && old_scan.slots[body] == slot && (
                #[trigger] old_scan.bodies[body]).partition == owner;
            assert(new_scan.bodies[body] == old_scan.bodies[body]);
            assert(new_scan.slots[body] == slot);
        }
        if slot_owns(new_scan, slot, owner) {
            let body = choose|body: int|
                0 <= body < new_scan.bodies.len() && new_scan.slots[body] == slot && (
                #[trigger] new_scan.bodies[body]).partition == owner;
            assert(body < old_scan.bodies.len());
            assert(old_scan.bodies[body] == new_scan.bodies[body]);
        }
    }
    assert forall|owner: PartitionKey| among(bodies, owner) == #[trigger] slot_owns(
        new_scan,
        fresh,
        owner,
    ) by {
        if among(bodies, owner) {
            let i = choose|i: int|
                0 <= i < bodies.len() && (#[trigger] bodies[i]).partition == owner;
            let body = old_scan.bodies.len() + i;
            assert(new_scan.bodies[body] == bodies[i]);
            assert(new_scan.slots[body] == fresh);
        }
        if slot_owns(new_scan, fresh, owner) {
            let body = choose|body: int|
                0 <= body < new_scan.bodies.len() && new_scan.slots[body] == fresh && (
                #[trigger] new_scan.bodies[body]).partition == owner;
            if body < old_scan.bodies.len() {
                assert(old_scan.slots[body] == fresh);
                assert(stage.descent.body_slots@[body] < fresh);
            }
            assert(bodies[body - old_scan.bodies.len()] == new_scan.bodies[body]);
        }
    }
    assert forall|slot: int, i: int|
        0 <= slot < new_scan.members.len() && 0 <= i
            < new_scan.members[slot]@.len() implies slot_follows(
        snapshot,
        sights,
        root,
        new_scan,
        slot,
        #[trigger] new_scan.members[slot]@[i],
    ) by {
        let one = new_scan.members[slot]@[i];
        let sight = sights[one.member as int];
        if slot < fresh {
            assert(old_scan.members[slot]@[i] == one);
            let visit = choose|visit: Descent|
                on_path(snapshot, sight, root, visit) && #[trigger] scans_at(
                    snapshot,
                    old_scan,
                    slot,
                    visit,
                );
            assert(scans_at(snapshot, new_scan, slot, visit));
        } else {
            assert(group.members@[i] == one);
            assert(waits(snapshot, sights, root)(group.key, one));
            let visit = position(root, group.key, one);
            assert(scans_at(snapshot, new_scan, slot, visit));
        }
    }
    let holds = seen(snapshot, sights, new_scan);
    assert forall|m: int, i: int|
        0 <= m < after.descent.considered@.len() && 0 <= i
            < after.descent.considered@[m].len() implies holds(
        m,
        #[trigger] after.descent.considered@[m][i],
    ) by {
        let one = stage.descent.considered@[m][i];
        assert(seen(snapshot, sights, old_scan)(m, one));
        let (slot, at) = choose|slot: int, at: int| #[trigger]
            scans_for(old_scan, slot, at, m) && slot_owns(old_scan, slot, one.owner);
        assert(scans_for(new_scan, slot, at, m));
        assert(slot_owns(new_scan, slot, one.owner));
    }
}

proof fn observing_follows(
    snapshot: Snapshot,
    sights: Seq<Sight>,
    stage: Stage,
    after: Stage,
    body: int,
    child: PartitionKey,
    distances: Seq<Distance>,
)
    requires
        stage_follows(snapshot, sights, stage),
        stage.held is None && after.held is None,
        entry_observed(stage.descent, after.descent, body, child, distances),
        0 <= body < stage.descent.bodies@.len(),
        snapshot.owns(stage.descent.bodies@[body].partition, child),
        distances.len() == waiters(stage.descent, body).len(),
        forall|i: int|
            0 <= i < distances.len() ==> #[trigger] distances[i] == (
            sights[waiters(stage.descent, body)[i].member as int].entry)(
                stage.descent.bodies@[body].partition,
                child,
            ),
    ensures
        stage_follows(snapshot, sights, after),
{
    let scan = scan_of(stage.descent);
    let owner = stage.descent.bodies@[body].partition;
    let members = waiters(stage.descent, body);
    let holds = seen(snapshot, sights, scan);
    let slot = stage.descent.body_slots@[body] as int;
    assert(slot_owns(scan, slot, owner)) by {
        assert(scan.bodies[body].partition == owner);
    }
    assert(positions_fit(stage.descent.scan_members@[slot]@, stage.descent.batch()));
    assert forall|i: int| 0 <= i < members.len() implies holds(
        (#[trigger] members[i]).member as int,
        ChildCandidate { distance: distances[i], child, owner },
    ) by {
        assert(distances[i] == (sights[members[i].member as int].entry)(owner, child));
        assert(scans_for(scan, slot, i, members[i].member as int));
    }
    observed_keep(
        stage.descent.considered@,
        members,
        distances,
        members.len(),
        child,
        owner,
        holds,
    );
    assert(scan_of(after.descent) == scan);
}

proof fn finishing_follows(snapshot: Snapshot, sights: Seq<Sight>, stage: Stage, after: Stage)
    requires
        snapshot.sound(),
        stage_follows(snapshot, sights, stage),
        stage.held is None && after.held is None,
        wave_finished(stage.descent, after.descent),
        scanned_through(snapshot, sights, stage.descent),
    ensures
        stage_follows(snapshot, sights, after),
{
    let descent = stage.descent;
    let scan = scan_of(descent);
    let root = descent.root;
    let holds = waits(snapshot, sights, root);
    if let Some(level) = descent.child_level {
        let kept = descent.kept();
        assert(descent.routes.len() == descent.batch());
        assert forall|m: int, i: int| 0 <= m < descent.batch() && 0 <= i < kept[m].len() implies
            holds(
            WaveKey { partition: (#[trigger] kept[m][i]).child, level: Some(level) },
            follower(m, kept[m][i]),
        ) by {
            let best = kept[m][i];
            retained_children_are_hops(snapshot, sights, descent, level, m, i);
            let visit = choose|visit: Descent|
                on_path(snapshot, sights[m], root, visit) && #[trigger] visit.hops_to(
                    snapshot,
                    sights[m],
                    visit.followed(best, level),
                );
            let next = visit.followed(best, level);
            hops_stay_on_path(snapshot, sights[m], root, visit, next);
            let visits = choose|visits: Seq<Descent>| #[trigger]
                is_descent(snapshot, sights[m], root, visits) && visits.last() == visit;
            visits_know_their_parent(snapshot, sights[m], root, visits, visits.len() - 1);
            let key = WaveKey { partition: best.child, level: Some(level) };
            assert(position(root, key, follower(m, best)) == next);
        }
        spread_all_keeps(descent.pending@, kept, level, descent.batch(), holds);
    }
}

/// With a beam of one, the child that a vector retains is where its own descent
/// hops to.
proof fn retained_children_are_hops(
    snapshot: Snapshot,
    sights: Seq<Sight>,
    descent: WriteDescent,
    level: u32,
    m: int,
    i: int,
)
    requires
        follows(snapshot, sights, descent),
        scanned_through(snapshot, sights, descent),
        descent.child_level == Some(level),
        0 <= m < descent.batch(),
        0 <= i < descent.kept()[m].len(),
    ensures
        exists|visit: Descent|
            on_path(snapshot, sights[m], descent.root, visit) && #[trigger] visit.hops_to(
                snapshot,
                sights[m],
                visit.followed(descent.kept()[m][i], level),
            ),
{
    let scan = scan_of(descent);
    let root = descent.root;
    let sight = sights[m];
    let considered = descent.considered@[m];
    let kept = descent.kept()[m];
    let best = kept[i];
    halving_bottoms_out(1, (level - 1) as nat);
    assert(kept == descent.nearest@[m].kept());
    assert(kept == retained(considered, 1));
    beam_retains_the_nearest(considered, 1);
    assert(kept.contains(best));
    let at = choose|at: int| 0 <= at < considered.len() && considered[at] == best;
    assert(descent.considered@[m][at] == best);
    assert(seen(snapshot, sights, scan)(m, best));
    let (slot, j) = choose|slot: int, j: int| #[trigger]
        scans_for(scan, slot, j, m) && slot_owns(scan, slot, best.owner);
    let waiter = scan.members[slot]@[j];
    assert(slot_follows(snapshot, sights, root, scan, slot, waiter));
    let visit = choose|visit: Descent|
        on_path(snapshot, sight, root, visit) && #[trigger] scans_at(snapshot, scan, slot, visit);
    let plan = visit.plan_in(snapshot)->0;
    let bodies = plan_bodies(snapshot, plan)->0;
    assert(entry_of(snapshot, sight, bodies, best));
    assert forall|one: ChildCandidate| #[trigger]
        entry_of(snapshot, sight, bodies, one) implies !precedes(
        one.distance,
        one.child,
        best.distance,
        best.child,
    ) by {
        assert(slot_owns(scan, slot, one.owner));
        let body = choose|body: int|
            0 <= body < scan.bodies.len() && scan.slots[body] == slot && (
            #[trigger] scan.bodies[body]).partition == one.owner;
        assert(waiters(descent, body)[j] == waiter);
        assert(snapshot.owns(descent.bodies@[body].partition, one.child));
        assert(considered.contains(one));
        before_is_total(one, best);
        if kept.contains(one) {
            assert(one == best);
        }
    }
    assert(nearest_entry(snapshot, sight, bodies, best));
    assert(visit.hops_to(snapshot, sight, visit.followed(best, level)));
}

proof fn beginning_follows(snapshot: Snapshot, sights: Seq<Sight>, stage: Stage, after: Stage)
    requires
        stage_follows(snapshot, sights, stage),
        stage.held is None && after.held is None,
        wave_begun(stage.descent, after.descent),
    ensures
        stage_follows(snapshot, sights, after),
{
    let before = stage.descent.pending@;
    let holds = waits(snapshot, sights, stage.descent.root);
    let wave = after.descent.wave@;
    let pending = after.descent.pending@;
    assert forall|key: WaveKey, i: int|
        wave.dom().contains(key) && 0 <= i < wave[key].len() implies holds(
        key,
        #[trigger] wave[key][i],
    ) by {
        assert(before[key][i] == wave[key][i]);
    }
    assert forall|key: WaveKey, i: int|
        pending.dom().contains(key) && 0 <= i < pending[key].len() implies holds(
        key,
        #[trigger] pending[key][i],
    ) by {
        assert(before[key][i] == pending[key][i]);
    }
}

proof fn taking_follows(
    snapshot: Snapshot,
    sights: Seq<Sight>,
    stage: Stage,
    after: Stage,
    group: Group,
)
    requires
        stage_follows(snapshot, sights, stage),
        stage.held is None && after.held == Some(group),
        group_taken(stage.descent, after.descent, group),
    ensures
        stage_follows(snapshot, sights, after),
{
    let before = stage.descent.wave@;
    let wave = after.descent.wave@;
    let holds = waits(snapshot, sights, stage.descent.root);
    assert forall|key: WaveKey, i: int|
        wave.dom().contains(key) && 0 <= i < wave[key].len() implies holds(
        key,
        #[trigger] wave[key][i],
    ) by {
        assert(before[key][i] == wave[key][i]);
    }
    assert forall|i: int| 0 <= i < group.members@.len() implies holds(
        group.key,
        #[trigger] group.members@[i],
    ) by {
        assert(before[group.key][i] == group.members@[i]);
    }
    assert(scan_of(after.descent) == scan_of(stage.descent));
}

proof fn group_arrivals_keep(
    snapshot: Snapshot,
    sights: Seq<Sight>,
    descent: WriteDescent,
    authorities: Seq<Authority>,
    n: nat,
)
    requires
        snapshot.sound(),
        follows(snapshot, sights, descent),
        n <= descent.pending.ordered().len(),
        leaves_read(snapshot, descent, authorities),
        forall|key: WaveKey| #[trigger]
            descent.pending@.dom().contains(key) ==> key.level == Some(1u32),
        forall|i: int|
            0 <= i < authorities.len() ==> leaf_legal(descent, #[trigger] authorities[i], i)
                && authorities[i].header.state.writable(),
    ensures
        ({
            let reached = group_arrivals(
                descent.reached@,
                descent.pending.ordered(),
                authorities,
                n,
            );
            &&& all_reached(reached, ended(snapshot, sights, descent.root))
            &&& reached.len() == descent.batch()
        }),
    decreases n,
{
    if n > 0 {
        group_arrivals_keep(snapshot, sights, descent, authorities, (n - 1) as nat);
        let root = descent.root;
        let groups = descent.pending.ordered();
        let group = groups[n - 1];
        let header = authorities[n - 1].header;
        descent.pending.ordered_entry(n - 1);
        let members = group.members@;
        assert(positions_fit(members, descent.batch()));
        assert(leaf_legal(descent, authorities[n - 1], n - 1));
        let holds = ended(snapshot, sights, root);
        assert forall|i: int| 0 <= i < members.len() implies holds(
            (#[trigger] members[i]).member as int,
            RankedRoute {
                distance: members[i].distance,
                route: Route {
                    leaf: group.key.partition,
                    leaf_header: header,
                    parent: members[i].parent,
                    incoming: Incoming::ParentEdge,
                },
            },
        ) by {
            let one = members[i];
            assert(descent.pending@[group.key][i] == one);
            assert(waits(snapshot, sights, root)(group.key, one));
            let visit = position(root, group.key, one);
            let sight = sights[one.member as int];
            let route = visit.arrival(header);
            assert(visit.plan_in(snapshot) == Some(HopPlan::Leaf(header)));
            assert(visit.ends_at(snapshot, sight, route));
            path_ends(snapshot, sight, root, visit, route);
        }
        arrivals_keep(
            group_arrivals(descent.reached@, groups, authorities, (n - 1) as nat),
            members,
            members.len(),
            group.key.partition,
            header,
            holds,
        );
    }
}

proof fn steps_follow(snapshot: Snapshot, sights: Seq<Sight>, stage: Stage, after: Stage)
    requires
        snapshot.sound(),
        stage_follows(snapshot, sights, stage),
        stage.advances(snapshot, sights, after),
    ensures
        stage_follows(snapshot, sights, after),
        after.descent.root == stage.descent.root,
{
    if stage.finishes_leaves(snapshot, after) {
        let authorities = choose|authorities: Seq<Authority>| #[trigger]
            leaves_read(snapshot, stage.descent, authorities) && (leaves_arrived(
                stage.descent,
                after.descent,
                authorities,
            ) || leaves_refused(stage.descent, after.descent, authorities));
        assert(scan_of(after.descent) == scan_of(stage.descent));
        if leaves_arrived(stage.descent, after.descent, authorities) {
            group_arrivals_keep(
                snapshot,
                sights,
                stage.descent,
                authorities,
                authorities.len(),
            );
        }
    } else if stage.turns(snapshot, sights, after) {
        match after.held {
            Some(group) => taking_follows(snapshot, sights, stage, after, group),
            None => {
                if wave_begun(stage.descent, after.descent) {
                    beginning_follows(snapshot, sights, stage, after);
                } else {
                    finishing_follows(snapshot, sights, stage, after);
                }
            },
        }
    } else if stage.resolves(snapshot, sights, after) {
        let group = stage.held->0;
        let before = stage.descent;
        match group_plan(snapshot, before.root, group.key) {
            Some(HopPlan::Leaf(header)) => arriving_follows(
                snapshot,
                sights,
                stage,
                after,
                header,
            ),
            Some(HopPlan::ReadDrainTargets { left, right }) => {
                let (first, second, distances) = choose|
                    first: DrainTarget,
                    second: DrainTarget,
                    distances: Seq<(Distance, Distance)>,
                |
                    {
                        &&& #[trigger] drained(
                            before,
                            after.descent,
                            group,
                            first,
                            second,
                            distances,
                        )
                        &&& target_in(snapshot, left, first)
                        &&& target_in(snapshot, right, second)
                        &&& distances.len() == group.members@.len()
                        &&& forall|i: int|
                            0 <= i < distances.len() ==> {
                                let sight = sights[group.members@[i].member as int];
                                #[trigger] distances[i] == (
                                    (sight.target)(left),
                                    (sight.target)(right),
                                )
                            }
                    };
                draining_follows(
                    snapshot,
                    sights,
                    stage,
                    after,
                    left,
                    right,
                    first,
                    second,
                    distances,
                );
            },
            Some(HopPlan::ReadCandidates { level }) => {
                let (candidates, distances, chosen) = choose|
                    candidates: Seq<LevelCandidate>,
                    distances: Seq<Vec<Option<Distance>>>,
                    chosen: Seq<Reroute>,
                |
                    {
                        &&& #[trigger] rerouted(
                            before,
                            after.descent,
                            group,
                            level,
                            candidates,
                            distances,
                            chosen,
                        )
                        &&& level_read(
                            snapshot,
                            sights,
                            level,
                            group.members@,
                            candidates,
                            distances,
                        )
                    };
                rerouting_follows(
                    snapshot,
                    sights,
                    stage,
                    after,
                    level,
                    candidates,
                    distances,
                    chosen,
                );
            },
            Some(HopPlan::Sideways { source }) => sideways_follows(
                snapshot,
                sights,
                stage,
                after,
                source,
            ),
            Some(plan) => scanning_follows(snapshot, sights, stage, after, plan),
            None => {},
        }
    } else {
        let (body, child, distances) = choose|
            body: int,
            child: PartitionKey,
            distances: Seq<Distance>,
        |
            {
                let owner = stage.descent.bodies@[body].partition;
                let members = waiters(stage.descent, body);
                &&& #[trigger] entry_observed(
                    stage.descent,
                    after.descent,
                    body,
                    child,
                    distances,
                )
                &&& 0 <= body < stage.descent.bodies@.len()
                &&& snapshot.owns(owner, child)
                &&& distances.len() == members.len()
                &&& forall|i: int|
                    0 <= i < distances.len() ==> #[trigger] distances[i] == (
                    sights[members[i].member as int].entry)(owner, child)
            };
        observing_follows(snapshot, sights, stage, after, body, child, distances);
    }
}

/// Whether stages are those of a batch's run from a root with a beam of one.
pub open spec fn is_run(
    snapshot: Snapshot,
    sights: Seq<Sight>,
    root: PartitionKey,
    stages: Seq<Stage>,
) -> bool {
    &&& stages.len() > 0
    &&& stages[0].held is None
    &&& started(stages[0].descent, root, sights.len(), 1)
    &&& forall|i: int, j: int|
        0 <= i && j == i + 1 && j < stages.len() ==> (#[trigger] stages[i]).advances(
            snapshot,
            sights,
            #[trigger] stages[j],
        )
}

proof fn runs_follow(
    snapshot: Snapshot,
    sights: Seq<Sight>,
    root: PartitionKey,
    stages: Seq<Stage>,
    at: int,
)
    requires
        snapshot.sound(),
        is_run(snapshot, sights, root, stages),
        0 <= at < stages.len(),
    ensures
        stage_follows(snapshot, sights, stages[at]),
        stages[at].descent.root == root,
    decreases at,
{
    if at > 0 {
        runs_follow(snapshot, sights, root, stages, at - 1);
        assert(stages[at - 1].advances(snapshot, sights, stages[at]));
        steps_follow(snapshot, sights, stages[at - 1], stages[at]);
    } else {
        let descent = stages[0].descent;
        let holds = waits(snapshot, sights, root);
        let place = WaveKey { partition: root, level: None };
        assert forall|key: WaveKey, i: int|
            descent.pending@.dom().contains(key) && 0 <= i
                < descent.pending@[key].len() implies holds(
            key,
            #[trigger] descent.pending@[key][i],
        ) by {
            assert(key == place);
            let one = descent.pending@[place][i];
            let visits = seq![first_visit(root)];
            assert(is_descent(snapshot, sights[i], root, visits));
            assert(visits.last() == position(root, key, one));
        }
    }
}

/// With a beam of one, the grouped and the single descent agree: the route of
/// every vector of a batch is the one its own descent ends with.
pub proof fn grouped_descents_agree_with_single_ones(
    snapshot: Snapshot,
    sights: Seq<Sight>,
    root: PartitionKey,
    stages: Seq<Stage>,
    m: int,
    visits: Seq<Descent>,
    route: Route,
)
    requires
        snapshot.sound(),
        is_run(snapshot, sights, root, stages),
        0 <= m < sights.len(),
        best_of(stages.last().descent.reached@[m]) is Some,
    ensures
        ({
            let grouped = best_of(stages.last().descent.reached@[m])->0.route;
            &&& ends_with(snapshot, sights[m], root, grouped)
            &&& routes_to(snapshot, sights[m], root, visits, route) ==> route == grouped
        }),
{
    runs_follow(snapshot, sights, root, stages, stages.len() - 1);
    let reached = stages.last().descent.reached@;
    let best = best_of(reached[m])->0;
    best_is_least(reached[m]);
    let i = choose|i: int| 0 <= i < reached[m].len() && reached[m][i] == best;
    assert(ended(snapshot, sights, root)(m, reached[m][i]));
    let others = choose|others: Seq<Descent>| #[trigger]
        routes_to(snapshot, sights[m], root, others, best.route);
    if routes_to(snapshot, sights[m], root, visits, route) {
        descents_of_one_snapshot_agree(
            snapshot,
            sights[m],
            root,
            visits,
            route,
            others,
            best.route,
        );
    }
}

} // verus!
