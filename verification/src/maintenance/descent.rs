//! The grouped write descent: a whole batch descends one tree level by level,
//! sharing the reads of every visited partition, while each vector keeps its
//! own bounded beam of candidate paths.
//!
//! [`WriteDescent`] holds the batch's position. A driver repeats: when the
//! waiting members all expect a leaf, read the leaves' authority values and
//! try [`WriteDescent::finish_leaf_wave`]; otherwise [`WriteDescent::begin_wave`],
//! resolve each group that [`WriteDescent::next_group`] hands out with
//! [`resolve_hop`](crate::maintenance::routing::resolve_hop) and report what it
//! resolved to, report every scanned Child Entry, and
//! [`WriteDescent::finish_wave`].

use std::collections::HashMap;

use vstd::prelude::*;

use crate::api::error::{plain_error, Error, ErrorKind, Result};
use crate::api::identifiers::{partition_key_of_view, PartitionKey};
use crate::api::number::Distance;
use crate::maintenance::ranking::{beam_width, beats, halved, nearest_legal, nearest_ready_candidate, precedes, retained, smaller_ranks_come_first, ChildCandidate, NearestChildren};
use crate::maintenance::routing::{check_level, check_root_state, level_fits, nearer_redirect_target, nearer_target, root_state_fits, DrainTarget, Incoming, Route};
use crate::maintenance::waiting::{key_less, waiting_at, Group, Member, WaveKey, Waiting};
use crate::topology::{Authority, Body, LevelCandidate, PartitionHeader};

verus! {

broadcast use {partition_key_of_view, vstd::std_specs::hash::group_hash_axioms};

/// A terminal leaf reached by one vector.
#[derive(Clone, Copy, Debug, PartialEq, Eq, Structural)]
pub struct RankedRoute {
    /// The distance by which the leaf competes.
    pub distance: Distance,
    /// The route to the leaf.
    pub route: Route,
}

/// The better of a current terminal leaf and one more: nearer distance first,
/// then the smaller leaf.
pub open spec fn better(current: Option<RankedRoute>, one: RankedRoute) -> Option<RankedRoute> {
    match current {
        None => Some(one),
        Some(best) => if precedes(
            one.distance,
            one.route.leaf,
            best.distance,
            best.route.leaf,
        ) {
            Some(one)
        } else {
            current
        },
    }
}

/// Whether every terminal leaf reached so far accepts writes.
pub open spec fn all_writable(routes: Seq<Option<RankedRoute>>) -> bool {
    forall|i: int|
        0 <= i < routes.len() && (#[trigger] routes[i]) is Some
            ==> routes[i]->0.route.leaf_header.state.writable()
}

/// The best of the terminal leaves one vector reached.
pub open spec fn best_of(reached: Seq<RankedRoute>) -> Option<RankedRoute>
    decreases reached.len(),
{
    if reached.len() == 0 {
        None
    } else {
        better(best_of(reached.drop_last()), reached.last())
    }
}

/// The best terminal leaf is one of those reached, and none precedes it.
pub proof fn best_is_least(reached: Seq<RankedRoute>)
    ensures
        reached.len() == 0 <==> best_of(reached) is None,
        best_of(reached) matches Some(best) ==> {
            &&& reached.contains(best)
            &&& forall|i: int|
                0 <= i < reached.len() ==> !precedes(
                    (#[trigger] reached[i]).distance,
                    reached[i].route.leaf,
                    best.distance,
                    best.route.leaf,
                )
        },
    decreases reached.len(),
{
    if reached.len() > 0 {
        let earlier = reached.drop_last();
        best_is_least(earlier);
        let best = best_of(reached)->0;
        if best_of(earlier) is Some && best == best_of(earlier)->0 {
            assert(earlier.contains(best));
            let k = choose|k: int| 0 <= k < earlier.len() && earlier[k] == best;
            assert(reached[k] == best);
        } else {
            assert(reached[reached.len() - 1] == best);
        }
        assert forall|i: int| 0 <= i < reached.len() implies !precedes(
            (#[trigger] reached[i]).distance,
            reached[i].route.leaf,
            best.distance,
            best.route.leaf,
        ) by {
            if i < earlier.len() {
                assert(earlier[i] == reached[i]);
            }
        }
    }
}

/// The rank of the best terminal leaf is at most that of every one reached;
/// among equal ranks its key is least.
pub proof fn best_has_the_least_rank(reached: Seq<RankedRoute>)
    requires
        reached.len() > 0,
    ensures
        best_of(reached) is Some,
        reached.contains(best_of(reached)->0),
        forall|i: int|
            0 <= i < reached.len() ==> {
                let best = best_of(reached)->0;
                ||| best.distance.rank < (#[trigger] reached[i]).distance.rank
                ||| best.distance.rank == reached[i].distance.rank && best.route.leaf@
                    <= reached[i].route.leaf@
            },
{
    best_is_least(reached);
    let best = best_of(reached)->0;
    assert forall|i: int| 0 <= i < reached.len() implies {
        ||| best.distance.rank < (#[trigger] reached[i]).distance.rank
        ||| best.distance.rank == reached[i].distance.rank && best.route.leaf@
            <= reached[i].route.leaf@
    } by {
        smaller_ranks_come_first(
            reached[i].route.leaf,
            reached[i].distance,
            best.route.leaf,
            best.distance,
        );
    }
}

/// The terminal leaves each vector reached, with one more for one of them.
pub open spec fn reach(
    reached: Seq<Seq<RankedRoute>>,
    member: int,
    one: RankedRoute,
) -> Seq<Seq<RankedRoute>> {
    reached.update(member, reached[member].push(one))
}

/// The best terminal leaf of each vector.
pub open spec fn bests(reached: Seq<Seq<RankedRoute>>) -> Seq<Option<RankedRoute>> {
    Seq::new(reached.len(), |m: int| best_of(reached[m]))
}

proof fn reaching_keeps_the_better(
    reached: Seq<Seq<RankedRoute>>,
    member: int,
    one: RankedRoute,
)
    requires
        0 <= member < reached.len(),
    ensures
        bests(reach(reached, member, one)) == bests(reached).update(
            member,
            better(bests(reached)[member], one),
        ),
{
    assert(reached[member].push(one).drop_last() =~= reached[member]);
    assert(bests(reach(reached, member, one)) =~= bests(reached).update(
        member,
        better(bests(reached)[member], one),
    ));
}

/// Keeps the better terminal leaf of one vector.
pub fn consider_write_route(
    routes: &mut Vec<Option<RankedRoute>>,
    member: usize,
    distance: Distance,
    route: Route,
)
    requires
        member < old(routes)@.len(),
    ensures
        final(routes)@ == old(routes)@.update(
            member as int,
            better(old(routes)@[member as int], RankedRoute { distance, route }),
        ),
        all_writable(old(routes)@) && route.leaf_header.state.writable() ==> all_writable(
            final(routes)@,
        ),
{
    let ghost before = routes@;
    let replace = match routes[member] {
        None => true,
        Some(best) => beats(distance, route.leaf, best.distance, best.route.leaf),
    };
    if replace {
        routes.set(member, Some(RankedRoute { distance, route }));
    }
    assert(routes@ =~= before.update(
        member as int,
        better(before[member as int], RankedRoute { distance, route }),
    ));
}

/// The terminal leaves reached after the first `n` members arrived at one leaf.
pub open spec fn arrivals(
    reached: Seq<Seq<RankedRoute>>,
    members: Seq<Member>,
    n: nat,
    leaf: PartitionKey,
    header: PartitionHeader,
) -> Seq<Seq<RankedRoute>>
    decreases n,
{
    if n == 0 {
        reached
    } else {
        let one = members[n - 1];
        let route = Route {
            leaf,
            leaf_header: header,
            parent: one.parent,
            incoming: Incoming::ParentEdge,
        };
        reach(
            arrivals(reached, members, (n - 1) as nat, leaf, header),
            one.member as int,
            RankedRoute { distance: one.distance, route },
        )
    }
}

/// The terminal leaves reached after the first `n` leaf groups arrived.
pub open spec fn group_arrivals(
    reached: Seq<Seq<RankedRoute>>,
    groups: Seq<Group>,
    authorities: Seq<Authority>,
    n: nat,
) -> Seq<Seq<RankedRoute>>
    decreases n,
{
    if n == 0 {
        reached
    } else {
        arrivals(
            group_arrivals(reached, groups, authorities, (n - 1) as nat),
            groups[n - 1].members@,
            groups[n - 1].members@.len(),
            groups[n - 1].key.partition,
            authorities[n - 1].header,
        )
    }
}

/// The route of one member redirected around a draining leaf.
pub open spec fn redirected(
    one: Member,
    distances: (Distance, Distance),
    source: PartitionKey,
    left: DrainTarget,
    right: DrainTarget,
) -> RankedRoute {
    let target = nearer_target(left, distances.0, right, distances.1);
    RankedRoute {
        distance: if target == left {
            distances.0
        } else {
            distances.1
        },
        route: Route {
            leaf: target.partition,
            leaf_header: target.header,
            parent: one.parent,
            incoming: Incoming::SourceSlot(source),
        },
    }
}

/// The terminal leaves reached after the first `n` members were redirected.
pub open spec fn redirects(
    reached: Seq<Seq<RankedRoute>>,
    members: Seq<Member>,
    distances: Seq<(Distance, Distance)>,
    n: nat,
    source: PartitionKey,
    left: DrainTarget,
    right: DrainTarget,
) -> Seq<Seq<RankedRoute>>
    decreases n,
{
    if n == 0 {
        reached
    } else {
        let one = members[n - 1];
        reach(
            redirects(reached, members, distances, (n - 1) as nat, source, left, right),
            one.member as int,
            redirected(one, distances[n - 1], source, left, right),
        )
    }
}

/// A reselected target of one member of a merging partition.
#[derive(Clone, Copy, Debug, PartialEq, Eq, Structural)]
pub struct Reroute {
    /// The reselected partition.
    pub candidate: LevelCandidate,
    /// The member's distance to it.
    pub distance: Distance,
}

/// Whether a reroute names the nearest `Ready` candidate.
pub open spec fn is_reroute(
    source: PartitionKey,
    candidates: Seq<LevelCandidate>,
    distances: Seq<Option<Distance>>,
    chosen: Reroute,
) -> bool {
    exists|best: int| #[trigger]
        nearest_legal(source, candidates, distances, best, candidates.len() as int)
            && chosen.candidate == candidates[best] && distances[best] == Some(chosen.distance)
}

/// The terminal leaf that a reroute ends at.
pub open spec fn rerouted_leaf(target: Reroute) -> RankedRoute {
    RankedRoute {
        distance: target.distance,
        route: Route {
            leaf: target.candidate.partition,
            leaf_header: target.candidate.header,
            parent: Some(target.candidate.parent),
            incoming: Incoming::ParentEdge,
        },
    }
}

/// The terminal leaves reached after the first `n` members of a merging leaf
/// were rerouted.
pub open spec fn leaf_reroutes(
    reached: Seq<Seq<RankedRoute>>,
    members: Seq<Member>,
    chosen: Seq<Reroute>,
    n: nat,
) -> Seq<Seq<RankedRoute>>
    decreases n,
{
    if n == 0 {
        reached
    } else {
        reach(
            leaf_reroutes(reached, members, chosen, (n - 1) as nat),
            members[n - 1].member as int,
            rerouted_leaf(chosen[n - 1]),
        )
    }
}

/// The wave after the first `n` members of a merging internal partition were
/// rerouted.
pub open spec fn wave_reroutes(
    wave: Map<WaveKey, Seq<Member>>,
    members: Seq<Member>,
    chosen: Seq<Reroute>,
    level: u32,
    n: nat,
) -> Map<WaveKey, Seq<Member>>
    decreases n,
{
    if n == 0 {
        wave
    } else {
        let earlier = wave_reroutes(wave, members, chosen, level, (n - 1) as nat);
        let target = chosen[n - 1];
        let key = WaveKey { partition: target.candidate.partition, level: Some(level) };
        let one = Member {
            member: members[n - 1].member,
            parent: Some(target.candidate.parent),
            distance: target.distance,
        };
        earlier.insert(key, waiting_at(earlier, key).push(one))
    }
}

/// The children each vector considered, after the first `n` members considered
/// one scanned Child Entry.
pub open spec fn observed(
    considered: Seq<Seq<ChildCandidate>>,
    members: Seq<Member>,
    distances: Seq<Distance>,
    n: nat,
    child: PartitionKey,
    owner: PartitionKey,
) -> Seq<Seq<ChildCandidate>>
    decreases n,
{
    if n == 0 {
        considered
    } else {
        let earlier = observed(considered, members, distances, (n - 1) as nat, child, owner);
        let at = members[n - 1].member as int;
        earlier.update(
            at,
            earlier[at].push(ChildCandidate { distance: distances[n - 1], child, owner }),
        )
    }
}

/// The waiting members after the first `n` retained children of one vector
/// joined them.
pub open spec fn spread(
    waiting: Map<WaveKey, Seq<Member>>,
    member: usize,
    kept: Seq<ChildCandidate>,
    level: u32,
    n: nat,
) -> Map<WaveKey, Seq<Member>>
    decreases n,
{
    if n == 0 {
        waiting
    } else {
        let earlier = spread(waiting, member, kept, level, (n - 1) as nat);
        let one = kept[n - 1];
        let key = WaveKey { partition: one.child, level: Some(level) };
        earlier.insert(
            key,
            waiting_at(earlier, key).push(
                Member { member, parent: Some(one.owner), distance: one.distance },
            ),
        )
    }
}

/// The waiting members after the retained children of the first `n` vectors
/// joined them.
pub open spec fn spread_all(
    waiting: Map<WaveKey, Seq<Member>>,
    kept: Seq<Seq<ChildCandidate>>,
    level: u32,
    n: nat,
) -> Map<WaveKey, Seq<Member>>
    decreases n,
{
    if n == 0 {
        waiting
    } else {
        spread(
            spread_all(waiting, kept, level, (n - 1) as nat),
            (n - 1) as usize,
            kept[n - 1],
            level,
            kept[n - 1].len(),
        )
    }
}

/// Whether every member of a sequence is a position within a batch.
pub open spec fn positions_fit(members: Seq<Member>, batch: nat) -> bool {
    forall|i: int| 0 <= i < members.len() ==> (#[trigger] members[i]).member < batch
}

/// Whether every waiting member is a position within a batch.
pub open spec fn all_positions_fit(waiting: Map<WaveKey, Seq<Member>>, batch: nat) -> bool {
    forall|key: WaveKey| #[trigger]
        waiting.dom().contains(key) ==> positions_fit(waiting[key], batch)
}

/// The position of a batch within its grouped descent.
pub struct WriteDescent {
    /// The tree root.
    pub root: PartitionKey,
    /// The leaf-level beam width.
    pub beam: u32,
    /// The best terminal leaf of each vector so far.
    pub routes: Vec<Option<RankedRoute>>,
    /// The terminal leaves each vector reached so far.
    pub reached: Ghost<Seq<Seq<RankedRoute>>>,
    /// The members waiting for a later wave.
    pub pending: Waiting,
    /// The members of the current wave whose partition is not resolved yet.
    pub wave: Waiting,
    /// The owner of every child reference observed so far.
    pub owners: HashMap<u64, u64>,
    /// Whether a leaf wave met a leaf that accepts no writes.
    pub leaf_batch_fallback: bool,
    /// The level of the current wave's children, once a group resolved to a
    /// scan.
    pub child_level: Option<u32>,
    /// The nearest children of each vector in the current wave.
    pub nearest: Vec<NearestChildren>,
    /// The children each vector considered in the current wave.
    pub considered: Ghost<Seq<Seq<ChildCandidate>>>,
    /// The bodies to scan in the current wave.
    pub bodies: Vec<Body>,
    /// The scanning group of each body.
    pub body_slots: Vec<usize>,
    /// The members of each scanning group.
    pub scan_members: Vec<Vec<Member>>,
}

/// The outcome of a finished grouped descent.
pub enum GroupedDescent {
    /// Every vector routed to a write-accepting leaf, in input order.
    Routed(Vec<Route>),
    /// A merging partition blocked the descent and its level has no `Ready`
    /// target; the operation retries under its bounded policy.
    NoReadyMergeTarget,
}

impl WriteDescent {
    /// The number of vectors.
    pub open spec fn batch(self) -> nat {
        self.routes@.len()
    }

    /// The nearest children of each vector, as retained so far.
    pub open spec fn kept(self) -> Seq<Seq<ChildCandidate>> {
        self.nearest@.map_values(|children: NearestChildren| children.kept())
    }

    /// The beam width at the level of the current wave's children.
    pub open spec fn width(self) -> nat {
        match self.child_level {
            Some(level) => halved(self.beam, (level - 1) as nat) as nat,
            None => 0,
        }
    }

    /// What every step of the descent keeps.
    pub open spec fn well_formed(self) -> bool {
        &&& self.batch() > 0
        &&& all_writable(self.routes@)
        &&& self.routes@ == bests(self.reached@)
        &&& self.pending.well_formed()
        &&& self.wave.well_formed()
        &&& all_positions_fit(self.pending@, self.batch())
        &&& all_positions_fit(self.wave@, self.batch())
        &&& match self.child_level {
            Some(level) => {
                &&& level > 0
                &&& self.nearest@.len() == self.batch()
                &&& self.considered@.len() == self.batch()
                &&& forall|i: int|
                    0 <= i < self.batch() ==> (#[trigger] self.nearest@[i]).well_formed()
                        && self.nearest@[i].width() == self.width() && self.nearest@[i].kept()
                        == retained(self.considered@[i], self.width())
            },
            None => self.nearest@.len() == 0 && self.considered@.len() == 0 && self.bodies@.len()
                == 0,
        }
        &&& self.body_slots@.len() == self.bodies@.len()
        &&& forall|i: int|
            0 <= i < self.body_slots@.len() ==> #[trigger] self.body_slots@[i]
                < self.scan_members@.len()
        &&& forall|i: int|
            0 <= i < self.scan_members@.len() ==> positions_fit(
                (#[trigger] self.scan_members@[i])@,
                self.batch(),
            )
    }

    /// Whether two positions agree on everything but terminal leaves and the
    /// current wave.
    pub open spec fn same_scan(self, other: WriteDescent) -> bool {
        &&& self.root == other.root
        &&& self.beam == other.beam
        &&& self.pending@ == other.pending@
        &&& self.owners@ == other.owners@
        &&& self.leaf_batch_fallback == other.leaf_batch_fallback
        &&& self.child_level == other.child_level
        &&& self.considered@ == other.considered@
        &&& self.kept() == other.kept()
        &&& self.bodies@ == other.bodies@
        &&& self.body_slots@ == other.body_slots@
        &&& self.scan_members@ == other.scan_members@
    }

    /// Whether two positions agree on everything but terminal leaves, waiting
    /// members, and whether a leaf wave fell back.
    pub open spec fn same_wave(self, other: WriteDescent) -> bool {
        &&& self.root == other.root
        &&& self.beam == other.beam
        &&& self.wave@ == other.wave@
        &&& self.owners@ == other.owners@
        &&& self.child_level == other.child_level
        &&& self.considered@ == other.considered@
        &&& self.kept() == other.kept()
        &&& self.bodies@ == other.bodies@
        &&& self.body_slots@ == other.body_slots@
        &&& self.scan_members@ == other.scan_members@
    }

    /// A batch of vectors about to visit the root.
    pub fn new(root: PartitionKey, batch: usize, beam: u32) -> (res: Self)
        requires
            batch > 0,
        ensures
            started(res, root, batch as nat, beam),
    {
        let mut routes: Vec<Option<RankedRoute>> = Vec::new();
        let mut members: Vec<Member> = Vec::new();
        let mut at: usize = 0;
        while at < batch
            invariant
                at <= batch,
                routes@.len() == at,
                members@.len() == at,
                forall|i: int| 0 <= i < at ==> routes@[i] is None,
                forall|i: int|
                    0 <= i < at ==> {
                        let one = #[trigger] members@[i];
                        one.member == i && one.parent is None && one.distance.rank == 0
                    },
            decreases batch - at,
        {
            routes.push(None);
            members.push(Member { member: at, parent: None, distance: Distance::zero() });
            at = at + 1;
        }
        let key = WaveKey { partition: root, level: None };
        let mut pending = Waiting::new();
        assert(Seq::<Member>::empty() + members@ =~= members@);
        pending.add_all(key, members);
        assert(pending@.dom() =~= set![key]);
        let mut owners: HashMap<u64, u64> = HashMap::new();
        owners.insert(root.get(), root.get());
        assert(owners@ =~= map![root@ => root@]);
        let ghost reached = Seq::new(batch as nat, |i: int| Seq::<RankedRoute>::empty());
        assert(routes@ =~= bests(reached));
        WriteDescent {
            root,
            beam,
            routes,
            reached: Ghost(reached),
            pending,
            wave: Waiting::new(),
            owners,
            leaf_batch_fallback: false,
            child_level: None,
            nearest: Vec::new(),
            considered: Ghost(Seq::empty()),
            bodies: Vec::new(),
            body_slots: Vec::new(),
            scan_members: Vec::new(),
        }
    }

    /// Returns whether no member waits for a wave.
    pub fn is_done(&self) -> (res: bool)
        ensures
            res == (self.pending@.dom() == Set::<WaveKey>::empty()),
    {
        self.pending.is_empty()
    }

    /// Returns whether every waiting member expects a leaf and no leaf wave
    /// fell back yet.
    pub fn expects_leaves(&self) -> (res: bool)
        requires
            self.well_formed(),
        ensures
            res == (!self.leaf_batch_fallback && forall|key: WaveKey| #[trigger]
                self.pending@.dom().contains(key) ==> key.level == Some(1u32)),
    {
        if self.leaf_batch_fallback {
            return false;
        }
        proof {
            self.pending.view_is_ordered();
        }
        let mut at: usize = 0;
        while at < self.pending.len()
            invariant
                self.pending.well_formed(),
                self.pending@ == crate::maintenance::waiting::as_map(self.pending.ordered()),
                at <= self.pending.ordered().len(),
                forall|i: int|
                    0 <= i < at ==> (#[trigger] self.pending.ordered()[i]).key.level == Some(1u32),
            decreases self.pending.ordered().len() - at,
        {
            match self.pending.group(at).key.level {
                Some(level) => {
                    if level != 1 {
                        proof {
                            self.pending.ordered_entry(at as int);
                        }
                        return false;
                    }
                },
                None => {
                    proof {
                        self.pending.ordered_entry(at as int);
                    }
                    return false;
                },
            }
            at = at + 1;
        }
        proof {
            assert forall|key: WaveKey| #[trigger] self.pending@.dom().contains(key) implies
                key.level == Some(1u32) by {
                let groups = self.pending.ordered();
                assert(crate::maintenance::waiting::has_key(groups, key));
                let i = choose|i: int| 0 <= i < groups.len() && (#[trigger] groups[i]).key == key;
                assert(groups[i].key.level == Some(1u32));
            }
        }
        true
    }

    /// Lists the partitions with waiting members, in visiting order.
    pub fn pending_partitions(&self) -> (res: Vec<PartitionKey>)
        ensures
            res@.len() == self.pending.ordered().len(),
            forall|i: int|
                0 <= i < res@.len() ==> #[trigger] res@[i]
                    == self.pending.ordered()[i].key.partition,
    {
        list_partitions(&self.pending)
    }

    /// Finishes a wave whose members all expect a leaf, given the authority
    /// values of the leaves in visiting order: when every leaf accepts writes
    /// every member arrives and nobody waits any more; otherwise nothing moves
    /// and later waves resolve leaf by leaf.
    pub fn finish_leaf_wave(&mut self, authorities: &Vec<Authority>) -> (res: Result<bool>)
        requires
            old(self).well_formed(),
            authorities@.len() == old(self).pending.ordered().len(),
        ensures
            match res {
                Ok(true) => leaves_arrived(*old(self), *final(self), authorities@),
                Ok(false) => leaves_refused(*old(self), *final(self), authorities@),
                Err(error) => {
                    &&& error == plain_error(ErrorKind::Corruption)
                    &&& exists|i: int|
                        0 <= i < authorities@.len() && !leaf_legal(
                            *old(self),
                            #[trigger] authorities@[i],
                            i,
                        )
                    &&& *final(self) == *old(self)
                },
            },
    {
        proof {
            self.pending.view_is_ordered();
        }
        let mut writable = true;
        let mut at: usize = 0;
        while at < authorities.len()
            invariant
                *self == *old(self),
                authorities@.len() == self.pending.ordered().len(),
                at <= authorities@.len(),
                forall|i: int|
                    0 <= i < at ==> leaf_legal(*old(self), #[trigger] authorities@[i], i),
                writable == forall|i: int|
                    0 <= i < at ==> (#[trigger] authorities@[i]).header.state.writable(),
            decreases authorities@.len() - at,
        {
            let authority = authorities[at];
            let partition = self.pending.group(at).key.partition;
            let level = check_level(&authority.header, Some(1));
            let state = check_root_state(self.root, partition, authority.transition);
            if level.is_err() || state.is_err() {
                assert(!leaf_legal(*old(self), authorities@[at as int], at as int));
                return Err(Error::new(ErrorKind::Corruption));
            }
            if !authority.header.state.accepts_writes() {
                writable = false;
                assert(!authorities@[at as int].header.state.writable());
            }
            at = at + 1;
        }
        if !writable {
            self.leaf_batch_fallback = true;
            return Ok(false);
        }
        let ghost start = self.reached@;
        let ghost groups = self.pending.ordered();
        at = 0;
        while at < authorities.len()
            invariant
                authorities@.len() == groups.len(),
                groups == old(self).pending.ordered(),
                start == old(self).reached@,
                at <= authorities@.len(),
                self.reached@.len() == start.len(),
                self.reached@ == group_arrivals(start, groups, authorities@, at as nat),
                self.routes@ == bests(self.reached@),
                all_writable(self.routes@),
                forall|i: int|
                    0 <= i < authorities@.len() ==> (
                    #[trigger] authorities@[i]).header.state.writable(),
                old(self).well_formed(),
                self.pending == old(self).pending,
                self.wave == old(self).wave,
                self.owners == old(self).owners,
                self.root == old(self).root,
                self.beam == old(self).beam,
                self.leaf_batch_fallback == old(self).leaf_batch_fallback,
                self.child_level == old(self).child_level,
                self.nearest == old(self).nearest,
                self.considered == old(self).considered,
                self.bodies == old(self).bodies,
                self.body_slots == old(self).body_slots,
                self.scan_members == old(self).scan_members,
            decreases authorities@.len() - at,
        {
            proof {
                self.pending.ordered_entry(at as int);
                assert(positions_fit(groups[at as int].members@, start.len()));
            }
            let group = self.pending.group(at);
            let ghost reached = self.reached@;
            arrive_all(
                &mut self.routes,
                &group.members,
                group.key.partition,
                authorities[at].header,
                Ghost(reached),
            );
            self.reached = Ghost(
                arrivals(
                    reached,
                    group.members@,
                    group.members@.len(),
                    group.key.partition,
                    authorities@[at as int].header,
                ),
            );
            at = at + 1;
        }
        self.pending = Waiting::new();
        Ok(true)
    }

    /// Starts the next wave: the waiting members that expect the level of the
    /// first one in visiting order. Returns the wave's partitions in visiting
    /// order.
    pub fn begin_wave(&mut self) -> (res: Vec<PartitionKey>)
        requires
            old(self).well_formed(),
            old(self).pending.ordered().len() > 0,
        ensures
            wave_begun(*old(self), *final(self)),
            res@.len() == final(self).wave.ordered().len(),
            forall|i: int|
                0 <= i < res@.len() ==> #[trigger] res@[i]
                    == final(self).wave.ordered()[i].key.partition,
    {
        let level = self.pending.group(0).key.level;
        let ghost before = self.pending@;
        let wave = self.pending.take_level(level);
        proof {
            assert forall|key: WaveKey| #[trigger] wave@.dom().contains(key) implies positions_fit(
                wave@[key],
                self.batch(),
            ) by {
                assert(before.dom().contains(key));
            }
            assert forall|key: WaveKey| #[trigger]
                self.pending@.dom().contains(key) implies positions_fit(
                self.pending@[key],
                self.batch(),
            ) by {
                assert(before.dom().contains(key));
            }
        }
        let partitions = list_partitions(&wave);
        self.wave = wave;
        self.child_level = None;
        self.nearest = Vec::new();
        self.considered = Ghost(Seq::empty());
        self.bodies = Vec::new();
        self.body_slots = Vec::new();
        self.scan_members = Vec::new();
        partitions
    }

    /// Takes the wave's next unresolved group, in visiting order.
    pub fn next_group(&mut self) -> (res: Option<Group>)
        requires
            old(self).well_formed(),
        ensures
            match res {
                Some(group) => group_taken(*old(self), *final(self), group),
                None => old(self).wave@.dom() == Set::<WaveKey>::empty() && *final(self)
                    == *old(self),
            },
    {
        let ghost before = self.wave@;
        let group = self.wave.pop_first();
        proof {
            assert forall|key: WaveKey| #[trigger] self.wave@.dom().contains(key) implies
                positions_fit(self.wave@[key], self.batch()) by {
                assert(before.dom().contains(key));
            }
        }
        group
    }

    /// A group resolved to a write-accepting leaf: its members arrive.
    pub fn arrive(&mut self, group: Group, header: PartitionHeader)
        requires
            old(self).well_formed(),
            header.state.writable(),
            positions_fit(group.members@, old(self).batch()),
        ensures
            arrived(*old(self), *final(self), group, header),
    {
        let ghost reached = self.reached@;
        arrive_all(
            &mut self.routes,
            &group.members,
            group.key.partition,
            header,
            Ghost(reached),
        );
        self.reached = Ghost(
            arrivals(
                reached,
                group.members@,
                group.members@.len(),
                group.key.partition,
                header,
            ),
        );
    }

    /// A group resolved to a draining leaf: each member redirects to its
    /// nearer target.
    pub fn redirect(
        &mut self,
        group: Group,
        left: DrainTarget,
        right: DrainTarget,
        distances: &Vec<(Distance, Distance)>,
    )
        requires
            old(self).well_formed(),
            positions_fit(group.members@, old(self).batch()),
            distances@.len() == group.members@.len(),
            left.header.state.writable(),
            right.header.state.writable(),
        ensures
            drained(*old(self), *final(self), group, left, right, distances@),
    {
        let ghost start = self.reached@;
        let source = group.key.partition;
        let mut at: usize = 0;
        while at < group.members.len()
            invariant
                at <= group.members@.len(),
                distances@.len() == group.members@.len(),
                source == group.key.partition,
                start == old(self).reached@,
                old(self).well_formed(),
                positions_fit(group.members@, start.len()),
                self.reached@.len() == start.len(),
                self.routes@ == bests(self.reached@),
                all_writable(self.routes@),
                left.header.state.writable(),
                right.header.state.writable(),
                self.reached@ == redirects(
                    start,
                    group.members@,
                    distances@,
                    at as nat,
                    source,
                    left,
                    right,
                ),
                *self == (WriteDescent { routes: self.routes, reached: self.reached, ..*old(self) }),
            decreases group.members@.len() - at,
        {
            let one = group.members[at];
            let (left_distance, right_distance) = distances[at];
            let target = nearer_redirect_target(left, left_distance, right, right_distance);
            let distance = if target == left {
                left_distance
            } else {
                right_distance
            };
            consider_write_route(
                &mut self.routes,
                one.member,
                distance,
                Route {
                    leaf: target.partition,
                    leaf_header: target.header,
                    parent: one.parent,
                    incoming: Incoming::SourceSlot(source),
                },
            );
            proof {
                let ranked = redirected(one, distances@[at as int], source, left, right);
                reaching_keeps_the_better(self.reached@, one.member as int, ranked);
                self.reached@ = reach(self.reached@, one.member as int, ranked);
            }
            at = at + 1;
        }
    }

    /// A group resolved to a scan of bodies: its members wait for the scan.
    /// Groups of one wave that disagree on the level of their children are
    /// Corruption.
    pub fn scan(&mut self, group: Group, hop_bodies: &Vec<Body>, next_level: u32) -> (res: Result<
        (),
    >)
        requires
            old(self).well_formed(),
            positions_fit(group.members@, old(self).batch()),
            next_level > 0,
        ensures
            match res {
                Ok(()) => scanning(*old(self), *final(self), group, hop_bodies@, next_level),
                Err(error) => {
                    &&& old(self).child_level matches Some(level) && level != next_level
                    &&& error == plain_error(ErrorKind::Corruption)
                    &&& *final(self) == *old(self)
                },
            },
    {
        match self.child_level {
            Some(level) => {
                if level != next_level {
                    return Err(Error::new(ErrorKind::Corruption));
                }
            },
            None => {
                let width: u32 = beam_width(self.beam, next_level);
                let mut nearest: Vec<NearestChildren> = Vec::new();
                let mut at: usize = 0;
                while at < self.routes.len()
                    invariant
                        at <= self.routes@.len(),
                        nearest@.len() == at,
                        forall|i: int|
                            0 <= i < at ==> (#[trigger] nearest@[i]).well_formed()
                                && nearest@[i].width() == width && nearest@[i].kept() == Seq::<
                                ChildCandidate,
                            >::empty(),
                    decreases self.routes@.len() - at,
                {
                    nearest.push(NearestChildren::new(width as usize));
                    at = at + 1;
                }
                self.nearest = nearest;
                self.considered = Ghost(
                    Seq::new(self.batch(), |i: int| Seq::<ChildCandidate>::empty()),
                );
                self.child_level = Some(next_level);
            },
        }
        let slot: usize = self.scan_members.len();
        self.scan_members.push(group.members);
        let ghost bodies = self.bodies@;
        let ghost slots = self.body_slots@;
        let mut at: usize = 0;
        while at < hop_bodies.len()
            invariant
                at <= hop_bodies@.len(),
                self.bodies@ == bodies + hop_bodies@.take(at as int),
                self.body_slots@ == slots + Seq::new(at as nat, |i: int| slot),
                *self == (WriteDescent {
                    bodies: self.bodies,
                    body_slots: self.body_slots,
                    root: self.root,
                    beam: self.beam,
                    routes: self.routes,
                    pending: self.pending,
                    wave: self.wave,
                    owners: self.owners,
                    leaf_batch_fallback: self.leaf_batch_fallback,
                    child_level: self.child_level,
                    nearest: self.nearest,
                    considered: self.considered,
                    reached: self.reached,
                    scan_members: self.scan_members,
                }),
                self.root == old(self).root,
                self.beam == old(self).beam,
                self.routes == old(self).routes,
                self.reached == old(self).reached,
                self.pending == old(self).pending,
                self.wave == old(self).wave,
                self.owners == old(self).owners,
                self.leaf_batch_fallback == old(self).leaf_batch_fallback,
                self.child_level == Some(next_level),
                self.considered@ == if old(self).child_level is Some {
                    old(self).considered@
                } else {
                    Seq::new(old(self).batch(), |i: int| Seq::<ChildCandidate>::empty())
                },
                self.nearest@.len() == self.routes@.len(),
                self.considered@.len() == self.routes@.len(),
                forall|i: int|
                    0 <= i < self.nearest@.len() ==> (#[trigger] self.nearest@[i]).well_formed()
                        && self.nearest@[i].width() == self.width() && self.nearest@[i].kept()
                        == retained(self.considered@[i], self.width()),
                self.scan_members@ == old(self).scan_members@.push(group.members),
            decreases hop_bodies@.len() - at,
        {
            self.bodies.push(hop_bodies[at]);
            self.body_slots.push(slot);
            assert(hop_bodies@.take(at + 1) =~= hop_bodies@.take(at as int).push(
                hop_bodies@[at as int],
            ));
            assert(self.bodies@ =~= bodies + hop_bodies@.take(at + 1));
            assert(self.body_slots@ =~= slots + Seq::new((at + 1) as nat, |i: int| slot));
            at = at + 1;
        }
        proof {
            assert(hop_bodies@.take(hop_bodies@.len() as int) =~= hop_bodies@);
            assert forall|i: int| 0 <= i < self.body_slots@.len() implies #[trigger]
                self.body_slots@[i] < self.scan_members@.len() by {
                if i < slots.len() {
                    assert(self.body_slots@[i] == slots[i]);
                }
            }
            assert forall|i: int| 0 <= i < self.scan_members@.len() implies positions_fit(
                (#[trigger] self.scan_members@[i])@,
                self.batch(),
            ) by {
                if i < slot {
                    assert(self.scan_members@[i] == old(self).scan_members@[i]);
                }
            }
        }
        Ok(())
    }

    /// A group resolved sideways: its members join the wave at the split
    /// source, at the same level.
    pub fn sideways(&mut self, group: Group, source: PartitionKey)
        requires
            old(self).well_formed(),
            positions_fit(group.members@, old(self).batch()),
        ensures
            moved_sideways(*old(self), *final(self), group, source),
    {
        let ghost before = self.wave@;
        let key = WaveKey { partition: source, level: group.key.level };
        let ghost members = group.members@;
        self.wave.add_all(key, group.members);
        proof {
            insert_keeps_positions(before, key, waiting_at(before, key) + members, self.batch());
        }
    }

    /// A group resolved to a merging partition: each member reselects the
    /// nearest `Ready` candidate of the level, arriving there at a leaf level
    /// and rejoining the wave above. Returns `false` when some member has no
    /// candidate, which ends the descent.
    pub fn reroute(
        &mut self,
        group: Group,
        level: u32,
        candidates: &Vec<LevelCandidate>,
        distances: &Vec<Vec<Option<Distance>>>,
    ) -> (res: Result<bool>)
        requires
            old(self).well_formed(),
            positions_fit(group.members@, old(self).batch()),
            distances@.len() == group.members@.len(),
            forall|i: int|
                0 <= i < distances@.len() ==> (#[trigger] distances@[i])@.len()
                    == candidates@.len(),
        ensures
            match res {
                Ok(true) => exists|chosen: Seq<Reroute>| #[trigger]
                    rerouted(
                        *old(self),
                        *final(self),
                        group,
                        level,
                        candidates@,
                        distances@,
                        chosen,
                    ),
                Ok(false) => {
                    &&& *final(self) == *old(self)
                    &&& group.members@.len() > 0
                    &&& forall|i: int|
                        0 <= i < candidates@.len() ==> !(#[trigger] candidates@[i]).legal_for(
                            group.key.partition,
                        )
                },
                Err(error) => {
                    &&& *final(self) == *old(self)
                    &&& error == plain_error(ErrorKind::Corruption)
                    &&& exists|i: int, j: int|
                        0 <= i < distances@.len() && 0 <= j < candidates@.len() && (
                        #[trigger] candidates@[j]).legal_for(group.key.partition) && (
                        #[trigger] distances@[i])@[j] is None
                },
            },
    {
        let source = group.key.partition;
        let mut chosen: Vec<Reroute> = Vec::new();
        let mut at: usize = 0;
        while at < group.members.len()
            invariant
                at <= group.members@.len(),
                distances@.len() == group.members@.len(),
                source == group.key.partition,
                forall|i: int|
                    0 <= i < distances@.len() ==> (#[trigger] distances@[i])@.len()
                        == candidates@.len(),
                chosen@.len() == at,
                forall|i: int|
                    0 <= i < at ==> is_reroute(
                        source,
                        candidates@,
                        distances@[i]@,
                        #[trigger] chosen@[i],
                    ),
                *self == *old(self),
            decreases group.members@.len() - at,
        {
            let measured = &distances[at];
            assert(measured@.len() == candidates@.len());
            match nearest_ready_candidate(source, candidates, measured) {
                Err(error) => {
                    proof {
                        let j = choose|j: int|
                            0 <= j < candidates@.len() && (#[trigger] candidates@[j]).legal_for(
                                source,
                            ) && measured@[j] is None;
                        assert(distances@[at as int]@[j] is None);
                    }
                    return Err(error);
                },
                Ok(None) => {
                    return Ok(false);
                },
                Ok(Some(best)) => {
                    let distance = match measured[best] {
                        Some(distance) => distance,
                        None => Distance::zero(),
                    };
                    let target = Reroute { candidate: candidates[best], distance };
                    assert(nearest_legal(
                        source,
                        candidates@,
                        measured@,
                        best as int,
                        candidates@.len() as int,
                    ));
                    assert(is_reroute(source, candidates@, distances@[at as int]@, target));
                    chosen.push(target);
                },
            }
            at = at + 1;
        }
        if level == 1 {
            at = 0;
            while at < group.members.len()
                invariant
                    at <= group.members@.len(),
                    chosen@.len() == group.members@.len(),
                    old(self).well_formed(),
                    positions_fit(group.members@, old(self).batch()),
                    self.reached@.len() == old(self).routes@.len(),
                    self.routes@ == bests(self.reached@),
                    all_writable(self.routes@),
                    forall|i: int|
                        0 <= i < chosen@.len() ==> is_reroute(
                            source,
                            candidates@,
                            distances@[i]@,
                            #[trigger] chosen@[i],
                        ),
                    self.reached@ == leaf_reroutes(
                        old(self).reached@,
                        group.members@,
                        chosen@,
                        at as nat,
                    ),
                    *self == (WriteDescent { routes: self.routes, reached: self.reached, ..*old(self) }),
                decreases group.members@.len() - at,
            {
                let one = group.members[at];
                let target = chosen[at];
                assert(is_reroute(source, candidates@, distances@[at as int]@, target));
                consider_write_route(
                    &mut self.routes,
                    one.member,
                    target.distance,
                    Route {
                        leaf: target.candidate.partition,
                        leaf_header: target.candidate.header,
                        parent: Some(target.candidate.parent),
                        incoming: Incoming::ParentEdge,
                    },
                );
                proof {
                    let ranked = rerouted_leaf(target);
                    reaching_keeps_the_better(self.reached@, one.member as int, ranked);
                    self.reached@ = reach(self.reached@, one.member as int, ranked);
                }
                at = at + 1;
            }
        } else {
            at = 0;
            while at < group.members.len()
                invariant
                    at <= group.members@.len(),
                    chosen@.len() == group.members@.len(),
                    old(self).well_formed(),
                    positions_fit(group.members@, old(self).batch()),
                    self.wave.well_formed(),
                    all_positions_fit(self.wave@, old(self).batch()),
                    self.wave@ == wave_reroutes(
                        old(self).wave@,
                        group.members@,
                        chosen@,
                        level,
                        at as nat,
                    ),
                    *self == (WriteDescent { wave: self.wave, ..*old(self) }),
                decreases group.members@.len() - at,
            {
                let one = group.members[at];
                let target = chosen[at];
                let key = WaveKey { partition: target.candidate.partition, level: Some(level) };
                let ghost before = self.wave@;
                let rejoined = Member {
                    member: one.member,
                    parent: Some(target.candidate.parent),
                    distance: target.distance,
                };
                self.wave.add_one(key, rejoined);
                proof {
                    insert_keeps_positions(
                        before,
                        key,
                        waiting_at(before, key).push(rejoined),
                        old(self).batch(),
                    );
                }
                at = at + 1;
            }
        }
        assert(rerouted(
            *old(self),
            *self,
            group,
            level,
            candidates@,
            distances@,
            chosen@,
        ));
        Ok(true)
    }

    /// Notes one scanned Child Entry of a body: every member waiting for the
    /// body considers the child. A child that two bodies own is Corruption.
    pub fn observe_entry(
        &mut self,
        body: usize,
        child: PartitionKey,
        distances: &Vec<Distance>,
    ) -> (res: Result<()>)
        requires
            old(self).well_formed(),
            body < old(self).bodies@.len(),
            distances@.len() == old(self).scan_members@[old(self).body_slots@[body as int] as int]@.len(),
        ensures
            ({
                let owner = old(self).bodies@[body as int].partition;
                let known = old(self).owners@;
                let contradicted = known.dom().contains(child@) && known[child@] != owner@;
                match res {
                    Ok(()) => !contradicted && entry_observed(
                        *old(self),
                        *final(self),
                        body as int,
                        child,
                        distances@,
                    ),
                    Err(error) => {
                        &&& contradicted
                        &&& error == plain_error(ErrorKind::Corruption)
                        &&& *final(self) == *old(self)
                    },
                }
            }),
    {
        let owner = self.bodies[body].partition;
        let slot: usize = self.body_slots[body];
        if let Some(known) = self.owners.get(&child.get()) {
            if *known != owner.get() {
                return Err(Error::new(ErrorKind::Corruption));
            }
        }
        self.owners.insert(child.get(), owner.get());
        let ghost width = self.width();
        let ghost considered = self.considered@;
        let ghost members = self.scan_members@[slot as int]@;
        let mut at: usize = 0;
        while at < self.scan_members[slot].len()
            invariant
                slot < self.scan_members@.len(),
                members == self.scan_members@[slot as int]@,
                at <= members.len(),
                distances@.len() == members.len(),
                old(self).well_formed(),
                old(self).child_level is Some,
                positions_fit(members, old(self).batch()),
                width == old(self).width(),
                self.nearest@.len() == old(self).batch(),
                self.considered@.len() == old(self).batch(),
                forall|i: int|
                    0 <= i < self.nearest@.len() ==> (#[trigger] self.nearest@[i]).well_formed()
                        && self.nearest@[i].width() == width && self.nearest@[i].kept()
                        == retained(self.considered@[i], width),
                considered == old(self).considered@,
                self.considered@ == observed(
                    considered,
                    members,
                    distances@,
                    at as nat,
                    child,
                    owner,
                ),
                self.root == old(self).root,
                self.beam == old(self).beam,
                self.routes == old(self).routes,
                self.reached == old(self).reached,
                self.pending == old(self).pending,
                self.wave == old(self).wave,
                self.leaf_batch_fallback == old(self).leaf_batch_fallback,
                self.child_level == old(self).child_level,
                self.bodies == old(self).bodies,
                self.body_slots == old(self).body_slots,
                self.scan_members == old(self).scan_members,
                self.owners@ == old(self).owners@.insert(child@, owner@),
            decreases members.len() - at,
        {
            let one = self.scan_members[slot][at];
            let ghost now = self.nearest@;
            let ghost before = self.considered@[one.member as int];
            let ghost seen = ChildCandidate { distance: distances@[at as int], child, owner };
            let children = &mut self.nearest[one.member];
            children.consider(ChildCandidate { distance: distances[at], child, owner });
            proof {
                let next = self.nearest@;
                let target = one.member as int;
                assert(next.len() == now.len());
                assert(forall|i: int|
                    0 <= i < now.len() && i != target ==> #[trigger] next[i] == now[i]);
                assert(before.push(seen).drop_last() =~= before);
                self.considered@ = self.considered@.update(target, before.push(seen));
                assert(next[target].kept() == retained(before.push(seen), width));
            }
            at = at + 1;
        }
        Ok(())
    }

    /// Ends the wave: the children each vector retained become the members of
    /// the next one.
    pub fn finish_wave(&mut self)
        requires
            old(self).well_formed(),
        ensures
            wave_finished(*old(self), *final(self)),
    {
        let ghost kept = self.kept();
        let mut nearest: Vec<NearestChildren> = Vec::new();
        core::mem::swap(&mut nearest, &mut self.nearest);
        if let Some(level) = self.child_level {
            let ghost start = self.pending@;
            let ghost batch = self.batch();
            // Selections are consumed from the last vector's; reversing first
            // keeps the vectors in input order.
            let mut reversed: Vec<NearestChildren> = Vec::new();
            while nearest.len() > 0
                invariant
                    nearest@.len() + reversed@.len() == batch,
                    kept.len() == batch,
                    forall|i: int|
                        0 <= i < nearest@.len() ==> (#[trigger] nearest@[i]).kept() == kept[i],
                    forall|i: int|
                        0 <= i < reversed@.len() ==> (#[trigger] reversed@[i]).kept() == kept[batch
                            - 1 - i],
                decreases nearest@.len(),
            {
                if let Some(one) = nearest.pop() {
                    reversed.push(one);
                }
            }
            let mut member: usize = 0;
            while member < self.routes.len()
                invariant
                    member <= batch,
                    batch == self.routes@.len(),
                    kept.len() == batch,
                    reversed@.len() == batch - member,
                    forall|i: int|
                        0 <= i < reversed@.len() ==> (#[trigger] reversed@[i]).kept() == kept[batch
                            - 1 - i],
                    self.pending.well_formed(),
                    all_positions_fit(self.pending@, batch),
                    self.pending@ == spread_all(start, kept, level, member as nat),
                    self.root == old(self).root,
                    self.beam == old(self).beam,
                    self.routes == old(self).routes,
                    self.reached == old(self).reached,
                    self.wave == old(self).wave,
                    self.owners == old(self).owners,
                    self.leaf_batch_fallback == old(self).leaf_batch_fallback,
                decreases batch - member,
            {
                if let Some(children) = reversed.pop() {
                    let best = children.into_best();
                    assert(best@ == kept[member as int]);
                    let ghost base = self.pending@;
                    let mut at: usize = 0;
                    while at < best.len()
                        invariant
                            at <= best@.len(),
                            member < batch,
                            self.pending.well_formed(),
                            all_positions_fit(self.pending@, batch),
                            self.pending@ == spread(base, member, best@, level, at as nat),
                            self.root == old(self).root,
                            self.beam == old(self).beam,
                            self.routes == old(self).routes,
                            self.reached == old(self).reached,
                            self.wave == old(self).wave,
                            self.owners == old(self).owners,
                            self.leaf_batch_fallback == old(self).leaf_batch_fallback,
                        decreases best@.len() - at,
                    {
                        let one = best[at];
                        let key = WaveKey { partition: one.child, level: Some(level) };
                        let joined = Member {
                            member,
                            parent: Some(one.owner),
                            distance: one.distance,
                        };
                        let ghost before = self.pending@;
                        self.pending.add_one(key, joined);
                        proof {
                            insert_keeps_positions(
                                before,
                                key,
                                waiting_at(before, key).push(joined),
                                batch,
                            );
                        }
                        at = at + 1;
                    }
                }
                member = member + 1;
            }
        }
        self.child_level = None;
        self.nearest = Vec::new();
        self.considered = Ghost(Seq::empty());
        self.bodies = Vec::new();
        self.body_slots = Vec::new();
        self.scan_members = Vec::new();
    }

    /// Ends the descent: the best of the terminal leaves each vector reached,
    /// in input order. A vector without one is a backend fault. Every leaf
    /// accepts writes.
    pub fn into_routes(self) -> (res: Result<Vec<Route>>)
        requires
            self.well_formed(),
        ensures
            res matches Ok(routes) ==> forall|i: int|
                0 <= i < routes@.len() ==> (#[trigger] routes@[i]).leaf_header.state.writable(),
            match res {
                Ok(routes) => {
                    &&& routes@.len() == self.routes@.len()
                    &&& forall|i: int|
                        0 <= i < routes@.len() ==> best_of(self.reached@[i]) is Some
                            && #[trigger] routes@[i] == best_of(self.reached@[i])->0.route
                },
                Err(error) => {
                    &&& error == plain_error(ErrorKind::Backend)
                    &&& exists|i: int|
                        0 <= i < self.routes@.len() && (#[trigger] self.reached@[i]).len() == 0
                },
            },
    {
        let mut routes: Vec<Route> = Vec::new();
        let mut at: usize = 0;
        while at < self.routes.len()
            invariant
                self.well_formed(),
                at <= self.routes@.len(),
                routes@.len() == at,
                forall|i: int|
                    0 <= i < at ==> (#[trigger] routes@[i]).leaf_header.state.writable(),
                forall|i: int|
                    0 <= i < at ==> self.routes@[i] is Some && #[trigger] routes@[i]
                        == self.routes@[i]->0.route,
            decreases self.routes@.len() - at,
        {
            match self.routes[at] {
                Some(ranked) => routes.push(ranked.route),
                None => {
                    proof {
                        best_is_least(self.reached@[at as int]);
                        assert(self.routes@[at as int] == best_of(self.reached@[at as int]));
                        assert(self.reached@[at as int].len() == 0);
                    }
                    return Err(Error::new(ErrorKind::Backend));
                },
            }
            at = at + 1;
        }
        Ok(routes)
    }
}

/// Whether a batch of vectors is about to visit the root.
pub open spec fn started(
    descent: WriteDescent,
    root: PartitionKey,
    batch: nat,
    beam: u32,
) -> bool {
    let key = WaveKey { partition: root, level: None };
    &&& descent.well_formed()
    &&& descent.root == root
    &&& descent.beam == beam
    &&& descent.batch() == batch
    &&& forall|i: int| 0 <= i < batch ==> descent.routes@[i] is None
    &&& descent.reached@ == Seq::new(batch, |i: int| Seq::<RankedRoute>::empty())
    &&& descent.pending@.dom() == set![key]
    &&& descent.pending@[key].len() == batch
    &&& forall|i: int|
        0 <= i < batch ==> {
            let one = #[trigger] descent.pending@[key][i];
            one.member == i && one.parent is None && one.distance.rank == 0
        }
    &&& descent.wave@ == Map::<WaveKey, Seq<Member>>::empty()
    &&& descent.owners@ == map![root@ => root@]
    &&& !descent.leaf_batch_fallback
    &&& descent.child_level is None
    &&& descent.scan_members@.len() == 0
}

/// Whether every leaf of a leaf wave was legal and accepted writes, and every
/// waiting member arrived.
pub open spec fn leaves_arrived(
    before: WriteDescent,
    after: WriteDescent,
    authorities: Seq<Authority>,
) -> bool {
    &&& after.well_formed()
    &&& forall|i: int|
        0 <= i < authorities.len() ==> leaf_legal(before, #[trigger] authorities[i], i)
            && authorities[i].header.state.writable()
    &&& after.same_wave(before)
    &&& after.leaf_batch_fallback == before.leaf_batch_fallback
    &&& after.reached@ == group_arrivals(
        before.reached@,
        before.pending.ordered(),
        authorities,
        authorities.len(),
    )
    &&& after.pending@ == Map::<WaveKey, Seq<Member>>::empty()
}

/// Whether every leaf of a leaf wave was legal but some accepted no writes, so
/// that nothing moved.
pub open spec fn leaves_refused(
    before: WriteDescent,
    after: WriteDescent,
    authorities: Seq<Authority>,
) -> bool {
    &&& after.well_formed()
    &&& forall|i: int|
        0 <= i < authorities.len() ==> leaf_legal(before, #[trigger] authorities[i], i)
    &&& exists|i: int|
        0 <= i < authorities.len() && !(#[trigger] authorities[i]).header.state.writable()
    &&& after.same_wave(before)
    &&& after.leaf_batch_fallback
    &&& after.reached@ == before.reached@
    &&& after.pending@ == before.pending@
    &&& after.pending.ordered() == before.pending.ordered()
}

/// Whether a wave began with the waiting members that expect the level of the
/// first one in visiting order.
pub open spec fn wave_begun(before: WriteDescent, after: WriteDescent) -> bool {
    let level = before.pending.ordered()[0].key.level;
    &&& after.well_formed()
    &&& after.root == before.root
    &&& after.beam == before.beam
    &&& after.reached@ == before.reached@
    &&& after.owners@ == before.owners@
    &&& after.leaf_batch_fallback == before.leaf_batch_fallback
    &&& after.wave@ == before.pending@.restrict(
        before.pending@.dom().filter(|key: WaveKey| key.level == level),
    )
    &&& after.pending@ == before.pending@.restrict(
        before.pending@.dom().filter(|key: WaveKey| key.level != level),
    )
    &&& after.child_level is None
    &&& after.bodies@.len() == 0
    &&& after.scan_members@.len() == 0
}

/// Whether the wave's first unresolved group in visiting order was taken.
pub open spec fn group_taken(before: WriteDescent, after: WriteDescent, group: Group) -> bool {
    &&& after.well_formed()
    &&& after.same_scan(before)
    &&& after.reached@ == before.reached@
    &&& before.wave@.dom().contains(group.key)
    &&& group.members@ == before.wave@[group.key]
    &&& forall|key: WaveKey| #[trigger]
        before.wave@.dom().contains(key) ==> key == group.key || key_less(group.key, key)
    &&& positions_fit(group.members@, before.batch())
    &&& after.wave@ == before.wave@.remove(group.key)
}

/// Whether a group's members arrived at its leaf.
pub open spec fn arrived(
    before: WriteDescent,
    after: WriteDescent,
    group: Group,
    header: PartitionHeader,
) -> bool {
    &&& after.well_formed()
    &&& after.same_scan(before)
    &&& after.wave@ == before.wave@
    &&& after.reached@ == arrivals(
        before.reached@,
        group.members@,
        group.members@.len(),
        group.key.partition,
        header,
    )
}

/// Whether a group's members were redirected around its draining leaf.
pub open spec fn drained(
    before: WriteDescent,
    after: WriteDescent,
    group: Group,
    left: DrainTarget,
    right: DrainTarget,
    distances: Seq<(Distance, Distance)>,
) -> bool {
    &&& after.well_formed()
    &&& after.same_scan(before)
    &&& after.wave@ == before.wave@
    &&& after.reached@ == redirects(
        before.reached@,
        group.members@,
        distances,
        group.members@.len(),
        group.key.partition,
        left,
        right,
    )
}

/// Whether a group's members started to wait for a scan of bodies.
pub open spec fn scanning(
    before: WriteDescent,
    after: WriteDescent,
    group: Group,
    hop_bodies: Seq<Body>,
    next_level: u32,
) -> bool {
    let slot = before.scan_members@.len();
    &&& before.child_level matches Some(level) ==> level == next_level
    &&& after.well_formed()
    &&& after.root == before.root
    &&& after.beam == before.beam
    &&& after.reached@ == before.reached@
    &&& after.pending@ == before.pending@
    &&& after.wave@ == before.wave@
    &&& after.owners@ == before.owners@
    &&& after.leaf_batch_fallback == before.leaf_batch_fallback
    &&& after.child_level == Some(next_level)
    &&& after.considered@ == if before.child_level is Some {
        before.considered@
    } else {
        Seq::new(before.batch(), |i: int| Seq::<ChildCandidate>::empty())
    }
    &&& after.bodies@ == before.bodies@ + hop_bodies
    &&& after.scan_members@.len() == slot + 1
    &&& forall|i: int| 0 <= i < slot ==> after.scan_members@[i] == before.scan_members@[i]
    &&& after.scan_members@[slot as int]@ == group.members@
    &&& after.body_slots@ == before.body_slots@ + Seq::new(
        hop_bodies.len(),
        |i: int| slot as usize,
    )
}

/// Whether a group's members joined the wave at a split source.
pub open spec fn moved_sideways(
    before: WriteDescent,
    after: WriteDescent,
    group: Group,
    source: PartitionKey,
) -> bool {
    let key = WaveKey { partition: source, level: group.key.level };
    &&& after.well_formed()
    &&& after.same_scan(before)
    &&& after.reached@ == before.reached@
    &&& after.wave@ == before.wave@.insert(
        key,
        waiting_at(before.wave@, key) + group.members@,
    )
}

/// Whether every member waiting for a body considered one of its children.
pub open spec fn entry_observed(
    before: WriteDescent,
    after: WriteDescent,
    body: int,
    child: PartitionKey,
    distances: Seq<Distance>,
) -> bool {
    let owner = before.bodies@[body].partition;
    let members = before.scan_members@[before.body_slots@[body] as int]@;
    &&& after.well_formed()
    &&& after.root == before.root
    &&& after.beam == before.beam
    &&& after.reached@ == before.reached@
    &&& after.pending@ == before.pending@
    &&& after.wave@ == before.wave@
    &&& after.leaf_batch_fallback == before.leaf_batch_fallback
    &&& after.child_level == before.child_level
    &&& after.bodies@ == before.bodies@
    &&& after.body_slots@ == before.body_slots@
    &&& after.scan_members@ == before.scan_members@
    &&& after.owners@ == before.owners@.insert(child@, owner@)
    &&& after.considered@ == observed(
        before.considered@,
        members,
        distances,
        members.len(),
        child,
        owner,
    )
}

/// Whether the wave ended and the children each vector retained became the
/// members of the next one.
pub open spec fn wave_finished(before: WriteDescent, after: WriteDescent) -> bool {
    &&& after.well_formed()
    &&& after.root == before.root
    &&& after.beam == before.beam
    &&& after.reached@ == before.reached@
    &&& after.wave@ == before.wave@
    &&& after.owners@ == before.owners@
    &&& after.leaf_batch_fallback == before.leaf_batch_fallback
    &&& after.child_level is None
    &&& after.scan_members@.len() == 0
    &&& after.pending@ == match before.child_level {
        Some(level) => spread_all(before.pending@, before.kept(), level, before.batch()),
        None => before.pending@,
    }
}

/// Whether a step rerouted a group's members to the chosen candidates: each
/// the nearest `Ready` one of its member, arrived at from a leaf level and
/// waiting in the wave otherwise.
pub open spec fn rerouted(
    before: WriteDescent,
    after: WriteDescent,
    group: Group,
    level: u32,
    candidates: Seq<LevelCandidate>,
    distances: Seq<Vec<Option<Distance>>>,
    chosen: Seq<Reroute>,
) -> bool {
    &&& chosen.len() == group.members@.len()
    &&& forall|i: int|
        0 <= i < chosen.len() ==> is_reroute(
            group.key.partition,
            candidates,
            distances[i]@,
            #[trigger] chosen[i],
        )
    &&& after.well_formed()
    &&& after.same_scan(before)
    &&& after.reached@ == if level == 1 {
        leaf_reroutes(before.reached@, group.members@, chosen, chosen.len())
    } else {
        before.reached@
    }
    &&& after.wave@ == if level == 1 {
        before.wave@
    } else {
        wave_reroutes(before.wave@, group.members@, chosen, level, chosen.len())
    }
}

/// Whether one leaf of a leaf wave sits at level one in a legal root state.
pub open spec fn leaf_legal(descent: WriteDescent, authority: Authority, at: int) -> bool {
    &&& level_fits(authority.header, Some(1))
    &&& root_state_fits(
        descent.root,
        descent.pending.ordered()[at].key.partition,
        authority.transition,
    )
}

proof fn insert_keeps_positions(
    map: Map<WaveKey, Seq<Member>>,
    key: WaveKey,
    members: Seq<Member>,
    batch: nat,
)
    requires
        all_positions_fit(map, batch),
        positions_fit(members, batch),
    ensures
        all_positions_fit(map.insert(key, members), batch),
{
}

fn list_partitions(waiting: &Waiting) -> (res: Vec<PartitionKey>)
    ensures
        res@.len() == waiting.ordered().len(),
        forall|i: int|
            0 <= i < res@.len() ==> #[trigger] res@[i] == waiting.ordered()[i].key.partition,
{
    let mut partitions: Vec<PartitionKey> = Vec::new();
    let mut at: usize = 0;
    while at < waiting.len()
        invariant
            at <= waiting.ordered().len(),
            partitions@.len() == at,
            forall|i: int|
                0 <= i < at ==> #[trigger] partitions@[i] == waiting.ordered()[i].key.partition,
        decreases waiting.ordered().len() - at,
    {
        partitions.push(waiting.group(at).key.partition);
        at = at + 1;
    }
    partitions
}

fn arrive_all(
    routes: &mut Vec<Option<RankedRoute>>,
    members: &Vec<Member>,
    leaf: PartitionKey,
    header: PartitionHeader,
    Ghost(reached): Ghost<Seq<Seq<RankedRoute>>>,
)
    requires
        positions_fit(members@, old(routes)@.len()),
        old(routes)@ == bests(reached),
    ensures
        all_writable(old(routes)@) && header.state.writable() ==> all_writable(final(routes)@),
        arrivals(reached, members@, members@.len(), leaf, header).len() == reached.len(),
        final(routes)@ == bests(arrivals(reached, members@, members@.len(), leaf, header)),
{
    let mut at: usize = 0;
    let ghost mut now = reached;
    while at < members.len()
        invariant
            at <= members@.len(),
            positions_fit(members@, reached.len()),
            now.len() == reached.len(),
            routes@ == bests(now),
            all_writable(old(routes)@) && header.state.writable() ==> all_writable(routes@),
            now == arrivals(reached, members@, at as nat, leaf, header),
        decreases members@.len() - at,
    {
        let one = members[at];
        let route = Route {
            leaf,
            leaf_header: header,
            parent: one.parent,
            incoming: Incoming::ParentEdge,
        };
        consider_write_route(routes, one.member, one.distance, route);
        proof {
            let ranked = RankedRoute { distance: one.distance, route };
            reaching_keeps_the_better(now, one.member as int, ranked);
            now = reach(now, one.member as int, ranked);
        }
        at = at + 1;
    }
}

/// A member that arrives at a leaf remembers it with the distance and the parent
/// it came by, behind what it reached before; no other member changes.
pub proof fn members_arrive_with_their_own_distance(
    reached: Seq<Seq<RankedRoute>>,
    one: Member,
    leaf: PartitionKey,
    header: PartitionHeader,
    other: int,
)
    requires
        one.member < reached.len(),
    ensures
        ({
            let after = arrivals(reached, seq![one], 1, leaf, header);
            let mine = after[one.member as int];
            &&& after.len() == reached.len()
            &&& mine.len() == reached[one.member as int].len() + 1
            &&& mine.last().distance == one.distance
            &&& mine.last().route.leaf == leaf
            &&& mine.last().route.leaf_header == header
            &&& mine.last().route.parent == one.parent
            &&& mine.last().route.incoming == Incoming::ParentEdge
            &&& 0 <= other < reached.len() && other != one.member ==> after[other]
                == reached[other]
        }),
{
    reveal_with_fuel(arrivals, 2);
}

/// A member redirected around a draining leaf goes to the target of the smaller
/// rank, keeps that distance, and remembers the leaf it left.
pub proof fn redirected_members_go_to_the_smaller_rank(
    one: Member,
    distances: (Distance, Distance),
    source: PartitionKey,
    left: DrainTarget,
    right: DrainTarget,
)
    requires
        left.partition != right.partition,
    ensures
        ({
            let route = redirected(one, distances, source, left, right);
            &&& route.distance.rank <= distances.0.rank
            &&& route.distance.rank <= distances.1.rank
            &&& distances.0.rank < distances.1.rank ==> route.route.leaf == left.partition
                && route.route.leaf_header == left.header && route.distance == distances.0
            &&& distances.1.rank < distances.0.rank ==> route.route.leaf == right.partition
                && route.route.leaf_header == right.header && route.distance == distances.1
            &&& route.route.parent == one.parent
            &&& route.route.incoming == Incoming::SourceSlot(source)
        }),
{
    smaller_ranks_come_first(
        left.partition,
        distances.0,
        right.partition,
        distances.1,
    );
    smaller_ranks_come_first(
        right.partition,
        distances.1,
        left.partition,
        distances.0,
    );
}

/// A member rerouted around a merging leaf keeps the leaf, the parent and the
/// distance of its reroute.
pub proof fn rerouted_members_keep_their_candidate(target: Reroute)
    ensures
        rerouted_leaf(target).distance == target.distance,
        rerouted_leaf(target).route.leaf == target.candidate.partition,
        rerouted_leaf(target).route.leaf_header == target.candidate.header,
        rerouted_leaf(target).route.parent == Some(target.candidate.parent),
        rerouted_leaf(target).route.incoming == Incoming::ParentEdge,
{
}

/// A scanned Child Entry is considered by each member with its own distance,
/// behind what it considered before.
pub proof fn entries_are_considered_with_their_own_distance(
    considered: Seq<Seq<ChildCandidate>>,
    members: Seq<Member>,
    distances: Seq<Distance>,
    child: PartitionKey,
    owner: PartitionKey,
    other: int,
)
    requires
        members.len() == 1,
        distances.len() == 1,
        members[0].member < considered.len(),
    ensures
        ({
            let after = observed(considered, members, distances, 1, child, owner);
            let mine = after[members[0].member as int];
            &&& after.len() == considered.len()
            &&& mine.len() == considered[members[0].member as int].len() + 1
            &&& mine.last().child == child
            &&& mine.last().owner == owner
            &&& mine.last().distance == distances[0]
            &&& 0 <= other < considered.len() && other != members[0].member ==> after[other]
                == considered[other]
        }),
{
    reveal_with_fuel(observed, 2);
}

/// A leaf of a leaf wave is legal only at level one, and a root leaf neither as a
/// filling target nor while it merges.
pub proof fn leaf_waves_stay_at_level_one(descent: WriteDescent, authority: Authority, at: int)
    ensures
        leaf_legal(descent, authority, at) ==> authority.header.level == 1,
        leaf_legal(descent, authority, at) && descent.pending.ordered()[at].key.partition
            == descent.root ==> !(authority.transition is Merging) && !(
        authority.transition is ReceivingSplit),
        authority.header.level == 1 && descent.pending.ordered()[at].key.partition != descent.root
            ==> leaf_legal(descent, authority, at),
{
}

} // verus!
