//! Tree routing through stable and split-intermediate topology states.
//!
//! Routing descends one tree from its root to the Leaf Partition nearest to a
//! vector. Every committed state is routable: a `Splitting` source still holds
//! its complete entry set, a `DrainingSplit` source is covered by the union of
//! its body and its two targets, an internal `ReceivingSplit` target is
//! resolved through its source, and a `Merging` partition reroutes to the
//! nearest `Ready` partition of its level. Reads happen outside; each function
//! here decides what the read values mean and what to read next.

use vstd::prelude::*;

use crate::api::config::MAX_TREE_KEY_BYTES;
use crate::api::error::{plain_error, Error, ErrorKind, Result};
use crate::api::identifiers::{partition_key_of_view, PartitionKey};
use crate::api::number::Distance;
use crate::maintenance::ranking::{beats, nearer, nearer_of_two, precedes, smaller_ranks_come_first, ChildCandidate};
use crate::topology::{receiving_at, Authority, Body, LevelCandidate, PartitionHeader, PartitionState, PartitionTransition};

verus! {

broadcast use partition_key_of_view;

/// The number of Child Entries scanned per page during descent.
pub const CHILD_SCAN_PAGE: usize = 64;

/// The incoming topology reference a write route update-protects.
#[derive(Clone, Copy, Debug, PartialEq, Eq, Structural)]
pub enum Incoming {
    /// The leaf's Child Entry at the observed parent.
    ParentEdge,
    /// The draining source's `DrainingSplit` state naming the leaf as target.
    SourceSlot(PartitionKey),
}

/// The observed route of one vector: its leaf, the leaf's Header, and the
/// reference through which the leaf was reached.
#[derive(Clone, Copy, Debug, PartialEq, Eq, Structural)]
pub struct Route {
    /// The Leaf Partition the vector routes to.
    pub leaf: PartitionKey,
    /// The observed leaf Header.
    pub leaf_header: PartitionHeader,
    /// The observed parent, or `None` when the leaf is the tree root.
    pub parent: Option<PartitionKey>,
    /// The incoming reference a write protects.
    pub incoming: Incoming,
}

impl Route {
    /// Returns the Leaf Partition the vector routes to.
    pub fn leaf(self) -> (res: PartitionKey)
        ensures
            res == self.leaf,
    {
        self.leaf
    }

    /// Returns the observed leaf Header.
    pub fn leaf_header(self) -> (res: PartitionHeader)
        ensures
            res == self.leaf_header,
    {
        self.leaf_header
    }

    /// Returns the observed parent of the leaf, or `None` when the leaf is the
    /// tree root.
    pub fn parent(self) -> (res: Option<PartitionKey>)
        ensures
            res == self.parent,
    {
        self.parent
    }

    /// Returns the draining split source whose state is this route's incoming
    /// reference, when the descent redirected around one.
    pub fn draining_source(self) -> (res: Option<PartitionKey>)
        ensures
            res == match self.incoming {
                Incoming::SourceSlot(source) => Some(source),
                Incoming::ParentEdge => None,
            },
    {
        match self.incoming {
            Incoming::SourceSlot(source) => Some(source),
            Incoming::ParentEdge => None,
        }
    }
}

/// Whether a visited partition sits at the level the descent expects.
pub open spec fn level_fits(header: PartitionHeader, expected_level: Option<u32>) -> bool {
    expected_level matches Some(expected) ==> header.level == expected
}

/// Whether a visited partition's state is legal for a root.
pub open spec fn root_state_fits(
    root: PartitionKey,
    partition: PartitionKey,
    transition: PartitionTransition,
) -> bool {
    partition == root ==> transition !is ReceivingSplit && transition !is Merging
}

/// Validates one visited partition's level progression.
pub fn check_level(header: &PartitionHeader, expected_level: Option<u32>) -> (res: Result<()>)
    ensures
        res is Ok <==> level_fits(*header, expected_level),
        res matches Err(error) ==> error == plain_error(ErrorKind::Corruption),
{
    if let Some(expected) = expected_level {
        if header.level != expected {
            return Err(Error::new(ErrorKind::Corruption));
        }
    }
    Ok(())
}

/// Validates that a root is neither a split target nor merging.
pub fn check_root_state(
    root: PartitionKey,
    partition: PartitionKey,
    transition: PartitionTransition,
) -> (res: Result<()>)
    ensures
        res is Ok <==> root_state_fits(root, partition, transition),
        res matches Err(error) ==> error == plain_error(ErrorKind::Corruption),
{
    if partition == root && matches!(
        transition,
        PartitionTransition::ReceivingSplit { .. } | PartitionTransition::Merging { .. }
    ) {
        return Err(Error::new(ErrorKind::Corruption));
    }
    Ok(())
}

/// What one visited partition means for a descent, or what must be read to
/// know.
#[derive(Clone, Copy, Debug, PartialEq, Eq, Structural)]
pub enum HopPlan {
    /// A write-accepting leaf ends the descent.
    Leaf(PartitionHeader),
    /// Descend across the Child Entries of this body.
    Children {
        /// The body that covers the hop.
        body: Body,
        /// The level every child must sit at.
        next_level: u32,
    },
    /// An internal split target: read its source's authority values.
    ReadSource {
        /// The split source.
        source: PartitionKey,
    },
    /// A draining split: read both targets' Headers, then descend across the
    /// family's Child Entries.
    ReadFamily {
        /// The draining source.
        body: Body,
        /// The left target.
        left: PartitionKey,
        /// The right target.
        right: PartitionKey,
        /// The level every child must sit at.
        next_level: u32,
    },
    /// A draining leaf: read both targets' Headers and centroids, then
    /// redirect.
    ReadDrainTargets {
        /// The left target.
        left: PartitionKey,
        /// The right target.
        right: PartitionKey,
    },
    /// A merging partition: read its level's candidates, then reroute.
    ReadCandidates {
        /// The level of the merging partition.
        level: u32,
    },
    /// An internal split target whose source still holds every entry:
    /// re-descend from the source at the same level.
    Sideways {
        /// The split source.
        source: PartitionKey,
    },
}

/// The plan for one visited partition whose level and root state fit.
pub open spec fn hop(partition: PartitionKey, authority: Authority) -> HopPlan {
    let header = authority.header;
    let next_level = (header.level - 1) as u32;
    if header.level == 1 && header.state.writable() {
        HopPlan::Leaf(header)
    } else {
        match authority.transition {
            PartitionTransition::Ready { .. } => HopPlan::Children {
                body: Body { partition, header },
                next_level,
            },
            PartitionTransition::Splitting { .. } => HopPlan::Children {
                body: Body { partition, header },
                next_level,
            },
            PartitionTransition::ReceivingSplit { source, .. } => HopPlan::ReadSource { source },
            PartitionTransition::DrainingSplit { left, right, .. } => if header.level == 1 {
                HopPlan::ReadDrainTargets { left, right }
            } else {
                HopPlan::ReadFamily { body: Body { partition, header }, left, right, next_level }
            },
            PartitionTransition::Merging { .. } => HopPlan::ReadCandidates { level: header.level },
        }
    }
}

/// Resolves one hop from a partition's authority values. A level that fails to
/// decrement, or a root that is a split target or merging, is Corruption.
pub fn resolve_hop(
    root: PartitionKey,
    partition: PartitionKey,
    expected_level: Option<u32>,
    authority: Authority,
) -> (res: Result<HopPlan>)
    requires
        authority.consistent(),
    ensures
        match res {
            Ok(plan) => {
                &&& level_fits(authority.header, expected_level)
                &&& root_state_fits(root, partition, authority.transition)
                &&& plan == hop(partition, authority)
            },
            Err(error) => {
                &&& error == plain_error(ErrorKind::Corruption)
                &&& !(level_fits(authority.header, expected_level) && root_state_fits(
                    root,
                    partition,
                    authority.transition,
                ))
            },
        },
{
    let header = authority.header;
    check_level(&header, expected_level)?;
    check_root_state(root, partition, authority.transition)?;
    if header.level == 1 && header.state.accepts_writes() {
        return Ok(HopPlan::Leaf(header));
    }
    let body = Body { partition, header };
    let next_level: u32 = header.level - 1;
    Ok(
        match authority.transition {
            PartitionTransition::Ready { .. } => HopPlan::Children { body, next_level },
            PartitionTransition::Splitting { .. } => HopPlan::Children { body, next_level },
            PartitionTransition::ReceivingSplit { source, .. } => HopPlan::ReadSource { source },
            PartitionTransition::DrainingSplit { left, right, .. } => {
                if header.level == 1 {
                    HopPlan::ReadDrainTargets { left, right }
                } else {
                    HopPlan::ReadFamily { body, left, right, next_level }
                }
            },
            PartitionTransition::Merging { .. } => HopPlan::ReadCandidates { level: header.level },
        },
    )
}

/// The plan for an internal split target by its source's state, unless that
/// state contradicts the split.
pub open spec fn source_hop(
    partition: PartitionKey,
    level: u32,
    source: PartitionKey,
    authority: Authority,
) -> Option<HopPlan> {
    match authority.transition {
        PartitionTransition::Splitting { left, right, .. } => if partition == left || partition
            == right {
            Some(HopPlan::Sideways { source })
        } else {
            None
        },
        PartitionTransition::DrainingSplit { left, right, .. } => Some(
            HopPlan::ReadFamily {
                body: Body { partition: source, header: authority.header },
                left,
                right,
                next_level: (level - 1) as u32,
            },
        ),
        _ => None,
    }
}

/// Resolves an internal split target through its source: sideways while the
/// source still holds every entry, across the family while it drains. Any
/// other source state is Corruption.
pub fn resolve_source(
    partition: PartitionKey,
    level: u32,
    source: PartitionKey,
    source_authority: Authority,
) -> (res: Result<HopPlan>)
    requires
        level > 0,
    ensures
        res == match source_hop(partition, level, source, source_authority) {
            Some(plan) => Ok::<HopPlan, Error>(plan),
            None => Err::<HopPlan, Error>(plain_error(ErrorKind::Corruption)),
        },
{
    match source_authority.transition {
        PartitionTransition::Splitting { left, right, .. } => {
            if partition == left || partition == right {
                Ok(HopPlan::Sideways { source })
            } else {
                Err(Error::new(ErrorKind::Corruption))
            }
        },
        PartitionTransition::DrainingSplit { left, right, .. } => Ok(
            HopPlan::ReadFamily {
                body: Body { partition: source, header: source_authority.header },
                left,
                right,
                next_level: level - 1,
            },
        ),
        _ => Err(Error::new(ErrorKind::Corruption)),
    }
}

/// One draining leaf's redirect target.
#[derive(Clone, Copy, Debug, PartialEq, Eq, Structural)]
pub struct DrainTarget {
    /// The target.
    pub partition: PartitionKey,
    /// Its Header.
    pub header: PartitionHeader,
}

/// Accepts one target of a draining leaf: its centroid exists and its Header
/// is that of a filling leaf. Anything else is Corruption.
pub fn drain_target(
    partition: PartitionKey,
    has_centroid: bool,
    header: Option<PartitionHeader>,
) -> (res: Result<DrainTarget>)
    ensures
        match res {
            Ok(target) => has_centroid && receiving_at(header, 1) && target == (DrainTarget {
                partition,
                header: header->0,
            }),
            Err(error) => !(has_centroid && receiving_at(header, 1)) && error == plain_error(
                ErrorKind::Corruption,
            ),
        },
{
    match header {
        Some(header) => {
            if !has_centroid || header.level != 1 || header.state
                != PartitionState::ReceivingSplit {
                return Err(Error::new(ErrorKind::Corruption));
            }
            Ok(DrainTarget { partition, header })
        },
        None => Err(Error::new(ErrorKind::Corruption)),
    }
}

/// The nearer of a draining leaf's two targets.
pub open spec fn nearer_target(
    left: DrainTarget,
    left_distance: Distance,
    right: DrainTarget,
    right_distance: Distance,
) -> DrainTarget {
    if nearer(left.partition, left_distance, right.partition, right_distance) == left.partition {
        left
    } else {
        right
    }
}

/// Chooses the nearer of a draining leaf's two targets.
pub fn nearer_redirect_target(
    left: DrainTarget,
    left_distance: Distance,
    right: DrainTarget,
    right_distance: Distance,
) -> (res: DrainTarget)
    ensures
        res == nearer_target(left, left_distance, right, right_distance),
        left_distance.rank < right_distance.rank ==> res == left,
        right_distance.rank < left_distance.rank && left.partition != right.partition ==> res
            == right,
{
    if nearer_of_two(left.partition, left_distance, right.partition, right_distance)
        == left.partition {
        left
    } else {
        right
    }
}

/// One vector's nearest child over a streamed scan.
#[derive(Clone, Copy, Debug, PartialEq, Eq, Structural)]
pub struct NearestChild {
    /// The nearest child so far.
    pub best: Option<ChildCandidate>,
}

/// The nearest of the first considered children: the first one that no other
/// precedes.
pub open spec fn nearest_of(considered: Seq<ChildCandidate>) -> Option<ChildCandidate>
    decreases considered.len(),
{
    if considered.len() == 0 {
        None
    } else {
        nearer_child(nearest_of(considered.drop_last()), considered.last())
    }
}

/// The nearer of a current best and one more child.
pub open spec fn nearer_child(best: Option<ChildCandidate>, one: ChildCandidate) -> Option<
    ChildCandidate,
> {
    match best {
        None => Some(one),
        Some(current) => if precedes(one.distance, one.child, current.distance, current.child) {
            Some(one)
        } else {
            best
        },
    }
}

/// The nearest child is one of those considered, and none precedes it.
pub proof fn nearest_is_least(considered: Seq<ChildCandidate>)
    ensures
        considered.len() == 0 <==> nearest_of(considered) is None,
        nearest_of(considered) matches Some(best) ==> {
            &&& considered.contains(best)
            &&& forall|i: int|
                0 <= i < considered.len() ==> !precedes(
                    (#[trigger] considered[i]).distance,
                    considered[i].child,
                    best.distance,
                    best.child,
                )
        },
    decreases considered.len(),
{
    if considered.len() > 0 {
        let earlier = considered.drop_last();
        nearest_is_least(earlier);
        let best = nearest_of(considered)->0;
        if nearest_of(earlier) is Some && best == nearest_of(earlier)->0 {
            assert(earlier.contains(best));
            let k = choose|k: int| 0 <= k < earlier.len() && earlier[k] == best;
            assert(considered[k] == best);
        } else {
            assert(considered[considered.len() - 1] == best);
        }
        assert forall|i: int| 0 <= i < considered.len() implies !precedes(
            (#[trigger] considered[i]).distance,
            considered[i].child,
            best.distance,
            best.child,
        ) by {
            if i < earlier.len() {
                assert(earlier[i] == considered[i]);
            }
        }
    }
}

/// The child a scan ends at is one of those considered, and its rank is at
/// most that of every child considered; among equal ranks its key is least.
pub proof fn scans_end_at_the_least_rank(considered: Seq<ChildCandidate>)
    requires
        considered.len() > 0,
    ensures
        nearest_of(considered) is Some,
        considered.contains(nearest_of(considered)->0),
        forall|i: int|
            0 <= i < considered.len() ==> {
                let best = nearest_of(considered)->0;
                ||| best.distance.rank < (#[trigger] considered[i]).distance.rank
                ||| best.distance.rank == considered[i].distance.rank && best.child@
                    <= considered[i].child@
            },
{
    nearest_is_least(considered);
    let best = nearest_of(considered)->0;
    assert forall|i: int| 0 <= i < considered.len() implies {
        ||| best.distance.rank < (#[trigger] considered[i]).distance.rank
        ||| best.distance.rank == considered[i].distance.rank && best.child@
            <= considered[i].child@
    } by {
        smaller_ranks_come_first(
            considered[i].child,
            considered[i].distance,
            best.child,
            best.distance,
        );
    }
}

impl NearestChild {
    /// No child considered yet.
    pub fn new() -> (res: Self)
        ensures
            res.best is None,
    {
        NearestChild { best: None }
    }

    /// Considers one scanned child owned by `owner`.
    pub fn consider(&mut self, distance: Distance, child: PartitionKey, owner: PartitionKey)
        ensures
            final(self).best == nearer_child(
                old(self).best,
                ChildCandidate { distance, child, owner },
            ),
    {
        let replace = match self.best {
            None => true,
            Some(best) => beats(distance, child, best.distance, best.child),
        };
        if replace {
            self.best = Some(ChildCandidate { distance, child, owner });
        }
    }

    /// Returns the nearest child and its owner; an empty scan is Corruption.
    pub fn finish(self) -> (res: Result<(PartitionKey, PartitionKey)>)
        ensures
            match self.best {
                Some(best) => res == Ok::<(PartitionKey, PartitionKey), Error>(
                    (best.child, best.owner),
                ),
                None => res == Err::<(PartitionKey, PartitionKey), Error>(
                    plain_error(ErrorKind::Corruption),
                ),
            },
    {
        match self.best {
            Some(best) => Ok((best.child, best.owner)),
            None => Err(Error::new(ErrorKind::Corruption)),
        }
    }
}

/// The position of a single-vector descent.
#[derive(Clone, Copy, Debug, PartialEq, Eq, Structural)]
pub struct Descent {
    /// The tree root.
    pub root: PartitionKey,
    /// The partition to visit next.
    pub partition: PartitionKey,
    /// The observed parent of that partition.
    pub parent: Option<PartitionKey>,
    /// The level that partition must sit at.
    pub expected_level: Option<u32>,
}

impl Descent {
    /// A descent about to visit the root.
    pub fn new(root: PartitionKey) -> (res: Self)
        ensures
            res == (Descent { root, partition: root, parent: None, expected_level: None }),
    {
        Descent { root, partition: root, parent: None, expected_level: None }
    }

    /// Resolves the visited partition.
    pub fn resolve(&self, authority: Authority) -> (res: Result<HopPlan>)
        requires
            authority.consistent(),
        ensures
            match res {
                Ok(plan) => {
                    &&& level_fits(authority.header, self.expected_level)
                    &&& root_state_fits(self.root, self.partition, authority.transition)
                    &&& plan == hop(self.partition, authority)
                },
                Err(error) => {
                    &&& error == plain_error(ErrorKind::Corruption)
                    &&& !(level_fits(authority.header, self.expected_level) && root_state_fits(
                        self.root,
                        self.partition,
                        authority.transition,
                    ))
                },
            },
    {
        resolve_hop(self.root, self.partition, self.expected_level, authority)
    }

    /// Ends the descent at a write-accepting leaf.
    pub fn arrive(&self, header: PartitionHeader) -> (res: Route)
        ensures
            res == (Route {
                leaf: self.partition,
                leaf_header: header,
                parent: self.parent,
                incoming: Incoming::ParentEdge,
            }),
    {
        Route {
            leaf: self.partition,
            leaf_header: header,
            parent: self.parent,
            incoming: Incoming::ParentEdge,
        }
    }

    /// Ends the descent at the nearer target of the visited draining leaf.
    pub fn redirect(
        &self,
        left: DrainTarget,
        left_distance: Distance,
        right: DrainTarget,
        right_distance: Distance,
    ) -> (res: Route)
        ensures
            ({
                let target = nearer_target(left, left_distance, right, right_distance);
                res == (Route {
                    leaf: target.partition,
                    leaf_header: target.header,
                    parent: self.parent,
                    incoming: Incoming::SourceSlot(self.partition),
                })
            }),
    {
        let target = nearer_redirect_target(left, left_distance, right, right_distance);
        Route {
            leaf: target.partition,
            leaf_header: target.header,
            parent: self.parent,
            incoming: Incoming::SourceSlot(self.partition),
        }
    }

    /// Moves to the nearest scanned child; an empty scan is Corruption.
    pub fn follow(&mut self, nearest: NearestChild, next_level: u32) -> (res: Result<()>)
        ensures
            match nearest.best {
                Some(best) => res is Ok && *final(self) == (Descent {
                    root: old(self).root,
                    partition: best.child,
                    parent: Some(best.owner),
                    expected_level: Some(next_level),
                }),
                None => *final(self) == *old(self) && res == Err::<(), Error>(
                    plain_error(ErrorKind::Corruption),
                ),
            },
    {
        let (child, owner) = nearest.finish()?;
        self.partition = child;
        self.parent = Some(owner);
        self.expected_level = Some(next_level);
        Ok(())
    }

    /// Moves to the source of the visited split target, at the same level.
    pub fn sideways(&mut self, source: PartitionKey)
        ensures
            *final(self) == (Descent { partition: source, ..*old(self) }),
    {
        self.partition = source;
    }

    /// Reroutes around the visited merging partition to a reselected `Ready`
    /// candidate: a leaf ends the descent, an internal partition continues it
    /// at the same level. Without a candidate contention is exhausted.
    pub fn reroute(&mut self, level: u32, candidate: Option<LevelCandidate>) -> (res: Result<
        Option<Route>,
    >)
        ensures
            match candidate {
                None => *final(self) == *old(self) && res == Err::<Option<Route>, Error>(
                    plain_error(ErrorKind::ContentionExhausted),
                ),
                Some(chosen) => if level == 1 {
                    &&& *final(self) == *old(self)
                    &&& res == Ok::<Option<Route>, Error>(
                        Some(
                            Route {
                                leaf: chosen.partition,
                                leaf_header: chosen.header,
                                parent: Some(chosen.parent),
                                incoming: Incoming::ParentEdge,
                            },
                        ),
                    )
                } else {
                    &&& *final(self) == (Descent {
                        partition: chosen.partition,
                        parent: Some(chosen.parent),
                        ..*old(self)
                    })
                    &&& res == Ok::<Option<Route>, Error>(None)
                },
            },
    {
        let chosen = match candidate {
            Some(chosen) => chosen,
            None => {
                return Err(Error::new(ErrorKind::ContentionExhausted));
            },
        };
        if level == 1 {
            return Ok(
                Some(
                    Route {
                        leaf: chosen.partition,
                        leaf_header: chosen.header,
                        parent: Some(chosen.parent),
                        incoming: Incoming::ParentEdge,
                    },
                ),
            );
        }
        self.partition = chosen.partition;
        self.parent = Some(chosen.parent);
        Ok(None)
    }
}

/// Whether a plan ends the descent at, or leaves, the visited level downward.
pub open spec fn plan_descends(plan: HopPlan, level: u32) -> bool {
    match plan {
        HopPlan::Leaf(header) => level == 1 && header.state.writable(),
        HopPlan::Children { next_level, .. } => level > 1 && next_level == level - 1,
        HopPlan::ReadFamily { next_level, .. } => level > 1 && next_level == level - 1,
        HopPlan::ReadSource { .. } => level > 1,
        HopPlan::ReadDrainTargets { .. } => level == 1,
        HopPlan::ReadCandidates { level: same } => same == level,
        HopPlan::Sideways { .. } => level > 1,
    }
}

/// Every hop from a consistent partition ends at a write-accepting leaf, stays
/// at its level, or descends exactly one level; a merging or draining
/// partition is never itself the end of a descent.
pub proof fn hops_descend_one_level(partition: PartitionKey, authority: Authority)
    requires
        authority.consistent(),
    ensures
        plan_descends(hop(partition, authority), authority.header.level),
        hop(partition, authority) matches HopPlan::Leaf(header) ==> header == authority.header
            && header.state != PartitionState::Merging && header.state
            != PartitionState::DrainingSplit,
{
}

/// The page bounds of one scan.
#[derive(Clone, Copy, Debug, PartialEq, Eq, Structural)]
pub struct ScanLimits {
    /// The most items per page.
    pub item_limit: usize,
    /// The most bytes per page.
    pub byte_limit: usize,
}

/// The bytes one page of worst-case Child Entries takes: fixed key bytes, the
/// longest Tree Key, value framing, and the vector, times the page size.
pub open spec fn child_page_bytes(dimension: int) -> int {
    (28 + MAX_TREE_KEY_BYTES + 32 + 4 * dimension) * CHILD_SCAN_PAGE
}

/// Checks what one write routes: the beam must be positive and every routing
/// vector must have the index's dimension. Returns whether there is anything
/// to route.
pub fn check_routings(beam: u32, dimension: usize, lengths: &Vec<usize>) -> (res: Result<bool>)
    ensures
        match res {
            Ok(some) => {
                &&& beam > 0
                &&& forall|i: int| 0 <= i < lengths@.len() ==> #[trigger] lengths@[i] == dimension
                &&& some == (lengths@.len() > 0)
            },
            Err(error) => {
                &&& error == plain_error(ErrorKind::InvalidArgument)
                &&& beam == 0 || exists|i: int|
                    0 <= i < lengths@.len() && #[trigger] lengths@[i] != dimension
            },
        },
{
    if beam == 0 {
        return Err(Error::invalid_argument());
    }
    let mut at: usize = 0;
    while at < lengths.len()
        invariant
            at <= lengths@.len(),
            forall|i: int| 0 <= i < at ==> #[trigger] lengths@[i] == dimension,
        decreases lengths@.len() - at,
    {
        if lengths[at] != dimension {
            return Err(Error::invalid_argument());
        }
        at = at + 1;
    }
    Ok(lengths.len() > 0)
}

/// Builds the page bounds for a Child Entry scan, so that a legal page is
/// never cut short by its bytes.
pub fn child_scan_limits(dimension: usize) -> (res: Result<ScanLimits>)
    ensures
        match res {
            Ok(limits) => limits.item_limit == CHILD_SCAN_PAGE && limits.byte_limit
                == child_page_bytes(dimension as int),
            Err(error) => child_page_bytes(dimension as int) > usize::MAX && error == plain_error(
                ErrorKind::LimitExceeded,
            ),
        },
{
    let vector_bytes: usize = match dimension.checked_mul(4) {
        Some(bytes) => bytes,
        None => {
            return Err(Error::new(ErrorKind::LimitExceeded));
        },
    };
    let fixed: usize = 28 + MAX_TREE_KEY_BYTES + 32;
    let per_item: usize = match fixed.checked_add(vector_bytes) {
        Some(bytes) => bytes,
        None => {
            return Err(Error::new(ErrorKind::LimitExceeded));
        },
    };
    match per_item.checked_mul(CHILD_SCAN_PAGE) {
        Some(byte_limit) => Ok(ScanLimits { item_limit: CHILD_SCAN_PAGE, byte_limit }),
        None => Err(Error::new(ErrorKind::LimitExceeded)),
    }
}

/// What one scanned page contributes to its body's scan.
#[derive(Clone, Copy, Debug, PartialEq, Eq, Structural)]
pub struct PageSummary {
    /// The number of entries on the page.
    pub items: usize,
    /// Whether another page follows.
    pub more: bool,
}

/// The progress of one body's scan.
#[derive(Clone, Copy, Debug, PartialEq, Eq, Structural)]
pub struct BodyScan {
    /// The entries seen so far.
    pub seen: u64,
    /// Whether the last page was seen.
    pub done: bool,
}

/// The lockstep scan of several bodies: each round reads one page of every
/// unfinished body.
pub struct BodyScans {
    /// The progress of each body, in body order.
    pub scans: Vec<BodyScan>,
}

/// The indices of the unfinished scans among the first `n`, in order.
pub open spec fn unfinished(scans: Seq<BodyScan>, n: nat) -> Seq<usize>
    decreases n,
{
    if n == 0 {
        Seq::empty()
    } else {
        let earlier = unfinished(scans, (n - 1) as nat);
        if scans[n - 1].done {
            earlier
        } else {
            earlier.push((n - 1) as usize)
        }
    }
}

/// Whether a scan's exact count agrees with its Header.
pub open spec fn exact(scan: BodyScan, header: PartitionHeader) -> bool {
    scan.seen == header.entry_count
}

impl BodyScans {
    /// Scans of the given number of bodies, none of them started.
    pub fn new(bodies: usize) -> (res: Self)
        ensures
            res.scans@.len() == bodies,
            forall|i: int|
                0 <= i < bodies ==> res.scans@[i] == (BodyScan { seen: 0, done: false }),
    {
        let mut scans: Vec<BodyScan> = Vec::new();
        let mut at: usize = 0;
        while at < bodies
            invariant
                at <= bodies,
                scans@.len() == at,
                forall|i: int| 0 <= i < at ==> scans@[i] == (BodyScan { seen: 0, done: false }),
            decreases bodies - at,
        {
            scans.push(BodyScan { seen: 0, done: false });
            at = at + 1;
        }
        BodyScans { scans }
    }

    /// Returns the bodies whose next page the coming round reads.
    pub fn legs(&self) -> (res: Vec<usize>)
        ensures
            res@ == unfinished(self.scans@, self.scans@.len()),
    {
        let mut legs: Vec<usize> = Vec::new();
        let mut at: usize = 0;
        while at < self.scans.len()
            invariant
                at <= self.scans@.len(),
                legs@ == unfinished(self.scans@, at as nat),
            decreases self.scans@.len() - at,
        {
            if !self.scans[at].done {
                legs.push(at);
            }
            at = at + 1;
        }
        legs
    }

    /// Notes one page of an unfinished body.
    pub fn absorb(&mut self, body: usize, page: PageSummary)
        requires
            body < old(self).scans@.len(),
            old(self).scans@[body as int].seen + page.items <= u64::MAX,
        ensures
            final(self).scans@ == old(self).scans@.update(
                body as int,
                BodyScan {
                    seen: (old(self).scans@[body as int].seen + page.items) as u64,
                    done: !page.more,
                },
            ),
    {
        let scan = self.scans[body];
        self.scans.set(
            body,
            BodyScan { seen: scan.seen + page.items as u64, done: !page.more },
        );
    }

    /// Accepts a finished scan when every body showed exactly as many entries
    /// as its Header counts; a mismatch is Corruption.
    pub fn finish(&self, bodies: &Vec<Body>) -> (res: Result<()>)
        requires
            self.scans@.len() == bodies@.len(),
        ensures
            res is Ok <==> forall|i: int|
                0 <= i < bodies@.len() ==> exact(
                    #[trigger] self.scans@[i],
                    bodies@[i].header,
                ),
            res matches Err(error) ==> error == plain_error(ErrorKind::Corruption),
    {
        let mut at: usize = 0;
        while at < bodies.len()
            invariant
                self.scans@.len() == bodies@.len(),
                at <= bodies@.len(),
                forall|i: int|
                    0 <= i < at ==> exact(#[trigger] self.scans@[i], bodies@[i].header),
            decreases bodies@.len() - at,
        {
            if self.scans[at].seen != bodies[at].header.entry_count as u64 {
                assert(!exact(self.scans@[at as int], bodies@[at as int].header));
                return Err(Error::new(ErrorKind::Corruption));
            }
            at = at + 1;
        }
        Ok(())
    }
}

/// A key that a write route update-protects.
#[derive(Clone, Copy, Debug, PartialEq, Eq, Structural)]
pub enum GuardKey {
    /// The Header of a routed leaf.
    Header(PartitionKey),
    /// The Child Entry of a routed leaf at its observed parent.
    ChildEntry {
        /// The observed parent.
        parent: PartitionKey,
        /// The routed leaf.
        child: PartitionKey,
    },
    /// The state of a draining source.
    State(PartitionKey),
}

/// A value read under a [`GuardKey`].
#[derive(Clone, Copy, Debug, PartialEq, Eq, Structural)]
pub enum GuardValue {
    /// A partition Header.
    Header(PartitionHeader),
    /// A Child Entry naming a child.
    ChildEntry(PartitionKey),
    /// A partition state.
    State(PartitionTransition),
    /// A value of another kind.
    Other,
}

/// The keys that protect one route: its leaf's Header and its incoming
/// reference, which the tree root does not have.
pub open spec fn route_guards(route: Route) -> Seq<GuardKey> {
    let header = GuardKey::Header(route.leaf);
    match route.incoming {
        Incoming::ParentEdge => match route.parent {
            Some(parent) => seq![header, GuardKey::ChildEntry { parent, child: route.leaf }],
            None => seq![header],
        },
        Incoming::SourceSlot(source) => seq![header, GuardKey::State(source)],
    }
}

/// Whether a read Header still is that of a write-accepting leaf.
pub open spec fn header_holds(value: Option<GuardValue>) -> bool {
    value matches Some(GuardValue::Header(header)) && header.level == 1 && header.state.writable()
}

/// Whether a read incoming reference still names the route's leaf.
pub open spec fn reference_holds(route: Route, value: Option<GuardValue>) -> bool {
    match route.incoming {
        Incoming::ParentEdge => value matches Some(GuardValue::ChildEntry(child)) && child
            == route.leaf,
        Incoming::SourceSlot(_) => value matches Some(
            GuardValue::State(PartitionTransition::DrainingSplit { left, right, .. }),
        ) && (route.leaf == left || route.leaf == right),
    }
}

/// The keys that protect the first `n` routes, in route order.
pub open spec fn all_guards(routes: Seq<Route>, n: nat) -> Seq<GuardKey>
    decreases n,
{
    if n == 0 {
        Seq::empty()
    } else {
        all_guards(routes, (n - 1) as nat) + route_guards(routes[n - 1])
    }
}

/// Whether two routes protect the same leaf through the same reference.
pub open spec fn same_guard(a: Route, b: Route) -> bool {
    a.leaf == b.leaf && a.incoming == b.incoming
}

/// The first route of each distinct leaf and reference among the first `n`.
pub open spec fn first_appearances(routes: Seq<Route>, n: nat) -> Seq<Route>
    decreases n,
{
    if n == 0 {
        Seq::empty()
    } else {
        let earlier = first_appearances(routes, (n - 1) as nat);
        if exists|i: int| 0 <= i < earlier.len() && same_guard(#[trigger] earlier[i], routes[n - 1]) {
            earlier
        } else {
            earlier.push(routes[n - 1])
        }
    }
}

/// Returns the first route of each distinct leaf and reference, in order.
pub fn distinct_routes(routes: &Vec<Route>) -> (res: Vec<Route>)
    ensures
        res@ == first_appearances(routes@, routes@.len()),
{
    let mut distinct: Vec<Route> = Vec::new();
    let mut at: usize = 0;
    while at < routes.len()
        invariant
            at <= routes@.len(),
            distinct@ == first_appearances(routes@, at as nat),
        decreases routes@.len() - at,
    {
        let route = routes[at];
        let mut known = false;
        let mut earlier: usize = 0;
        while earlier < distinct.len() && !known
            invariant
                earlier <= distinct@.len(),
                known == exists|i: int|
                    0 <= i < earlier && same_guard(#[trigger] distinct@[i], route),
            decreases distinct@.len() - earlier,
        {
            if distinct[earlier].leaf == route.leaf && distinct[earlier].incoming
                == route.incoming {
                assert(same_guard(distinct@[earlier as int], route));
                known = true;
            }
            earlier = earlier + 1;
        }
        if !known {
            distinct.push(route);
        }
        at = at + 1;
    }
    distinct
}

/// Every route shares its leaf and reference with one of the distinct routes.
pub proof fn distinct_routes_cover_all(routes: Seq<Route>, n: nat, at: int)
    requires
        0 <= at < n <= routes.len(),
    ensures
        exists|i: int|
            0 <= i < first_appearances(routes, n).len() && same_guard(
                #[trigger] first_appearances(routes, n)[i],
                routes[at],
            ),
    decreases n,
{
    let earlier = first_appearances(routes, (n - 1) as nat);
    let whole = first_appearances(routes, n);
    if at == n - 1 {
        if !exists|i: int|
            0 <= i < earlier.len() && same_guard(#[trigger] earlier[i], routes[n - 1]) {
            assert(same_guard(whole[earlier.len() as int], routes[at]));
        }
    } else {
        distinct_routes_cover_all(routes, (n - 1) as nat, at);
        let i = choose|i: int|
            0 <= i < earlier.len() && same_guard(#[trigger] earlier[i], routes[at]);
        assert(whole[i] == earlier[i]);
    }
}

/// Lists the keys whose update-protected read validates distinct routes.
pub fn guard_keys(distinct: &Vec<Route>) -> (res: Vec<GuardKey>)
    ensures
        res@ == all_guards(distinct@, distinct@.len()),
{
    let mut keys: Vec<GuardKey> = Vec::new();
    let mut at: usize = 0;
    while at < distinct.len()
        invariant
            at <= distinct@.len(),
            keys@ == all_guards(distinct@, at as nat),
        decreases distinct@.len() - at,
    {
        let route = distinct[at];
        let ghost before = keys@;
        keys.push(GuardKey::Header(route.leaf));
        match route.incoming {
            Incoming::ParentEdge => {
                if let Some(parent) = route.parent {
                    keys.push(GuardKey::ChildEntry { parent, child: route.leaf });
                }
            },
            Incoming::SourceSlot(source) => {
                keys.push(GuardKey::State(source));
            },
        }
        assert(keys@ =~= before + route_guards(route));
        at = at + 1;
    }
    keys
}

/// The failure that the values read for distinct routes show, if any. Routes
/// are checked in order, each Header before its reference: a value that no
/// longer holds is Corruption, and a missing value a backend fault.
pub open spec fn guard_failure(routes: Seq<Route>, values: Seq<Option<GuardValue>>) -> Option<
    ErrorKind,
>
    decreases routes.len(),
{
    if routes.len() == 0 {
        None
    } else if values.len() == 0 {
        Some(ErrorKind::Backend)
    } else if !header_holds(values[0]) {
        Some(ErrorKind::Corruption)
    } else if route_guards(routes[0]).len() == 1 {
        guard_failure(routes.drop_first(), values.drop_first())
    } else if values.len() == 1 {
        Some(ErrorKind::Backend)
    } else if !reference_holds(routes[0], values[1]) {
        Some(ErrorKind::Corruption)
    } else {
        guard_failure(routes.drop_first(), values.skip(2))
    }
}

fn holds_header(value: &Option<GuardValue>) -> (res: bool)
    ensures
        res == header_holds(*value),
{
    match value {
        Some(GuardValue::Header(header)) => header.level == 1 && header.state.accepts_writes(),
        _ => false,
    }
}

fn holds_reference(route: &Route, value: &Option<GuardValue>) -> (res: bool)
    ensures
        res == reference_holds(*route, *value),
{
    match route.incoming {
        Incoming::ParentEdge => match value {
            Some(GuardValue::ChildEntry(child)) => *child == route.leaf,
            _ => false,
        },
        Incoming::SourceSlot(_) => match value {
            Some(GuardValue::State(PartitionTransition::DrainingSplit { left, right, .. })) =>
                route.leaf == *left || route.leaf == *right,
            _ => false,
        },
    }
}

/// Validates every distinct route against the values read under its
/// [`guard_keys`].
pub fn validate_for_write(distinct: &Vec<Route>, values: &Vec<Option<GuardValue>>) -> (res: Result<
    (),
>)
    ensures
        match guard_failure(distinct@, values@) {
            None => res is Ok,
            Some(kind) => res == Err::<(), Error>(plain_error(kind)),
        },
{
    let mut at: usize = 0;
    let mut next: usize = 0;
    proof {
        assert(distinct@.skip(0) =~= distinct@);
        assert(values@.skip(0) =~= values@);
    }
    while at < distinct.len()
        invariant
            at <= distinct@.len(),
            next <= values@.len(),
            guard_failure(distinct@, values@) == guard_failure(
                distinct@.skip(at as int),
                values@.skip(next as int),
            ),
        decreases distinct@.len() - at,
    {
        let ghost routes = distinct@.skip(at as int);
        let ghost rest = values@.skip(next as int);
        proof {
            assert(routes[0] == distinct@[at as int]);
            assert(routes.drop_first() =~= distinct@.skip(at + 1));
            if next + 1 <= values@.len() {
                assert(rest.drop_first() =~= values@.skip(next + 1));
            }
            if next + 2 <= values@.len() {
                assert(rest.skip(2) =~= values@.skip(next + 2));
            }
        }
        let route = distinct[at];
        if next >= values.len() {
            return Err(Error::new(ErrorKind::Backend));
        }
        if !holds_header(&values[next]) {
            return Err(Error::new(ErrorKind::Corruption));
        }
        next = next + 1;
        let referenced = match route.incoming {
            Incoming::ParentEdge => route.parent.is_some(),
            Incoming::SourceSlot(_) => true,
        };
        if referenced {
            if next >= values.len() {
                return Err(Error::new(ErrorKind::Backend));
            }
            assert(rest[1] == values@[next as int]);
            if !holds_reference(&route, &values[next]) {
                return Err(Error::new(ErrorKind::Corruption));
            }
            next = next + 1;
        }
        at = at + 1;
    }
    Ok(())
}

} // verus!
