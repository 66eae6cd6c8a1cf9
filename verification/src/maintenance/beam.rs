//! The maintenance beam: a bounded breadth-first search from the root for the
//! `Ready` partitions of one level that lie nearest to a split's targets.

use vstd::prelude::*;

use crate::api::error::{plain_error, Error, ErrorKind, Result};
use crate::api::identifiers::{partition_key_of_view, PartitionKey};
use crate::api::number::Distance;
use crate::api::search::lesser;
use crate::maintenance::balance::{lesser_distance, nearer_distance};
use crate::maintenance::ranking::{
    inserted, inserted_shape, truncated, ChildCandidate, NearestChildren,
};
use crate::topology::{
    Authority, Body, LevelCandidate, PartitionHeader, PartitionState, PartitionTransition,
};

verus! {

broadcast use partition_key_of_view;

/// The searchable bodies that one partition stands for.
#[derive(Clone, Copy, Debug, PartialEq, Eq, Structural)]
pub enum FamilyPlan {
    /// The partition's own body.
    Alone {
        /// The body.
        body: Body,
    },
    /// A draining split: the source's body and both targets'.
    Split {
        /// The source's body.
        body: Body,
        /// The left target.
        left: PartitionKey,
        /// The right target.
        right: PartitionKey,
    },
    /// A filling target: the source decides.
    Source {
        /// The split source.
        source: PartitionKey,
    },
}

/// The bodies that a partition stands for, by its durable state.
pub open spec fn family_of(partition: PartitionKey, authority: Authority) -> FamilyPlan {
    let body = Body { partition, header: authority.header };
    match authority.transition {
        PartitionTransition::DrainingSplit { left, right, .. } => FamilyPlan::Split {
            body,
            left,
            right,
        },
        PartitionTransition::ReceivingSplit { source, .. } => FamilyPlan::Source { source },
        _ => FamilyPlan::Alone { body },
    }
}

/// Plans the bodies of one partition; another level is Corruption.
pub fn corrective_family(
    partition: PartitionKey,
    authority: Authority,
    expected_level: u32,
) -> (res: Result<FamilyPlan>)
    ensures
        res == if authority.header.level == expected_level {
            Ok::<FamilyPlan, Error>(family_of(partition, authority))
        } else {
            Err::<FamilyPlan, Error>(plain_error(ErrorKind::Corruption))
        },
{
    if authority.header.level != expected_level {
        return Err(Error::new(ErrorKind::Corruption));
    }
    let body = Body { partition, header: authority.header };
    Ok(
        match authority.transition {
            PartitionTransition::DrainingSplit { left, right, .. } => FamilyPlan::Split {
                body,
                left,
                right,
            },
            PartitionTransition::ReceivingSplit { source, .. } => FamilyPlan::Source { source },
            PartitionTransition::Ready { .. } => FamilyPlan::Alone { body },
            PartitionTransition::Splitting { .. } => FamilyPlan::Alone { body },
            PartitionTransition::Merging { .. } => FamilyPlan::Alone { body },
        },
    )
}

/// Whether a source's split names a partition as one of its targets.
pub open spec fn names_target(transition: PartitionTransition, partition: PartitionKey) -> bool {
    transition.targets() matches Some((left, right)) && (partition == left || partition == right)
}

/// Plans the bodies of a filling target from its source: the whole source
/// while it still holds every entry, the split family once it drains. A source
/// at another level, or one whose split does not name the target, is
/// Corruption.
pub fn corrective_source_family(
    partition: PartitionKey,
    source: PartitionKey,
    authority: Authority,
    expected_level: u32,
) -> (res: Result<FamilyPlan>)
    ensures
        res == if authority.header.level == expected_level && names_target(
            authority.transition,
            partition,
        ) {
            Ok::<FamilyPlan, Error>(family_of(source, authority))
        } else {
            Err::<FamilyPlan, Error>(plain_error(ErrorKind::Corruption))
        },
{
    if authority.header.level != expected_level {
        return Err(Error::new(ErrorKind::Corruption));
    }
    let body = Body { partition: source, header: authority.header };
    match authority.transition {
        PartitionTransition::Splitting { left, right, .. } => {
            if partition == left || partition == right {
                Ok(FamilyPlan::Alone { body })
            } else {
                Err(Error::new(ErrorKind::Corruption))
            }
        },
        PartitionTransition::DrainingSplit { left, right, .. } => {
            if partition == left || partition == right {
                Ok(FamilyPlan::Split { body, left, right })
            } else {
                Err(Error::new(ErrorKind::Corruption))
            }
        },
        _ => Err(Error::new(ErrorKind::Corruption)),
    }
}

/// What to do with one body of the current level.
#[derive(Clone, Copy, Debug, PartialEq, Eq, Structural)]
pub enum Admission {
    /// The level has scanned as many bodies as it may: stop it here.
    Full,
    /// The body was already scanned.
    Skip,
    /// Scan the body.
    Scan,
}

/// The search state at one level.
pub struct CorrectiveBeam {
    /// The level whose partitions are sought.
    pub level: u32,
    /// The split source.
    pub source: PartitionKey,
    /// The left target.
    pub left: PartitionKey,
    /// The right target.
    pub right: PartitionKey,
    /// The most bodies scanned, and edges kept, per level.
    pub beam: usize,
    /// The level being scanned.
    pub current_level: u32,
    /// The partitions of the current level, nearest first.
    pub frontier: Vec<PartitionKey>,
    /// The next frontier position.
    pub next: usize,
    /// The bodies scanned at the current level, in order.
    pub scanned: Vec<PartitionKey>,
    /// Whether the level was stopped early.
    pub full: bool,
    /// The nearest edges found at the current level.
    pub nearest: NearestChildren,
}

/// What one scanned level leads to.
pub enum LevelOutcome {
    /// No edge was found: there is no candidate.
    Exhausted,
    /// The edges lead to the sought level.
    Reached(Vec<ChildCandidate>),
    /// The search goes on one level below.
    Descend(CorrectiveBeam),
}

/// Whether bodies are distinct.
pub open spec fn distinct_keys(keys: Seq<PartitionKey>) -> bool {
    forall|i: int, j: int| 0 <= i < j < keys.len() ==> (#[trigger] keys[i]) != #[trigger] keys[j]
}

/// The first frontier position, from `at` on, that was not scanned yet.
pub open spec fn first_unscanned(
    frontier: Seq<PartitionKey>,
    scanned: Seq<PartitionKey>,
    at: int,
) -> int
    decreases frontier.len() - at,
{
    if at >= frontier.len() || !scanned.contains(frontier[at]) {
        at
    } else {
        first_unscanned(frontier, scanned, at + 1)
    }
}

/// The children of some edges.
pub open spec fn children_of(edges: Seq<ChildCandidate>) -> Seq<PartitionKey> {
    Seq::new(edges.len(), |i: int| edges[i].child)
}

fn holds_key(keys: &Vec<PartitionKey>, key: PartitionKey) -> (res: bool)
    ensures
        res == keys@.contains(key),
{
    let mut at: usize = 0;
    while at < keys.len()
        invariant
            at <= keys@.len(),
            forall|i: int| 0 <= i < at ==> (#[trigger] keys@[i]) != key,
        decreases keys@.len() - at,
    {
        if keys[at] == key {
            return true;
        }
        at = at + 1;
    }
    false
}

impl CorrectiveBeam {
    /// Whether a child is one of the split's own partitions at the sought
    /// level.
    pub open spec fn excludes(self, child: PartitionKey) -> bool {
        self.current_level - 1 == self.level && (child == self.source || child == self.left
            || child == self.right)
    }

    /// Whether no kept edge leads to an excluded partition.
    pub open spec fn keeps_others(self) -> bool {
        forall|i: int|
            0 <= i < self.nearest.kept().len() ==> !self.excludes(
                (#[trigger] self.nearest.kept()[i]).child,
            )
    }

    /// Whether the search is above its level and within its beam.
    pub open spec fn well_formed(self) -> bool {
        &&& self.current_level > self.level
        &&& self.next <= self.frontier@.len()
        &&& self.scanned@.len() <= self.beam
        &&& distinct_keys(self.scanned@)
        &&& self.nearest.well_formed()
        &&& self.nearest.width() == self.beam
        &&& self.keeps_others()
    }

    /// Whether two states search alike at one level.
    pub open spec fn same_search(self, other: CorrectiveBeam) -> bool {
        &&& self.level == other.level
        &&& self.source == other.source
        &&& self.left == other.left
        &&& self.right == other.right
        &&& self.beam == other.beam
        &&& self.current_level == other.current_level
        &&& self.frontier@ == other.frontier@
    }

    /// Whether a level is entered with the given frontier.
    pub open spec fn fresh(self, level: u32, frontier: Seq<PartitionKey>) -> bool {
        &&& self.current_level == level
        &&& self.frontier@ == frontier
        &&& self.next == 0
        &&& self.scanned@ == Seq::<PartitionKey>::empty()
        &&& !self.full
        &&& self.nearest.kept() == Seq::<ChildCandidate>::empty()
    }

    /// Starts the search at the root. A root at or below the sought level has
    /// no candidates when it is the split source itself, and is Corruption
    /// otherwise.
    pub fn start(
        level: u32,
        source: PartitionKey,
        left: PartitionKey,
        right: PartitionKey,
        root_header: PartitionHeader,
        beam: usize,
    ) -> (res: Result<Option<Self>>)
        ensures
            match res {
                Ok(Some(search)) => {
                    &&& root_header.level > level
                    &&& search.well_formed()
                    &&& search.fresh(root_header.level, seq![PartitionKey::of(1)])
                    &&& search.level == level
                    &&& search.source == source
                    &&& search.left == left
                    &&& search.right == right
                    &&& search.beam == beam
                },
                Ok(None) => root_header.level <= level && source@ == 1,
                Err(error) => {
                    &&& root_header.level <= level && source@ != 1
                    &&& error == plain_error(ErrorKind::Corruption)
                },
            },
    {
        if root_header.level <= level {
            if source.get() == 1 {
                return Ok(None);
            }
            return Err(Error::new(ErrorKind::Corruption));
        }
        let mut frontier: Vec<PartitionKey> = Vec::new();
        let root = PartitionKey::root();
        frontier.push(root);
        assert(root == PartitionKey::of(root@));
        assert(frontier@ =~= seq![PartitionKey::of(1)]);
        Ok(
            Some(
                CorrectiveBeam {
                    level,
                    source,
                    left,
                    right,
                    beam,
                    current_level: root_header.level,
                    frontier,
                    next: 0,
                    scanned: Vec::new(),
                    full: false,
                    nearest: NearestChildren::new(beam),
                },
            ),
        )
    }

    /// Takes the next frontier partition that was not scanned yet, or `None`
    /// when the level is done.
    pub fn next_partition(&mut self) -> (res: Option<PartitionKey>)
        requires
            old(self).well_formed(),
        ensures
            final(self).well_formed(),
            final(self).same_search(*old(self)),
            final(self).scanned@ == old(self).scanned@,
            final(self).full == old(self).full,
            final(self).nearest == old(self).nearest,
            ({
                let at = first_unscanned(
                    old(self).frontier@,
                    old(self).scanned@,
                    old(self).next as int,
                );
                if old(self).full {
                    res is None && final(self).next == old(self).next
                } else if at >= old(self).frontier@.len() {
                    res is None && final(self).next == old(self).frontier@.len()
                } else {
                    res == Some(old(self).frontier@[at]) && final(self).next == at + 1
                }
            }),
    {
        if self.full {
            return None;
        }
        while self.next < self.frontier.len()
            invariant
                *self == (CorrectiveBeam { next: self.next, ..*old(self) }),
                old(self).well_formed(),
                !self.full,
                self.next <= self.frontier@.len(),
                first_unscanned(self.frontier@, self.scanned@, self.next as int)
                    == first_unscanned(
                    old(self).frontier@,
                    old(self).scanned@,
                    old(self).next as int,
                ),
            decreases self.frontier@.len() - self.next,
        {
            let partition = self.frontier[self.next];
            let seen = holds_key(&self.scanned, partition);
            self.next = self.next + 1;
            if !seen {
                return Some(partition);
            }
        }
        None
    }

    /// Decides on one body of the current partition's family, in family order.
    /// A body at another level, or a leaf, is Corruption.
    pub fn visit(&mut self, body: Body) -> (res: Result<Admission>)
        requires
            old(self).well_formed(),
        ensures
            final(self).well_formed(),
            final(self).same_search(*old(self)),
            final(self).next == old(self).next,
            final(self).nearest == old(self).nearest,
            ({
                let seen = old(self).scanned@.contains(body.partition);
                let fits = body.header.level == old(self).current_level && body.header.level != 1;
                if seen {
                    &&& res == Ok::<Admission, Error>(Admission::Skip)
                    &&& final(self).scanned@ == old(self).scanned@
                    &&& final(self).full == old(self).full
                } else if old(self).scanned@.len() == old(self).beam {
                    &&& res == Ok::<Admission, Error>(Admission::Full)
                    &&& final(self).scanned@ == old(self).scanned@
                    &&& final(self).full
                } else {
                    &&& final(self).scanned@ == old(self).scanned@.push(body.partition)
                    &&& final(self).full == old(self).full
                    &&& res == if fits {
                        Ok::<Admission, Error>(Admission::Scan)
                    } else {
                        Err::<Admission, Error>(plain_error(ErrorKind::Corruption))
                    }
                }
            }),
    {
        if holds_key(&self.scanned, body.partition) {
            return Ok(Admission::Skip);
        }
        if self.scanned.len() == self.beam {
            self.full = true;
            return Ok(Admission::Full);
        }
        self.scanned.push(body.partition);
        proof {
            let before = old(self).scanned@;
            assert forall|i: int, j: int| 0 <= i < j < self.scanned@.len() implies (
            #[trigger] self.scanned@[i]) != #[trigger] self.scanned@[j] by {
                if j == before.len() {
                    assert(before.contains(before[i]));
                }
            }
        }
        if body.header.level != self.current_level || body.header.level == 1 {
            return Err(Error::new(ErrorKind::Corruption));
        }
        Ok(Admission::Scan)
    }

    /// Considers one Child Entry of a scanned body, ranked by its nearer
    /// target. The split's own partitions are passed over; an unknown distance
    /// of any other child is Corruption.
    pub fn observe(
        &mut self,
        body: PartitionKey,
        child: PartitionKey,
        left_distance: Option<Distance>,
        right_distance: Option<Distance>,
    ) -> (res: Result<()>)
        requires
            old(self).well_formed(),
        ensures
            final(self).well_formed(),
            final(self).same_search(*old(self)),
            final(self).next == old(self).next,
            final(self).scanned@ == old(self).scanned@,
            final(self).full == old(self).full,
            if old(self).excludes(child) {
                res is Ok && final(self).nearest == old(self).nearest
            } else if left_distance is None || right_distance is None {
                &&& res == Err::<(), Error>(plain_error(ErrorKind::Corruption))
                &&& final(self).nearest == old(self).nearest
            } else {
                &&& res is Ok
                &&& final(self).nearest.kept() == truncated(
                    inserted(
                        old(self).nearest.kept(),
                        ChildCandidate {
                            distance: lesser_distance(left_distance->0, right_distance->0),
                            child,
                            owner: body,
                        },
                    ),
                    old(self).beam as nat,
                )
            },
    {
        if self.current_level - 1 == self.level && (child == self.source || child == self.left
            || child == self.right) {
            return Ok(());
        }
        match (left_distance, right_distance) {
            (Some(left_distance), Some(right_distance)) => {
                let one = ChildCandidate {
                    distance: nearer_distance(left_distance, right_distance),
                    child,
                    owner: body,
                };
                let ghost kept = self.nearest.kept();
                self.nearest.consider(one);
                proof {
                    inserted_shape(kept, one);
                    let grown = inserted(kept, one);
                    assert forall|i: int| 0 <= i < self.nearest.kept().len() implies !self.excludes(
                        (#[trigger] self.nearest.kept()[i]).child,
                    ) by {
                        let c = self.nearest.kept()[i];
                        assert(grown[i] == c);
                        assert(grown.contains(c));
                        if c != one {
                            let k = choose|k: int| 0 <= k < kept.len() && kept[k] == c;
                            assert(!old(self).excludes(kept[k].child));
                        }
                    }
                }
                Ok(())
            },
            _ => Err(Error::new(ErrorKind::Corruption)),
        }
    }

    /// Ends the current level.
    pub fn finish_level(self) -> (res: LevelOutcome)
        requires
            self.well_formed(),
        ensures
            match res {
                LevelOutcome::Exhausted => self.nearest.kept().len() == 0,
                LevelOutcome::Reached(edges) => {
                    &&& self.nearest.kept().len() > 0
                    &&& self.current_level - 1 == self.level
                    &&& edges@ == self.nearest.kept()
                },
                LevelOutcome::Descend(below) => {
                    &&& self.nearest.kept().len() > 0
                    &&& self.current_level - 1 > self.level
                    &&& below.well_formed()
                    &&& below.level == self.level
                    &&& below.source == self.source
                    &&& below.left == self.left
                    &&& below.right == self.right
                    &&& below.beam == self.beam
                    &&& below.fresh(
                        (self.current_level - 1) as u32,
                        children_of(self.nearest.kept()),
                    )
                },
            },
    {
        if self.nearest.len() == 0 {
            return LevelOutcome::Exhausted;
        }
        let next_level: u32 = self.current_level - 1;
        let edges = self.nearest.into_best();
        if next_level == self.level {
            return LevelOutcome::Reached(edges);
        }
        let mut frontier: Vec<PartitionKey> = Vec::new();
        let mut at: usize = 0;
        while at < edges.len()
            invariant
                at <= edges@.len(),
                frontier@.len() == at,
                forall|i: int| 0 <= i < at ==> #[trigger] frontier@[i] == edges@[i].child,
            decreases edges@.len() - at,
        {
            frontier.push(edges[at].child);
            at = at + 1;
        }
        assert(frontier@ =~= children_of(edges@));
        LevelOutcome::Descend(
            CorrectiveBeam {
                level: self.level,
                source: self.source,
                left: self.left,
                right: self.right,
                beam: self.beam,
                current_level: next_level,
                frontier,
                next: 0,
                scanned: Vec::new(),
                full: false,
                nearest: NearestChildren::new(self.beam),
            },
        )
    }
}

/// Whether an edge leads to a candidate: a `Ready` partition with entries.
pub open spec fn is_candidate(header: PartitionHeader) -> bool {
    header.state == PartitionState::Ready && header.entry_count > 0
}

/// The candidates among the first `n` edges.
pub open spec fn candidates_of(
    edges: Seq<ChildCandidate>,
    headers: Seq<Option<PartitionHeader>>,
    n: nat,
) -> Seq<LevelCandidate>
    decreases n,
{
    if n == 0 {
        Seq::empty()
    } else {
        let rest = candidates_of(edges, headers, (n - 1) as nat);
        let header = headers[n - 1]->0;
        if is_candidate(header) {
            rest.push(
                LevelCandidate {
                    partition: edges[n - 1].child,
                    parent: edges[n - 1].owner,
                    header,
                },
            )
        } else {
            rest
        }
    }
}

/// Whether the first `n` edges lead to existing partitions of a level.
pub open spec fn edges_reach(headers: Seq<Option<PartitionHeader>>, level: u32, n: int) -> bool {
    forall|i: int|
        0 <= i < n ==> ((#[trigger] headers[i]) matches Some(header) && header.level == level)
}

/// Keeps the `Ready`, non-empty partitions that the final edges lead to,
/// nearest first. A missing partition or one at another level is Corruption.
pub fn accept_candidates(
    level: u32,
    edges: &Vec<ChildCandidate>,
    headers: &Vec<Option<PartitionHeader>>,
) -> (res: Result<Vec<LevelCandidate>>)
    ensures
        ({
            let n = lesser(edges@.len() as int, headers@.len() as int);
            match res {
                Ok(candidates) => {
                    &&& edges_reach(headers@, level, n)
                    &&& candidates@ == candidates_of(edges@, headers@, n as nat)
                },
                Err(error) => {
                    &&& !edges_reach(headers@, level, n)
                    &&& error == plain_error(ErrorKind::Corruption)
                },
            }
        }),
{
    let mut candidates: Vec<LevelCandidate> = Vec::new();
    let mut at: usize = 0;
    while at < edges.len() && at < headers.len()
        invariant
            at <= edges@.len(),
            at <= headers@.len(),
            candidates@ == candidates_of(edges@, headers@, at as nat),
            edges_reach(headers@, level, at as int),
        decreases edges@.len() - at,
    {
        let header = match headers[at] {
            Some(header) => header,
            None => {
                assert(!(headers@[at as int] is Some));
                return Err(Error::new(ErrorKind::Corruption));
            },
        };
        if header.level != level {
            assert(headers@[at as int]->0.level != level);
            return Err(Error::new(ErrorKind::Corruption));
        }
        if header.state == PartitionState::Ready && header.entry_count > 0 {
            candidates.push(
                LevelCandidate { partition: edges[at].child, parent: edges[at].owner, header },
            );
        }
        at = at + 1;
    }
    Ok(candidates)
}

} // verus!
