//! The canonical routing order and bounded nearest selections.
//!
//! Every routing decision ranks by distance first and breaks ties by
//! Partition Key, so all workers decide alike on one snapshot.

use vstd::prelude::*;

use crate::api::error::{plain_error, Error, ErrorKind, Result};
use crate::api::identifiers::{partition_key_of_view, PartitionKey};
use crate::api::number::Distance;
use crate::topology::{LevelCandidate, PartitionState};

verus! {

broadcast use partition_key_of_view;

/// Whether `(distance, key)` comes strictly before `(other, other_key)`.
pub open spec fn precedes(
    distance: Distance,
    key: PartitionKey,
    other: Distance,
    other_key: PartitionKey,
) -> bool {
    distance.rank < other.rank || (distance.rank == other.rank && key@ < other_key@)
}

/// Returns whether `(distance, child)` displaces the current best: nearer
/// distance wins and ties resolve to the smaller Partition Key.
pub fn beats(
    distance: Distance,
    child: PartitionKey,
    best_distance: Distance,
    best_child: PartitionKey,
) -> (res: bool)
    ensures
        res == precedes(distance, child, best_distance, best_child),
        distance.rank < best_distance.rank ==> res,
        distance.rank > best_distance.rank ==> !res,
        distance.rank == best_distance.rank ==> res == (child@ < best_child@),
{
    distance.rank < best_distance.rank || (distance.rank == best_distance.rank && child.get()
        < best_child.get())
}

/// The canonical choice between two targets.
pub open spec fn nearer(
    left: PartitionKey,
    left_distance: Distance,
    right: PartitionKey,
    right_distance: Distance,
) -> PartitionKey {
    if precedes(right_distance, right, left_distance, left) {
        right
    } else {
        left
    }
}

/// Chooses the nearer of two targets; ties resolve to the smaller Partition
/// Key.
pub fn nearer_of_two(
    left: PartitionKey,
    left_distance: Distance,
    right: PartitionKey,
    right_distance: Distance,
) -> (res: PartitionKey)
    ensures
        res == nearer(left, left_distance, right, right_distance),
        left_distance.rank < right_distance.rank ==> res == left,
        right_distance.rank < left_distance.rank ==> res == right,
        left_distance.rank == right_distance.rank ==> (res == left || res == right) && res@
            <= left@ && res@ <= right@,
{
    if beats(right_distance, right, left_distance, left) {
        right
    } else {
        left
    }
}

/// The choice between two targets does not depend on which is named first.
pub proof fn nearer_is_symmetric(
    left: PartitionKey,
    left_distance: Distance,
    right: PartitionKey,
    right_distance: Distance,
)
    ensures
        nearer(left, left_distance, right, right_distance) == nearer(
            right,
            right_distance,
            left,
            left_distance,
        ),
{
    assert(PartitionKey::of(left@) == left);
    assert(PartitionKey::of(right@) == right);
}

/// The smaller rank wins, negative ranks included, whichever is named first;
/// equal ranks leave it to the smaller Partition Key. No pair precedes itself,
/// and of two different ones exactly one precedes.
pub proof fn smaller_ranks_come_first(
    x: PartitionKey,
    a: Distance,
    y: PartitionKey,
    b: Distance,
)
    ensures
        a.rank < b.rank ==> nearer(x, a, y, b) == x && nearer(y, b, x, a) == x && precedes(
            a,
            x,
            b,
            y,
        ) && !precedes(b, y, a, x),
        a.rank == b.rank && x@ < y@ ==> nearer(x, a, y, b) == x && nearer(y, b, x, a) == x
            && precedes(a, x, b, y) && !precedes(b, y, a, x),
        a.rank == b.rank && x@ == y@ ==> !precedes(a, x, b, y) && !precedes(b, y, a, x),
{
    assert(PartitionKey::of(x@) == x);
    assert(PartitionKey::of(y@) == y);
}

/// One child reference that a routing beam may follow.
#[derive(Clone, Copy, Debug, PartialEq, Eq, Structural)]
pub struct ChildCandidate {
    /// The distance of the child's centroid.
    pub distance: Distance,
    /// The child.
    pub child: PartitionKey,
    /// The body whose Child Entry names the child.
    pub owner: PartitionKey,
}

/// The total order of candidates: distance, then child, then owner.
pub open spec fn before(a: ChildCandidate, b: ChildCandidate) -> bool {
    ||| precedes(a.distance, a.child, b.distance, b.child)
    ||| (a.distance.rank == b.distance.rank && a.child@ == b.child@ && a.owner@ < b.owner@)
}

/// Returns whether one candidate comes strictly before another.
pub fn comes_before(a: ChildCandidate, b: ChildCandidate) -> (res: bool)
    ensures
        res == before(a, b),
        a.distance.rank < b.distance.rank ==> res,
        a.distance.rank > b.distance.rank ==> !res,
        a.distance.rank == b.distance.rank && a.child@ < b.child@ ==> res,
        a.distance.rank == b.distance.rank && a.child@ > b.child@ ==> !res,
        a.distance.rank == b.distance.rank && a.child@ == b.child@ ==> res == (a.owner@
            < b.owner@),
{
    if a.distance.rank != b.distance.rank {
        a.distance.rank < b.distance.rank
    } else if a.child.get() != b.child.get() {
        a.child.get() < b.child.get()
    } else {
        a.owner.get() < b.owner.get()
    }
}

/// Exactly one of two candidates comes first unless they are the same.
pub proof fn before_is_total(a: ChildCandidate, b: ChildCandidate)
    ensures
        before(a, b) || before(b, a) || a == b,
        !(before(a, b) && before(b, a)),
        !before(a, a),
{
    assert(PartitionKey::of(a.child@) == a.child);
    assert(PartitionKey::of(b.child@) == b.child);
    assert(PartitionKey::of(a.owner@) == a.owner);
    assert(PartitionKey::of(b.owner@) == b.owner);
}

/// Whether candidates are in ascending order.
pub open spec fn ascending(candidates: Seq<ChildCandidate>) -> bool {
    forall|i: int, j: int|
        0 <= i < j < candidates.len() ==> !#[trigger] before(candidates[j], candidates[i])
}

/// An ascending sequence with one more candidate, behind its equals.
pub open spec fn inserted(candidates: Seq<ChildCandidate>, one: ChildCandidate) -> Seq<
    ChildCandidate,
>
    decreases candidates.len(),
{
    if candidates.len() == 0 || !before(one, candidates.last()) {
        candidates.push(one)
    } else {
        inserted(candidates.drop_last(), one).push(candidates.last())
    }
}

/// The first `beam` candidates of a sequence.
pub open spec fn truncated(candidates: Seq<ChildCandidate>, beam: nat) -> Seq<ChildCandidate> {
    if candidates.len() > beam {
        candidates.take(beam as int)
    } else {
        candidates
    }
}

/// What a beam of the given width retains of the first `n` considered
/// candidates.
pub open spec fn retained(considered: Seq<ChildCandidate>, beam: nat) -> Seq<ChildCandidate>
    decreases considered.len(),
{
    if considered.len() == 0 {
        Seq::empty()
    } else {
        truncated(inserted(retained(considered.drop_last(), beam), considered.last()), beam)
    }
}

proof fn inserted_at(candidates: Seq<ChildCandidate>, one: ChildCandidate, position: int)
    requires
        0 <= position <= candidates.len(),
        forall|i: int| position <= i < candidates.len() ==> before(one, #[trigger] candidates[i]),
        position > 0 ==> !before(one, candidates[position - 1]),
    ensures
        inserted(candidates, one) == candidates.insert(position, one),
    decreases candidates.len(),
{
    if position == candidates.len() {
        assert(candidates.insert(position, one) =~= candidates.push(one));
    } else {
        let shorter = candidates.drop_last();
        assert(candidates.last() == candidates[candidates.len() - 1]);
        assert forall|i: int| position <= i < shorter.len() implies before(
            one,
            #[trigger] shorter[i],
        ) by {
            assert(shorter[i] == candidates[i]);
        }
        if position > 0 {
            assert(shorter[position - 1] == candidates[position - 1]);
        }
        inserted_at(shorter, one, position);
        assert(candidates.insert(position, one) =~= shorter.insert(position, one).push(
            candidates.last(),
        ));
    }
}

/// Inserting keeps the order and adds exactly one candidate.
pub proof fn inserted_shape(candidates: Seq<ChildCandidate>, one: ChildCandidate)
    requires
        ascending(candidates),
    ensures
        ascending(inserted(candidates, one)),
        inserted(candidates, one).len() == candidates.len() + 1,
        inserted(candidates, one).contains(one),
        forall|c: ChildCandidate|
            candidates.contains(c) ==> #[trigger] inserted(candidates, one).contains(c),
        forall|c: ChildCandidate| #[trigger]
            inserted(candidates, one).contains(c) ==> c == one || candidates.contains(c),
    decreases candidates.len(),
{
    let result = inserted(candidates, one);
    if candidates.len() == 0 || !before(one, candidates.last()) {
        assert(result[candidates.len() as int] == one);
        assert forall|i: int, j: int| 0 <= i < j < result.len() implies !#[trigger] before(
            result[j],
            result[i],
        ) by {
            if j == candidates.len() {
                let last = candidates.last();
                before_is_total(one, last);
                before_is_total(candidates[i], last);
                before_is_total(one, candidates[i]);
                if i < candidates.len() - 1 {
                    assert(!before(candidates[candidates.len() - 1], candidates[i]));
                }
            }
        }
        assert forall|c: ChildCandidate| candidates.contains(c) implies #[trigger] result.contains(
            c,
        ) by {
            let i = choose|i: int| 0 <= i < candidates.len() && candidates[i] == c;
            assert(result[i] == c);
        }
        assert forall|c: ChildCandidate| #[trigger] result.contains(c) implies c == one
            || candidates.contains(c) by {
            let i = choose|i: int| 0 <= i < result.len() && result[i] == c;
            if i < candidates.len() {
                assert(candidates[i] == c);
            }
        }
    } else {
        let shorter = candidates.drop_last();
        let last = candidates.last();
        assert(ascending(shorter)) by {
            assert forall|i: int, j: int| 0 <= i < j < shorter.len() implies !#[trigger] before(
                shorter[j],
                shorter[i],
            ) by {
                assert(!before(candidates[j], candidates[i]));
            }
        }
        inserted_shape(shorter, one);
        let inner = inserted(shorter, one);
        assert forall|i: int, j: int| 0 <= i < j < result.len() implies !#[trigger] before(
            result[j],
            result[i],
        ) by {
            if j == inner.len() {
                assert(inner.contains(inner[i]));
                if inner[i] == one {
                    before_is_total(one, last);
                } else {
                    let k = choose|k: int| 0 <= k < shorter.len() && shorter[k] == inner[i];
                    assert(!before(candidates[candidates.len() - 1], candidates[k]));
                }
            } else {
                assert(!before(inner[j], inner[i]));
            }
        }
        assert(result.contains(one)) by {
            let i = choose|i: int| 0 <= i < inner.len() && inner[i] == one;
            assert(result[i] == one);
        }
        assert forall|c: ChildCandidate| candidates.contains(c) implies #[trigger] result.contains(
            c,
        ) by {
            let i = choose|i: int| 0 <= i < candidates.len() && candidates[i] == c;
            if i == candidates.len() - 1 {
                assert(result[inner.len() as int] == c);
            } else {
                assert(shorter[i] == c);
                assert(inner.contains(c));
                let k = choose|k: int| 0 <= k < inner.len() && inner[k] == c;
                assert(result[k] == c);
            }
        }
        assert forall|c: ChildCandidate| #[trigger] result.contains(c) implies c == one
            || candidates.contains(c) by {
            let i = choose|i: int| 0 <= i < result.len() && result[i] == c;
            if i == inner.len() {
                assert(candidates[candidates.len() - 1] == c);
            } else {
                assert(inner.contains(c));
                if c != one {
                    let k = choose|k: int| 0 <= k < shorter.len() && shorter[k] == c;
                    assert(candidates[k] == c);
                }
            }
        }
    }
}

/// A beam retains the nearest candidates: as many as fit, in ascending order,
/// each of them considered, and nothing it left out comes before any of them.
pub proof fn beam_retains_the_nearest(considered: Seq<ChildCandidate>, beam: nat)
    ensures
        ({
            let kept = retained(considered, beam);
            &&& ascending(kept)
            &&& kept.len() == if considered.len() < beam {
                considered.len()
            } else {
                beam
            }
            &&& forall|c: ChildCandidate| #[trigger] kept.contains(c) ==> considered.contains(c)
            &&& considered.len() <= beam ==> forall|c: ChildCandidate| #[trigger]
                considered.contains(c) ==> kept.contains(c)
            &&& forall|c: ChildCandidate, k: int| #[trigger]
                considered.contains(c) && !kept.contains(c) && 0 <= k < kept.len() ==> !before(
                    c,
                    #[trigger] kept[k],
                )
        }),
    decreases considered.len(),
{
    let kept = retained(considered, beam);
    if considered.len() > 0 {
        let earlier = considered.drop_last();
        let one = considered.last();
        beam_retains_the_nearest(earlier, beam);
        let old_kept = retained(earlier, beam);
        inserted_shape(old_kept, one);
        let grown = inserted(old_kept, one);
        assert(kept == truncated(grown, beam));
        assert forall|i: int, j: int| 0 <= i < j < kept.len() implies !#[trigger] before(
            kept[j],
            kept[i],
        ) by {
            assert(!before(grown[j], grown[i]));
        }
        assert forall|c: ChildCandidate| #[trigger] kept.contains(c) implies considered.contains(
            c,
        ) by {
            let i = choose|i: int| 0 <= i < kept.len() && kept[i] == c;
            assert(grown[i] == c);
            assert(grown.contains(c));
            if c == one {
                assert(considered[considered.len() - 1] == c);
            } else {
                assert(old_kept.contains(c));
                assert(earlier.contains(c));
                let k = choose|k: int| 0 <= k < earlier.len() && earlier[k] == c;
                assert(considered[k] == c);
            }
        }
        if considered.len() <= beam {
            assert forall|c: ChildCandidate| #[trigger] considered.contains(c) implies kept.contains(
                c,
            ) by {
                let m = choose|m: int| 0 <= m < considered.len() && considered[m] == c;
                if m < earlier.len() {
                    assert(earlier[m] == c);
                    assert(earlier.contains(c));
                    assert(old_kept.contains(c));
                }
                assert(grown.contains(c));
            }
        }
        assert forall|c: ChildCandidate, k: int| #[trigger]
            considered.contains(c) && !kept.contains(c) && 0 <= k < kept.len() implies !before(
            c,
            #[trigger] kept[k],
        ) by {
            if grown.contains(c) {
                let i = choose|i: int| 0 <= i < grown.len() && grown[i] == c;
                if i < kept.len() {
                    assert(kept[i] == c);
                }
                assert(kept[k] == grown[k]);
                assert(!before(grown[i], grown[k]));
            } else {
                let m = choose|m: int| 0 <= m < considered.len() && considered[m] == c;
                assert(c != one);
                assert(earlier[m] == c);
                assert(earlier.contains(c));
                assert(!old_kept.contains(c));
                assert(old_kept.len() == beam);
                assert(kept[k] == grown[k]);
                assert(grown.contains(grown[k]));
                if grown[k] == one {
                    // The new candidate displaced the old last one.
                    let last = old_kept[old_kept.len() - 1];
                    assert(!before(c, last));
                    assert(grown.contains(last));
                    let p = choose|p: int| 0 <= p < grown.len() && grown[p] == last;
                    if p <= k {
                        displaced_position(old_kept, one, k);
                    }
                    before_is_total(c, last);
                    before_is_total(one, last);
                    before_is_total(c, one);
                    if p > k {
                        assert(!before(grown[p], grown[k]));
                    }
                } else {
                    assert(old_kept.contains(grown[k]));
                    let q = choose|q: int| 0 <= q < old_kept.len() && old_kept[q] == grown[k];
                    assert(!before(c, old_kept[q]));
                }
            }
        }
    }
}

/// A candidate inserted within the old length stands before the old last one.
proof fn displaced_position(candidates: Seq<ChildCandidate>, one: ChildCandidate, position: int)
    requires
        ascending(candidates),
        candidates.len() > 0,
        0 <= position < candidates.len(),
        inserted(candidates, one)[position] == one,
    ensures
        !before(candidates.last(), one),
{
    if !before(one, candidates.last()) {
        assert(inserted(candidates, one) == candidates.push(one));
        assert(candidates[position] == one);
        if position < candidates.len() - 1 {
            assert(!before(candidates[candidates.len() - 1], candidates[position]));
        } else {
            before_is_total(one, one);
        }
    } else {
        before_is_total(one, candidates.last());
    }
}

/// The nearest child references of one vector, up to a beam width.
pub struct NearestChildren {
    beam: usize,
    best: Vec<ChildCandidate>,
}

impl NearestChildren {
    /// The beam width.
    pub closed spec fn width(self) -> nat {
        self.beam as nat
    }

    /// The retained candidates, nearest first.
    pub closed spec fn kept(self) -> Seq<ChildCandidate> {
        self.best@
    }

    /// Whether the retained candidates are in order and within the beam.
    pub open spec fn well_formed(self) -> bool {
        ascending(self.kept()) && self.kept().len() <= self.width()
    }

    /// An empty selection of the given width.
    pub fn new(beam: usize) -> (res: Self)
        ensures
            res.width() == beam,
            res.kept() == Seq::<ChildCandidate>::empty(),
            res.well_formed(),
    {
        NearestChildren { beam, best: Vec::new() }
    }

    /// Considers one more candidate.
    pub fn consider(&mut self, one: ChildCandidate)
        requires
            old(self).well_formed(),
        ensures
            final(self).well_formed(),
            final(self).width() == old(self).width(),
            final(self).kept() == truncated(inserted(old(self).kept(), one), old(self).width()),
    {
        let ghost kept = self.best@;
        let mut position: usize = self.best.len();
        while position > 0 && comes_before(one, self.best[position - 1])
            invariant
                self.best@ == kept,
                position <= kept.len(),
                forall|i: int| position <= i < kept.len() ==> before(one, #[trigger] kept[i]),
            decreases position,
        {
            position = position - 1;
        }
        proof {
            inserted_at(kept, one, position as int);
            inserted_shape(kept, one);
        }
        if position < self.beam {
            self.best.insert(position, one);
            assert(self.best@ == inserted(kept, one));
            if self.best.len() > self.beam {
                let _ = self.best.pop();
                assert(self.best@ =~= truncated(inserted(kept, one), self.beam as nat));
            }
        } else {
            assert(kept =~= truncated(inserted(kept, one), self.beam as nat));
        }
        assert(ascending(self.best@)) by {
            let grown = inserted(kept, one);
            assert forall|i: int, j: int| 0 <= i < j < self.best@.len() implies !#[trigger] before(
                self.best@[j],
                self.best@[i],
            ) by {
                assert(!before(grown[j], grown[i]));
            }
        }
    }

    /// Returns the number of retained candidates.
    pub fn len(&self) -> (res: usize)
        ensures
            res == self.kept().len(),
    {
        self.best.len()
    }

    /// Returns the retained candidates, nearest first.
    pub fn into_best(self) -> (res: Vec<ChildCandidate>)
        ensures
            res@ == self.kept(),
    {
        self.best
    }
}

/// Whether the legal candidate at `best` is the nearest: no legal candidate
/// precedes it, and it precedes every earlier legal one.
pub open spec fn nearest_legal(
    source: PartitionKey,
    candidates: Seq<LevelCandidate>,
    distances: Seq<Option<Distance>>,
    best: int,
    upto: int,
) -> bool {
    &&& 0 <= best < upto
    &&& candidates[best].legal_for(source)
    &&& forall|i: int|
        0 <= i < upto && (#[trigger] candidates[i]).legal_for(source) ==> !precedes(
            distances[i]->0,
            candidates[i].partition,
            distances[best]->0,
            candidates[best].partition,
        )
    &&& forall|i: int|
        0 <= i < best && (#[trigger] candidates[i]).legal_for(source) ==> precedes(
            distances[best]->0,
            candidates[best].partition,
            distances[i]->0,
            candidates[i].partition,
        )
}

/// Selects the nearest legal merge target of `source` for one vector: a
/// `Ready` candidate other than the source, nearer distance first with the
/// Partition Key tie-break. A legal candidate without a finite distance is
/// Corruption.
pub fn nearest_ready_candidate(
    source: PartitionKey,
    candidates: &Vec<LevelCandidate>,
    distances: &Vec<Option<Distance>>,
) -> (res: Result<Option<usize>>)
    requires
        candidates@.len() == distances@.len(),
    ensures
        match res {
            Ok(found) => {
                &&& forall|i: int|
                    0 <= i < candidates@.len() && (#[trigger] candidates@[i]).legal_for(source)
                        ==> distances@[i] is Some
                &&& match found {
                    Some(best) => nearest_legal(
                        source,
                        candidates@,
                        distances@,
                        best as int,
                        candidates@.len() as int,
                    ),
                    None => forall|i: int|
                        0 <= i < candidates@.len() ==> !(#[trigger] candidates@[i]).legal_for(
                            source,
                        ),
                }
            },
            Err(error) => {
                &&& error == plain_error(ErrorKind::Corruption)
                &&& exists|i: int|
                    0 <= i < candidates@.len() && (#[trigger] candidates@[i]).legal_for(source)
                        && distances@[i] is None
            },
        },
{
    let mut best: Option<usize> = None;
    let mut at: usize = 0;
    while at < candidates.len()
        invariant
            candidates@.len() == distances@.len(),
            at <= candidates@.len(),
            forall|i: int|
                0 <= i < at && (#[trigger] candidates@[i]).legal_for(source) ==> distances@[i]
                    is Some,
            match best {
                Some(b) => nearest_legal(
                    source,
                    candidates@,
                    distances@,
                    b as int,
                    at as int,
                ),
                None => forall|i: int|
                    0 <= i < at ==> !(#[trigger] candidates@[i]).legal_for(source),
            },
        decreases candidates@.len() - at,
    {
        let candidate = candidates[at];
        if candidate.is_legal_merge_target(source) {
            let distance = match distances[at] {
                Some(distance) => distance,
                None => {
                    assert(candidates@[at as int].legal_for(source));
                    return Err(Error::new(ErrorKind::Corruption));
                },
            };
            let replace = match best {
                None => true,
                Some(b) => match distances[b] {
                    Some(best_distance) => beats(
                        distance,
                        candidate.partition,
                        best_distance,
                        candidates[b].partition,
                    ),
                    None => false,
                },
            };
            if replace {
                best = Some(at);
            }
        }
        at = at + 1;
    }
    Ok(best)
}

/// The nearest legal candidate is `Ready`, is not the source, and no `Ready`
/// candidate other than the source has a smaller rank, nor an equal rank and a
/// smaller key.
pub proof fn reselection_finds_the_least_rank(
    source: PartitionKey,
    candidates: Seq<LevelCandidate>,
    distances: Seq<Option<Distance>>,
    best: int,
)
    requires
        nearest_legal(source, candidates, distances, best, candidates.len() as int),
    ensures
        0 <= best < candidates.len(),
        candidates[best].header.state == PartitionState::Ready,
        candidates[best].partition != source,
        forall|i: int|
            0 <= i < candidates.len() && (#[trigger] candidates[i]).header.state
                == PartitionState::Ready && candidates[i].partition != source ==> {
                ||| distances[best]->0.rank < distances[i]->0.rank
                ||| distances[best]->0.rank == distances[i]->0.rank && candidates[best].partition@
                    <= candidates[i].partition@
            },
{
    assert forall|i: int|
        0 <= i < candidates.len() && (#[trigger] candidates[i]).header.state
            == PartitionState::Ready && candidates[i].partition != source implies {
        ||| distances[best]->0.rank < distances[i]->0.rank
        ||| distances[best]->0.rank == distances[i]->0.rank && candidates[best].partition@
            <= candidates[i].partition@
    } by {
        assert(candidates[i].legal_for(source));
        smaller_ranks_come_first(
            candidates[i].partition,
            distances[i]->0,
            candidates[best].partition,
            distances[best]->0,
        );
    }
}

/// A beam leaves out no child that is nearer than one it retains: the rank of
/// every retained child is at most that of every considered child left out.
pub proof fn beams_retain_the_least_ranks(considered: Seq<ChildCandidate>, beam: nat)
    ensures
        ({
            let kept = retained(considered, beam);
            &&& kept.len() <= beam
            &&& kept.len() <= considered.len()
            &&& kept.len() == beam || kept.len() == considered.len()
            &&& forall|k: int| 0 <= k < kept.len() ==> considered.contains(#[trigger] kept[k])
            &&& forall|i: int, j: int|
                0 <= i < j < kept.len() ==> (#[trigger] kept[i]).distance.rank <= (
                #[trigger] kept[j]).distance.rank
            &&& forall|i: int, k: int|
                0 <= i < considered.len() && 0 <= k < kept.len() && !kept.contains(
                    #[trigger] considered[i],
                ) ==> (#[trigger] kept[k]).distance.rank <= considered[i].distance.rank
        }),
{
    beam_retains_the_nearest(considered, beam);
    let kept = retained(considered, beam);
    assert forall|k: int| 0 <= k < kept.len() implies considered.contains(#[trigger] kept[k]) by {
        assert(kept.contains(kept[k]));
    }
    assert forall|i: int, j: int| 0 <= i < j < kept.len() implies (
    #[trigger] kept[i]).distance.rank <= (#[trigger] kept[j]).distance.rank by {
        assert(!before(kept[j], kept[i]));
        smaller_ranks_come_first(
            kept[j].child,
            kept[j].distance,
            kept[i].child,
            kept[i].distance,
        );
    }
    assert forall|i: int, k: int|
        0 <= i < considered.len() && 0 <= k < kept.len() && !kept.contains(
            #[trigger] considered[i],
        ) implies (#[trigger] kept[k]).distance.rank <= considered[i].distance.rank by {
        assert(considered.contains(considered[i]));
        assert(!before(considered[i], kept[k]));
        smaller_ranks_come_first(
            considered[i].child,
            considered[i].distance,
            kept[k].child,
            kept[k].distance,
        );
    }
}

/// Returns the beam width at one tree level: the leaf-level width, halved once
/// per level above the leaves, and at least one.
pub fn beam_width(leaf_width: u32, level: u32) -> (res: u32)
    requires
        level > 0,
    ensures
        res == halved(leaf_width, (level - 1) as nat),
{
    let mut width: u32 = leaf_width;
    let mut done: u32 = 0;
    while done < level - 1 && width > 1
        invariant
            level > 0,
            done <= level - 1,
            halved(leaf_width, (level - 1) as nat) == halved(width, (level - 1 - done) as nat),
        decreases level - done,
    {
        width = width / 2;
        done = done + 1;
    }
    proof {
        halving_bottoms_out(width, (level - 1 - done) as nat);
    }
    if width == 0 {
        1
    } else {
        width
    }
}

/// `width` halved `times` times, but never below one.
pub open spec fn halved(width: u32, times: nat) -> u32
    decreases times,
{
    if times == 0 {
        if width == 0 {
            1
        } else {
            width
        }
    } else {
        halved((width / 2) as u32, (times - 1) as nat)
    }
}

/// Halving a width of one leaves it at one.
pub proof fn halving_bottoms_out(width: u32, times: nat)
    ensures
        width <= 1 ==> halved(width, times) == 1,
        times == 0 && width > 0 ==> halved(width, times) == width,
    decreases times,
{
    if times > 0 && width <= 1 {
        halving_bottoms_out((width / 2) as u32, (times - 1) as nat);
    }
}

} // verus!
