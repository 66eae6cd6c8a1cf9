//! Balanced split draining: each entry of a draining source goes to the nearer
//! target, to a strictly better `Ready` sibling, or where a target's minimum
//! still needs it.

use std::collections::BTreeMap;

use vstd::prelude::*;

use crate::api::error::{plain_error, Error, ErrorKind, Result};
use crate::api::identifiers::{partition_key_of_view, PartitionKey};
use crate::api::number::Distance;
use crate::maintenance::ranking::{nearer, nearer_of_two, precedes, smaller_ranks_come_first};
use crate::topology::{PartitionHeader, PartitionState};

verus! {

broadcast use partition_key_of_view;

/// One partition that may own an entry, with the entry's distance to it.
#[derive(Clone, Copy, Debug, PartialEq, Eq, Structural)]
pub struct Owner {
    /// The partition.
    pub partition: PartitionKey,
    /// The entry's distance to the partition's centroid.
    pub distance: Distance,
}

/// The better of the best owner so far and one more.
pub open spec fn better_owner(best: Option<Owner>, one: Owner) -> Option<Owner> {
    match best {
        None => Some(one),
        Some(current) => if nearer(
            one.partition,
            one.distance,
            current.partition,
            current.distance,
        ) == one.partition {
            Some(one)
        } else {
            best
        },
    }
}

/// The best of some owners.
pub open spec fn best_owner(owners: Seq<Owner>) -> Option<Owner>
    decreases owners.len(),
{
    if owners.len() == 0 {
        None
    } else {
        better_owner(best_owner(owners.drop_last()), owners.last())
    }
}

/// The best owner, when it is strictly nearer than the current owner.
pub open spec fn improving_owner(current: Distance, owners: Seq<Owner>) -> Option<PartitionKey> {
    match best_owner(owners) {
        Some(best) => if best.distance.rank < current.rank {
            Some(best.partition)
        } else {
            None
        },
        None => None,
    }
}

/// Chooses the nearest candidate only when it strictly improves ownership.
pub fn strictly_better_owner(current: Distance, owners: &Vec<Owner>) -> (res: Option<PartitionKey>)
    ensures
        res == improving_owner(current, owners@),
        res matches Some(partition) ==> exists|i: int|
            0 <= i < owners@.len() && (#[trigger] owners@[i]).partition == partition
                && owners@[i].distance.rank < current.rank,
{
    proof {
        best_owner_is_one(owners@);
    }
    let mut best: Option<Owner> = None;
    let mut at: usize = 0;
    while at < owners.len()
        invariant
            at <= owners@.len(),
            best == best_owner(owners@.take(at as int)),
        decreases owners@.len() - at,
    {
        let one = owners[at];
        assert(owners@.take(at + 1).drop_last() =~= owners@.take(at as int));
        best = match best {
            None => Some(one),
            Some(current) => {
                if nearer_of_two(
                    one.partition,
                    one.distance,
                    current.partition,
                    current.distance,
                ) == one.partition {
                    Some(one)
                } else {
                    best
                }
            },
        };
        at = at + 1;
    }
    assert(owners@.take(at as int) =~= owners@);
    match best {
        Some(best) => {
            proof {
                let k = choose|k: int| 0 <= k < owners@.len() && owners@[k] == best;
                assert(owners@[k] == best);
            }
            if best.distance.rank < current.rank {
                Some(best.partition)
            } else {
                None
            }
        },
        None => None,
    }
}

/// Whether no two owners are the same partition.
pub open spec fn distinct_owners(owners: Seq<Owner>) -> bool {
    forall|i: int, j: int|
        0 <= i < j < owners.len() ==> (#[trigger] owners[i]).partition@ != (
        #[trigger] owners[j]).partition@
}

/// Among distinct partitions the best owner is one of them, and none precedes
/// it.
pub proof fn best_owner_is_nearest(owners: Seq<Owner>)
    requires
        distinct_owners(owners),
        owners.len() > 0,
    ensures
        best_owner(owners) is Some,
        owners.contains(best_owner(owners)->0),
        forall|i: int|
            0 <= i < owners.len() ==> !precedes(
                (#[trigger] owners[i]).distance,
                owners[i].partition,
                best_owner(owners)->0.distance,
                best_owner(owners)->0.partition,
            ),
    decreases owners.len(),
{
    let shorter = owners.drop_last();
    let last = owners.last();
    assert(last == owners[owners.len() - 1]);
    if shorter.len() > 0 {
        assert forall|i: int, j: int| 0 <= i < j < shorter.len() implies (
        #[trigger] shorter[i]).partition@ != (#[trigger] shorter[j]).partition@ by {
            assert(owners[i].partition@ != owners[j].partition@);
        }
        best_owner_is_nearest(shorter);
        let before = best_owner(shorter)->0;
        let k = choose|k: int| 0 <= k < shorter.len() && shorter[k] == before;
        assert(owners[k] == before);
        assert(owners[k].partition@ != owners[owners.len() - 1].partition@);
        assert forall|i: int| 0 <= i < owners.len() implies !precedes(
            (#[trigger] owners[i]).distance,
            owners[i].partition,
            best_owner(owners)->0.distance,
            best_owner(owners)->0.partition,
        ) by {
            if i < shorter.len() {
                assert(shorter[i] == owners[i]);
            }
        }
    }
}

/// The exact counts that keep both split targets viable: the entries the
/// source still holds and what each target still needs for its minimum.
#[derive(Clone, Copy, Debug, PartialEq, Eq, Structural)]
pub struct SplitBalance {
    /// The entries the source still holds.
    pub source_remaining: u64,
    /// The entries the left target still needs.
    pub left_needed: u64,
    /// The entries the right target still needs.
    pub right_needed: u64,
}

/// What a target with some entries needs to reach a minimum.
pub open spec fn shortfall(minimum: u32, count: u32) -> u64 {
    if count < minimum {
        (minimum - count) as u64
    } else {
        0
    }
}

impl SplitBalance {
    /// Whether both minima can still be reached.
    pub open spec fn attainable(self) -> bool {
        self.left_needed + self.right_needed <= self.source_remaining
    }

    /// Whether one more entry can be accounted for.
    pub open spec fn countable(self) -> bool {
        self.source_remaining > 0 && self.left_needed + self.right_needed <= u64::MAX
    }

    /// The target of one more entry that stays within the split: the one
    /// whose attainable minimum needs every remaining entry, else the nearer.
    pub open spec fn target(
        self,
        left: PartitionKey,
        left_distance: Distance,
        right: PartitionKey,
        right_distance: Distance,
    ) -> PartitionKey {
        if self.attainable() && self.left_needed >= self.source_remaining {
            left
        } else if self.attainable() && self.right_needed >= self.source_remaining {
            right
        } else {
            nearer(left, left_distance, right, right_distance)
        }
    }

    /// The counts after one entry went to a target.
    pub open spec fn after(self, to_left: bool) -> SplitBalance {
        SplitBalance {
            source_remaining: (self.source_remaining - 1) as u64,
            left_needed: if to_left && self.left_needed > 0 {
                (self.left_needed - 1) as u64
            } else {
                self.left_needed
            },
            right_needed: if !to_left && self.right_needed > 0 {
                (self.right_needed - 1) as u64
            } else {
                self.right_needed
            },
        }
    }

    /// Whether one entry may leave for a `Ready` sibling: both minima remain
    /// attainable afterwards.
    pub open spec fn releasable(self) -> bool {
        self.left_needed + self.right_needed <= self.source_remaining - 1
    }

    /// The counts after one entry left for a `Ready` sibling.
    pub open spec fn released(self) -> SplitBalance {
        SplitBalance { source_remaining: (self.source_remaining - 1) as u64, ..self }
    }

    /// The counts of a split from the exact Header counts.
    pub fn new(source: u32, left: u32, right: u32, minimum: u32) -> (res: Self)
        ensures
            res == (SplitBalance {
                source_remaining: source as u64,
                left_needed: shortfall(minimum, left),
                right_needed: shortfall(minimum, right),
            }),
            res.source_remaining == source,
            res.left_needed + left >= minimum && (res.left_needed > 0 ==> res.left_needed + left
                == minimum),
            res.right_needed + right >= minimum && (res.right_needed > 0 ==> res.right_needed
                + right == minimum),
    {
        SplitBalance {
            source_remaining: source as u64,
            left_needed: minimum.saturating_sub(left) as u64,
            right_needed: minimum.saturating_sub(right) as u64,
        }
    }

    /// Chooses the target of one more entry and accounts for it; an entry the
    /// source does not hold is Corruption.
    pub fn choose_target(
        &mut self,
        left: PartitionKey,
        left_distance: Distance,
        right: PartitionKey,
        right_distance: Distance,
    ) -> (res: Result<PartitionKey>)
        ensures
            match res {
                Ok(target) => {
                    &&& old(self).countable()
                    &&& target == old(self).target(left, left_distance, right, right_distance)
                    &&& *final(self) == old(self).after(target == left)
                },
                Err(error) => {
                    &&& !old(self).countable()
                    &&& *final(self) == *old(self)
                    &&& error == plain_error(ErrorKind::Corruption)
                },
            },
    {
        let remaining: u64 = match self.source_remaining.checked_sub(1) {
            Some(remaining) => remaining,
            None => {
                return Err(Error::new(ErrorKind::Corruption));
            },
        };
        let needed: u64 = match self.left_needed.checked_add(self.right_needed) {
            Some(needed) => needed,
            None => {
                return Err(Error::new(ErrorKind::Corruption));
            },
        };
        let attainable = needed <= self.source_remaining;
        let target = if attainable && self.left_needed > remaining {
            left
        } else if attainable && self.right_needed > remaining {
            right
        } else {
            nearer_of_two(left, left_distance, right, right_distance)
        };
        self.source_remaining = remaining;
        if target == left {
            self.left_needed = self.left_needed.saturating_sub(1);
        } else {
            self.right_needed = self.right_needed.saturating_sub(1);
        }
        Ok(target)
    }

    /// Reserves one source entry for a `Ready` sibling, only when both split
    /// target minima remain attainable afterwards.
    pub fn release_to_ready(&mut self) -> (res: Result<bool>)
        ensures
            match res {
                Ok(true) => {
                    &&& old(self).countable()
                    &&& old(self).releasable()
                    &&& *final(self) == old(self).released()
                },
                Ok(false) => {
                    &&& old(self).countable()
                    &&& !old(self).releasable()
                    &&& *final(self) == *old(self)
                },
                Err(error) => {
                    &&& !old(self).countable()
                    &&& *final(self) == *old(self)
                    &&& error == plain_error(ErrorKind::Corruption)
                },
            },
    {
        let remaining: u64 = match self.source_remaining.checked_sub(1) {
            Some(remaining) => remaining,
            None => {
                return Err(Error::new(ErrorKind::Corruption));
            },
        };
        let needed: u64 = match self.left_needed.checked_add(self.right_needed) {
            Some(needed) => needed,
            None => {
                return Err(Error::new(ErrorKind::Corruption));
            },
        };
        if needed > remaining {
            return Ok(false);
        }
        self.source_remaining = remaining;
        Ok(true)
    }
}

/// Attainable minima stay attainable: whichever target an entry goes to, and
/// whenever an entry is released to a sibling. Once the source is empty both
/// minima are met.
pub proof fn minima_stay_attainable(
    balance: SplitBalance,
    left: PartitionKey,
    left_distance: Distance,
    right: PartitionKey,
    right_distance: Distance,
)
    requires
        balance.attainable(),
        left != right,
    ensures
        balance.source_remaining > 0 ==> balance.after(
            balance.target(left, left_distance, right, right_distance) == left,
        ).attainable(),
        balance.source_remaining > 0 && balance.releasable() ==> balance.released().attainable(),
        balance.source_remaining == 0 ==> balance.left_needed == 0 && balance.right_needed == 0,
{
}

/// With slack an entry goes to the target of smaller rank; when one target's
/// minimum needs every remaining entry, the entry goes there.
pub proof fn balanced_targets_are_nearest_or_needed(
    balance: SplitBalance,
    left: PartitionKey,
    left_distance: Distance,
    right: PartitionKey,
    right_distance: Distance,
)
    requires
        balance.source_remaining > 0,
    ensures
        ({
            let target = balance.target(left, left_distance, right, right_distance);
            let needed = balance.left_needed + balance.right_needed;
            &&& target == left || target == right
            &&& needed < balance.source_remaining || needed > balance.source_remaining || (
            balance.left_needed > 0 && balance.right_needed > 0) ==> {
                &&& left_distance.rank < right_distance.rank ==> target == left
                &&& right_distance.rank < left_distance.rank ==> target == right
            }
            &&& balance.left_needed == balance.source_remaining && balance.right_needed == 0
                ==> target == left
            &&& balance.right_needed == balance.source_remaining && balance.left_needed == 0
                ==> target == right
        }),
{
    smaller_ranks_come_first(left, left_distance, right, right_distance);
    smaller_ranks_come_first(right, right_distance, left, left_distance);
}

/// The number of entries, of those with the given distances, that go to one
/// side when none is released to a sibling.
pub open spec fn chosen(
    balance: SplitBalance,
    left: PartitionKey,
    right: PartitionKey,
    distances: Seq<(Distance, Distance)>,
    to_left: bool,
) -> nat
    decreases distances.len(),
{
    if distances.len() == 0 {
        0
    } else {
        let goes_left = balance.target(left, distances[0].0, right, distances[0].1) == left;
        let rest = chosen(balance.after(goes_left), left, right, distances.drop_first(), to_left);
        if goes_left == to_left {
            rest + 1
        } else {
            rest
        }
    }
}

/// Draining a whole source whose minima are attainable gives each target at
/// least what it needed, wherever its entries lie.
pub proof fn draining_meets_both_minima(
    balance: SplitBalance,
    left: PartitionKey,
    right: PartitionKey,
    distances: Seq<(Distance, Distance)>,
)
    requires
        balance.attainable(),
        left != right,
        distances.len() == balance.source_remaining,
    ensures
        chosen(balance, left, right, distances, true) >= balance.left_needed,
        chosen(balance, left, right, distances, false) >= balance.right_needed,
        chosen(balance, left, right, distances, true) + chosen(
            balance,
            left,
            right,
            distances,
            false,
        ) == distances.len(),
    decreases distances.len(),
{
    if distances.len() > 0 {
        let goes_left = balance.target(left, distances[0].0, right, distances[0].1) == left;
        minima_stay_attainable(balance, left, distances[0].0, right, distances[0].1);
        draining_meets_both_minima(
            balance.after(goes_left),
            left,
            right,
            distances.drop_first(),
        );
    }
}

/// The remaining room of a `Ready` partition.
pub open spec fn ready_room(capacity: Map<u64, u32>, partition: PartitionKey) -> u32 {
    if capacity.contains_key(partition@) {
        capacity[partition@]
    } else {
        0
    }
}

/// The distances of one draining entry. A distance that could not be computed
/// is `None`.
pub struct DrainDistances {
    /// The distance to the left target.
    pub left: Option<Distance>,
    /// The distance to the right target.
    pub right: Option<Distance>,
    /// The distances to the `Ready` candidates, in their order.
    pub ready: Vec<Option<Distance>>,
}

/// Whether every distance that routing reads is known: to both targets and to
/// each candidate with room.
pub open spec fn measured(
    entry: DrainDistances,
    candidates: Seq<PartitionKey>,
    capacity: Map<u64, u32>,
) -> bool {
    &&& entry.left is Some
    &&& entry.right is Some
    &&& forall|i: int|
        0 <= i < candidates.len() && ready_room(capacity, #[trigger] candidates[i]) > 0
            ==> entry.ready@[i] is Some
}

/// The first `n` candidates that have room, as owners.
pub open spec fn ready_owners(
    candidates: Seq<PartitionKey>,
    distances: Seq<Option<Distance>>,
    capacity: Map<u64, u32>,
    n: nat,
) -> Seq<Owner>
    decreases n,
{
    if n == 0 {
        Seq::empty()
    } else {
        let rest = ready_owners(candidates, distances, capacity, (n - 1) as nat);
        let candidate = candidates[n - 1];
        if ready_room(capacity, candidate) > 0 {
            rest.push(Owner { partition: candidate, distance: distances[n - 1]->0 })
        } else {
            rest
        }
    }
}

/// The nearer of two distances.
pub open spec fn lesser_distance(a: Distance, b: Distance) -> Distance {
    if b.rank < a.rank {
        b
    } else {
        a
    }
}

/// Returns the nearer of two distances.
pub fn nearer_distance(a: Distance, b: Distance) -> (res: Distance)
    ensures
        res == lesser_distance(a, b),
{
    if b.rank < a.rank {
        b
    } else {
        a
    }
}

/// The `Ready` sibling that strictly improves on both targets, if any.
pub open spec fn improving_sibling(
    entry: DrainDistances,
    candidates: Seq<PartitionKey>,
    capacity: Map<u64, u32>,
) -> Option<PartitionKey> {
    improving_owner(
        lesser_distance(entry.left->0, entry.right->0),
        ready_owners(candidates, entry.ready@, capacity, candidates.len()),
    )
}

/// The counts and rooms that one drain transaction routes against.
pub ghost struct DrainState {
    /// The exact counts.
    pub balance: SplitBalance,
    /// The remaining room of each `Ready` sibling.
    pub ready: Map<u64, u32>,
}

/// Whether one entry can be routed.
pub open spec fn routable(
    state: DrainState,
    entry: DrainDistances,
    candidates: Seq<PartitionKey>,
) -> bool {
    measured(entry, candidates, state.ready) && state.balance.countable()
}

/// Where one entry of a draining source goes.
pub open spec fn drain_choice(
    state: DrainState,
    left: PartitionKey,
    right: PartitionKey,
    entry: DrainDistances,
    candidates: Seq<PartitionKey>,
) -> PartitionKey {
    match improving_sibling(entry, candidates, state.ready) {
        Some(sibling) if state.balance.releasable() => sibling,
        _ => state.balance.target(left, entry.left->0, right, entry.right->0),
    }
}

/// The counts and rooms after one entry was routed.
pub open spec fn drain_after(
    state: DrainState,
    left: PartitionKey,
    right: PartitionKey,
    entry: DrainDistances,
    candidates: Seq<PartitionKey>,
) -> DrainState {
    match improving_sibling(entry, candidates, state.ready) {
        Some(sibling) if state.balance.releasable() => DrainState {
            balance: state.balance.released(),
            ready: state.ready.insert(
                sibling@,
                (ready_room(state.ready, sibling) - 1) as u32,
            ),
        },
        _ => DrainState {
            balance: state.balance.after(
                state.balance.target(left, entry.left->0, right, entry.right->0) == left,
            ),
            ..state
        },
    }
}

proof fn ready_owners_have_room(
    candidates: Seq<PartitionKey>,
    distances: Seq<Option<Distance>>,
    capacity: Map<u64, u32>,
    n: nat,
)
    requires
        n <= candidates.len(),
    ensures
        forall|i: int|
            0 <= i < ready_owners(candidates, distances, capacity, n).len() ==> ready_room(
                capacity,
                (#[trigger] ready_owners(candidates, distances, capacity, n)[i]).partition,
            ) > 0,
    decreases n,
{
    if n > 0 {
        ready_owners_have_room(candidates, distances, capacity, (n - 1) as nat);
        let rest = ready_owners(candidates, distances, capacity, (n - 1) as nat);
        let all = ready_owners(candidates, distances, capacity, n);
        assert forall|i: int| 0 <= i < all.len() implies ready_room(
            capacity,
            (#[trigger] all[i]).partition,
        ) > 0 by {
            if i < rest.len() {
                assert(all[i] == rest[i]);
            }
        }
    }
}

proof fn best_owner_is_one(owners: Seq<Owner>)
    ensures
        best_owner(owners) matches Some(best) ==> owners.contains(best),
    decreases owners.len(),
{
    if owners.len() > 0 {
        let shorter = owners.drop_last();
        best_owner_is_one(shorter);
        assert(owners[owners.len() - 1] == owners.last());
        if best_owner(shorter) is Some {
            let best = best_owner(shorter)->0;
            let k = choose|k: int| 0 <= k < shorter.len() && shorter[k] == best;
            assert(owners[k] == best);
        }
    }
}

/// A `Ready` sibling that improves on both targets has room.
pub proof fn improving_siblings_have_room(
    entry: DrainDistances,
    candidates: Seq<PartitionKey>,
    capacity: Map<u64, u32>,
)
    ensures
        improving_sibling(entry, candidates, capacity) matches Some(sibling) ==> ready_room(
            capacity,
            sibling,
        ) > 0,
{
    let owners = ready_owners(candidates, entry.ready@, capacity, candidates.len());
    ready_owners_have_room(candidates, entry.ready@, capacity, candidates.len());
    best_owner_is_one(owners);
    if best_owner(owners) is Some {
        let best = best_owner(owners)->0;
        let k = choose|k: int| 0 <= k < owners.len() && owners[k] == best;
        assert(ready_room(capacity, owners[k].partition) > 0);
    }
}

proof fn ready_owners_are_candidates(
    candidates: Seq<PartitionKey>,
    distances: Seq<Option<Distance>>,
    capacity: Map<u64, u32>,
    n: nat,
)
    requires
        n <= candidates.len(),
    ensures
        ({
            let owners = ready_owners(candidates, distances, capacity, n);
            &&& forall|k: int|
                0 <= k < owners.len() ==> owner_of(
                    candidates,
                    distances,
                    capacity,
                    n as int,
                    #[trigger] owners[k],
                )
            &&& forall|i: int|
                0 <= i < n && capacity.contains_key((#[trigger] candidates[i])@)
                    && capacity[candidates[i]@] > 0 ==> owners.contains(
                    Owner { partition: candidates[i], distance: distances[i]->0 },
                )
        }),
    decreases n,
{
    if n > 0 {
        ready_owners_are_candidates(candidates, distances, capacity, (n - 1) as nat);
        let rest = ready_owners(candidates, distances, capacity, (n - 1) as nat);
        let all = ready_owners(candidates, distances, capacity, n);
        assert forall|k: int| 0 <= k < all.len() implies owner_of(
            candidates,
            distances,
            capacity,
            n as int,
            #[trigger] all[k],
        ) by {
            if k < rest.len() {
                assert(all[k] == rest[k]);
                let i = choose|i: int|
                    {
                        &&& 0 <= i < n - 1
                        &&& #[trigger] candidates[i] == rest[k].partition
                        &&& distances[i]->0 == rest[k].distance
                        &&& capacity.contains_key(candidates[i]@)
                        &&& capacity[candidates[i]@] > 0
                    };
                assert(candidates[i] == all[k].partition);
            } else {
                assert(candidates[n - 1] == all[k].partition);
            }
        }
        assert forall|i: int|
            0 <= i < n && capacity.contains_key((#[trigger] candidates[i])@)
                && capacity[candidates[i]@] > 0 implies all.contains(
            Owner { partition: candidates[i], distance: distances[i]->0 },
        ) by {
            let one = Owner { partition: candidates[i], distance: distances[i]->0 };
            if i < n - 1 {
                let k = choose|k: int| 0 <= k < rest.len() && rest[k] == one;
                assert(all[k] == one);
            } else {
                assert(all[all.len() - 1] == one);
            }
        }
    }
}

/// Whether an owner is one of the first `n` candidates, with room and at its
/// measured distance.
pub open spec fn owner_of(
    candidates: Seq<PartitionKey>,
    distances: Seq<Option<Distance>>,
    capacity: Map<u64, u32>,
    n: int,
    owner: Owner,
) -> bool {
    exists|i: int|
        {
            &&& 0 <= i < n
            &&& #[trigger] candidates[i] == owner.partition
            &&& distances[i]->0 == owner.distance
            &&& capacity.contains_key(candidates[i]@)
            &&& capacity[candidates[i]@] > 0
        }
}

proof fn ready_owners_are_distinct(
    candidates: Seq<PartitionKey>,
    distances: Seq<Option<Distance>>,
    capacity: Map<u64, u32>,
    n: nat,
)
    requires
        n <= candidates.len(),
        forall|i: int, j: int|
            0 <= i < j < candidates.len() ==> (#[trigger] candidates[i])@ != (
            #[trigger] candidates[j])@,
    ensures
        distinct_owners(ready_owners(candidates, distances, capacity, n)),
    decreases n,
{
    if n > 0 {
        ready_owners_are_distinct(candidates, distances, capacity, (n - 1) as nat);
        ready_owners_are_candidates(candidates, distances, capacity, (n - 1) as nat);
        let rest = ready_owners(candidates, distances, capacity, (n - 1) as nat);
        let all = ready_owners(candidates, distances, capacity, n);
        assert forall|a: int, b: int| 0 <= a < b < all.len() implies (
        #[trigger] all[a]).partition@ != (#[trigger] all[b]).partition@ by {
            assert(all[a] == rest[a]);
            if b < rest.len() {
                assert(all[b] == rest[b]);
            } else {
                let i = choose|i: int|
                    {
                        &&& 0 <= i < n - 1
                        &&& #[trigger] candidates[i] == rest[a].partition
                        &&& distances[i]->0 == rest[a].distance
                        &&& capacity.contains_key(candidates[i]@)
                        &&& capacity[candidates[i]@] > 0
                    };
                assert(candidates[i]@ != candidates[n - 1]@);
            }
        }
    }
}

/// Whether a candidate has room and is strictly nearer than both targets, and
/// by how much is told by its position.
pub open spec fn outranks_targets(
    entry: DrainDistances,
    candidates: Seq<PartitionKey>,
    capacity: Map<u64, u32>,
    at: int,
) -> bool {
    &&& 0 <= at < candidates.len()
    &&& capacity.contains_key(candidates[at]@)
    &&& capacity[candidates[at]@] > 0
    &&& entry.ready@[at]->0.rank < entry.left->0.rank
    &&& entry.ready@[at]->0.rank < entry.right->0.rank
}

/// A draining entry leaves its split only for a candidate with room that is
/// strictly nearer than both targets, and only while both minima keep at least
/// one entry of slack. With slack and such a candidate it does leave, for the
/// nearest candidate with room. Otherwise it goes to a target: with slack to
/// the nearer one, without to the one whose minimum needs every entry.
pub proof fn drained_entries_leave_only_for_nearer_siblings(
    state: DrainState,
    left: PartitionKey,
    right: PartitionKey,
    entry: DrainDistances,
    candidates: Seq<PartitionKey>,
    at: int,
)
    ensures
        ({
            let choice = drain_choice(state, left, right, entry, candidates);
            let needed = state.balance.left_needed + state.balance.right_needed;
            let remaining = state.balance.source_remaining;
            &&& choice != left && choice != right ==> needed < remaining && exists|i: int|
                #[trigger] outranks_targets(entry, candidates, state.ready, i) && candidates[i]
                    == choice
            &&& (needed >= remaining || forall|i: int|
                !#[trigger] outranks_targets(entry, candidates, state.ready, i)) ==> {
                &&& choice == left || choice == right
                &&& needed < remaining && entry.left->0.rank < entry.right->0.rank ==> choice
                    == left
                &&& needed < remaining && entry.right->0.rank < entry.left->0.rank ==> choice
                    == right
                &&& needed <= remaining && remaining > 0 && state.balance.left_needed == remaining
                    ==> choice == left
                &&& needed <= remaining && remaining > 0 && state.balance.right_needed == remaining
                    ==> choice == right
            }
            &&& needed < remaining && outranks_targets(entry, candidates, state.ready, at) && (
            forall|i: int, j: int|
                0 <= i < j < candidates.len() ==> (#[trigger] candidates[i])@ != (
                #[trigger] candidates[j])@) ==> exists|i: int|
                {
                    &&& #[trigger] outranks_targets(entry, candidates, state.ready, i)
                    &&& candidates[i] == choice
                    &&& entry.ready@[i]->0.rank <= entry.ready@[at]->0.rank
                }
        }),
{
    let n = candidates.len();
    let owners = ready_owners(candidates, entry.ready@, state.ready, n);
    ready_owners_are_candidates(candidates, entry.ready@, state.ready, n);
    best_owner_is_one(owners);
    smaller_ranks_come_first(left, entry.left->0, right, entry.right->0);
    smaller_ranks_come_first(right, entry.right->0, left, entry.left->0);
    if best_owner(owners) is Some {
        let best = best_owner(owners)->0;
        let k = choose|k: int| 0 <= k < owners.len() && owners[k] == best;
        assert(owner_of(candidates, entry.ready@, state.ready, n as int, owners[k]));
        let i = choose|i: int|
            {
                &&& 0 <= i < n
                &&& #[trigger] candidates[i] == best.partition
                &&& entry.ready@[i]->0 == best.distance
                &&& state.ready.contains_key(candidates[i]@)
                &&& state.ready[candidates[i]@] > 0
            };
        if improving_sibling(entry, candidates, state.ready) is Some {
            assert(outranks_targets(entry, candidates, state.ready, i));
        }
        if outranks_targets(entry, candidates, state.ready, at) && (forall|i: int, j: int|
            0 <= i < j < candidates.len() ==> (#[trigger] candidates[i])@ != (
            #[trigger] candidates[j])@) {
            ready_owners_are_distinct(candidates, entry.ready@, state.ready, n);
            best_owner_is_nearest(owners);
            let one = Owner { partition: candidates[at], distance: entry.ready@[at]->0 };
            let m = choose|m: int| 0 <= m < owners.len() && owners[m] == one;
            assert(!precedes(
                owners[m].distance,
                owners[m].partition,
                best.distance,
                best.partition,
            ));
            smaller_ranks_come_first(one.partition, one.distance, best.partition, best.distance);
            assert(outranks_targets(entry, candidates, state.ready, i));
        }
    } else if outranks_targets(entry, candidates, state.ready, at) {
        let one = Owner { partition: candidates[at], distance: entry.ready@[at]->0 };
        assert(owners.contains(one));
        best_owner_of_some(owners);
    }
}

proof fn best_owner_of_some(owners: Seq<Owner>)
    requires
        owners.len() > 0,
    ensures
        best_owner(owners) is Some,
{
}

/// Routing one entry takes one from the source. An entry that leaves for a
/// sibling takes one of its room and nothing else; one that goes to a target
/// takes one from what that target needs, if it needs any, and nothing else.
pub proof fn drained_entries_are_counted_once(
    state: DrainState,
    left: PartitionKey,
    right: PartitionKey,
    entry: DrainDistances,
    candidates: Seq<PartitionKey>,
)
    requires
        state.balance.source_remaining > 0,
        left != right,
    ensures
        ({
            let choice = drain_choice(state, left, right, entry, candidates);
            let after = drain_after(state, left, right, entry, candidates);
            let before = state.balance;
            &&& after.balance.source_remaining == before.source_remaining - 1
            &&& choice != left && choice != right ==> {
                &&& after.balance.left_needed == before.left_needed
                &&& after.balance.right_needed == before.right_needed
                &&& after.ready.contains_key(choice@)
                &&& after.ready[choice@] + 1 == state.ready[choice@]
                &&& forall|key: u64|
                    key != choice@ ==> (#[trigger] after.ready.contains_key(key)
                        <==> state.ready.contains_key(key)) && after.ready[key]
                        == state.ready[key]
            }
            &&& after.ready == state.ready ==> {
                &&& choice == left && before.left_needed > 0 ==> after.balance.left_needed
                    == before.left_needed - 1
                &&& choice == left && before.left_needed == 0 ==> after.balance.left_needed == 0
                &&& choice == left ==> after.balance.right_needed == before.right_needed
                &&& choice == right && before.right_needed > 0 ==> after.balance.right_needed
                    == before.right_needed - 1
                &&& choice == right && before.right_needed == 0 ==> after.balance.right_needed
                    == 0
                &&& choice == right ==> after.balance.left_needed == before.left_needed
            }
        }),
{
    improving_siblings_have_room(entry, candidates, state.ready);
    if improving_sibling(entry, candidates, state.ready) is Some {
        let sibling = improving_sibling(entry, candidates, state.ready)->0;
        assert(state.ready.contains_key(sibling@));
        if state.balance.releasable() {
            let after = drain_after(state, left, right, entry, candidates);
            assert(after.ready[sibling@] != state.ready[sibling@]);
        }
    }
}

fn room_of(capacity: &BTreeMap<u64, u32>, partition: PartitionKey) -> (res: u32)
    ensures
        res == ready_room(capacity@, partition),
{
    let key: u64 = partition.get();
    match capacity.get(&key) {
        Some(room) => *room,
        None => 0,
    }
}

/// Chooses where one entry of a draining source goes and accounts for it: to
/// the nearest `Ready` sibling with room when it strictly improves on both
/// targets and both minima stay attainable, else to the target the balance
/// chooses. An unknown distance or an exhausted source is Corruption.
pub fn corrective_split_target(
    left: PartitionKey,
    right: PartitionKey,
    entry: &DrainDistances,
    candidates: &Vec<PartitionKey>,
    ready_capacity: &mut BTreeMap<u64, u32>,
    balance: &mut SplitBalance,
) -> (res: Result<PartitionKey>)
    requires
        entry.ready@.len() == candidates@.len(),
    ensures
        ({
            let before = DrainState { balance: *old(balance), ready: old(ready_capacity)@ };
            match res {
                Ok(target) => {
                    &&& routable(before, *entry, candidates@)
                    &&& target == drain_choice(before, left, right, *entry, candidates@)
                    &&& (DrainState { balance: *final(balance), ready: final(ready_capacity)@ })
                        == drain_after(before, left, right, *entry, candidates@)
                },
                Err(error) => {
                    &&& !routable(before, *entry, candidates@)
                    &&& error == plain_error(ErrorKind::Corruption)
                    &&& *final(balance) == *old(balance)
                    &&& final(ready_capacity)@ == old(ready_capacity)@
                },
            }
        }),
{
    let (left_distance, right_distance) = match (entry.left, entry.right) {
        (Some(left_distance), Some(right_distance)) => (left_distance, right_distance),
        _ => {
            return Err(Error::new(ErrorKind::Corruption));
        },
    };
    let current = nearer_distance(left_distance, right_distance);
    let mut owners: Vec<Owner> = Vec::new();
    let mut at: usize = 0;
    while at < candidates.len()
        invariant
            at <= candidates@.len(),
            entry.ready@.len() == candidates@.len(),
            ready_capacity@ == old(ready_capacity)@,
            *balance == *old(balance),
            owners@ == ready_owners(candidates@, entry.ready@, ready_capacity@, at as nat),
            forall|i: int|
                0 <= i < at && ready_room(ready_capacity@, #[trigger] candidates@[i]) > 0
                    ==> entry.ready@[i] is Some,
        decreases candidates@.len() - at,
    {
        let candidate = candidates[at];
        if room_of(ready_capacity, candidate) > 0 {
            match entry.ready[at] {
                Some(distance) => owners.push(Owner { partition: candidate, distance }),
                None => {
                    assert(ready_room(ready_capacity@, candidates@[at as int]) > 0);
                    return Err(Error::new(ErrorKind::Corruption));
                },
            }
        }
        at = at + 1;
    }
    proof {
        improving_siblings_have_room(*entry, candidates@, ready_capacity@);
    }
    if let Some(sibling) = strictly_better_owner(current, &owners) {
        if balance.release_to_ready()? {
            let room: u32 = room_of(ready_capacity, sibling);
            let _ = ready_capacity.insert(sibling.get(), room - 1);
            return Ok(sibling);
        }
    }
    balance.choose_target(left, left_distance, right, right_distance)
}

/// The counts and rooms after the first `n` entries were routed.
pub open spec fn drain_run(
    state: DrainState,
    left: PartitionKey,
    right: PartitionKey,
    entries: Seq<DrainDistances>,
    candidates: Seq<PartitionKey>,
    n: nat,
) -> DrainState
    decreases n,
{
    if n == 0 {
        state
    } else {
        drain_after(
            drain_run(state, left, right, entries, candidates, (n - 1) as nat),
            left,
            right,
            entries[n - 1],
            candidates,
        )
    }
}

/// The target of the entry at `at`, after all earlier entries were routed.
pub open spec fn drain_target_at(
    state: DrainState,
    left: PartitionKey,
    right: PartitionKey,
    entries: Seq<DrainDistances>,
    candidates: Seq<PartitionKey>,
    at: int,
) -> PartitionKey {
    drain_choice(
        drain_run(state, left, right, entries, candidates, at as nat),
        left,
        right,
        entries[at],
        candidates,
    )
}

/// Whether the entry at `at` can be routed after all earlier entries.
pub open spec fn routable_at(
    state: DrainState,
    left: PartitionKey,
    right: PartitionKey,
    entries: Seq<DrainDistances>,
    candidates: Seq<PartitionKey>,
    at: int,
) -> bool {
    routable(
        drain_run(state, left, right, entries, candidates, at as nat),
        entries[at],
        candidates,
    )
}

/// Whether the entry at `at` can be routed and its target is the chosen one.
pub open spec fn routed_at(
    state: DrainState,
    left: PartitionKey,
    right: PartitionKey,
    entries: Seq<DrainDistances>,
    candidates: Seq<PartitionKey>,
    target: PartitionKey,
    at: int,
) -> bool {
    &&& routable_at(state, left, right, entries, candidates, at)
    &&& target == drain_target_at(state, left, right, entries, candidates, at)
}

/// Routes the entries of one drain batch in order, each against the counts
/// and rooms its predecessors left.
pub fn drain_targets(
    left: PartitionKey,
    right: PartitionKey,
    entries: &Vec<DrainDistances>,
    candidates: &Vec<PartitionKey>,
    ready_capacity: &mut BTreeMap<u64, u32>,
    balance: &mut SplitBalance,
) -> (res: Result<Vec<PartitionKey>>)
    requires
        forall|i: int|
            0 <= i < entries@.len() ==> (#[trigger] entries@[i]).ready@.len()
                == candidates@.len(),
    ensures
        ({
            let before = DrainState { balance: *old(balance), ready: old(ready_capacity)@ };
            match res {
                Ok(targets) => {
                    &&& targets@.len() == entries@.len()
                    &&& forall|i: int|
                        0 <= i < entries@.len() ==> routed_at(
                            before,
                            left,
                            right,
                            entries@,
                            candidates@,
                            #[trigger] targets@[i],
                            i,
                        )
                    &&& (DrainState { balance: *final(balance), ready: final(ready_capacity)@ })
                        == drain_run(
                        before,
                        left,
                        right,
                        entries@,
                        candidates@,
                        entries@.len(),
                    )
                },
                Err(error) => {
                    &&& error == plain_error(ErrorKind::Corruption)
                    &&& exists|i: int|
                        0 <= i < entries@.len() && !#[trigger] routable_at(
                            before,
                            left,
                            right,
                            entries@,
                            candidates@,
                            i,
                        )
                },
            }
        }),
{
    let ghost before = DrainState { balance: *balance, ready: ready_capacity@ };
    let mut targets: Vec<PartitionKey> = Vec::new();
    let mut at: usize = 0;
    while at < entries.len()
        invariant
            at <= entries@.len(),
            targets@.len() == at,
            before == (DrainState { balance: *old(balance), ready: old(ready_capacity)@ }),
            forall|i: int|
                0 <= i < entries@.len() ==> (#[trigger] entries@[i]).ready@.len()
                    == candidates@.len(),
            (DrainState { balance: *balance, ready: ready_capacity@ }) == drain_run(
                before,
                left,
                right,
                entries@,
                candidates@,
                at as nat,
            ),
            forall|i: int|
                0 <= i < at ==> routed_at(
                    before,
                    left,
                    right,
                    entries@,
                    candidates@,
                    #[trigger] targets@[i],
                    i,
                ),
        decreases entries@.len() - at,
    {
        match corrective_split_target(
            left,
            right,
            &entries[at],
            candidates,
            ready_capacity,
            balance,
        ) {
            Ok(target) => {
                assert(routed_at(before, left, right, entries@, candidates@, target, at as int));
                targets.push(target);
            },
            Err(error) => {
                assert(!routable_at(before, left, right, entries@, candidates@, at as int));
                return Err(error);
            },
        }
        at = at + 1;
    }
    Ok(targets)
}

/// Routing the entries of a split whose minima are attainable never makes them
/// unattainable, however many are routed and wherever they go.
pub proof fn drain_batches_keep_minima_attainable(
    state: DrainState,
    left: PartitionKey,
    right: PartitionKey,
    entries: Seq<DrainDistances>,
    candidates: Seq<PartitionKey>,
    n: nat,
)
    requires
        left != right,
        n <= entries.len(),
        state.balance.attainable(),
        forall|i: int|
            0 <= i < n ==> #[trigger] routable_at(state, left, right, entries, candidates, i),
    ensures
        drain_run(state, left, right, entries, candidates, n).balance.attainable(),
        drain_run(state, left, right, entries, candidates, n).balance.source_remaining
            == state.balance.source_remaining - n,
    decreases n,
{
    if n > 0 {
        drain_batches_keep_minima_attainable(
            state,
            left,
            right,
            entries,
            candidates,
            (n - 1) as nat,
        );
        let before = drain_run(state, left, right, entries, candidates, (n - 1) as nat);
        let entry = entries[n - 1];
        assert(routable_at(state, left, right, entries, candidates, n - 1));
        minima_stay_attainable(before.balance, left, entry.left->0, right, entry.right->0);
    }
}

/// Whether a candidate may take entries of a draining sibling.
pub open spec fn takes_entries(header: Option<PartitionHeader>, maximum: u32) -> bool {
    header matches Some(h) && h.state == PartitionState::Ready && h.entry_count < maximum
}

/// The room of the first `n` candidates, by Partition Key.
pub open spec fn capacity_of(
    maximum: u32,
    candidates: Seq<PartitionKey>,
    headers: Seq<Option<PartitionHeader>>,
    n: nat,
) -> Map<u64, u32>
    decreases n,
{
    if n == 0 {
        Map::empty()
    } else {
        let rest = capacity_of(maximum, candidates, headers, (n - 1) as nat);
        if takes_entries(headers[n - 1], maximum) {
            rest.insert(candidates[n - 1]@, (maximum - headers[n - 1]->0.entry_count) as u32)
        } else {
            rest
        }
    }
}

/// A candidate has room exactly when it exists, is `Ready`, and holds fewer
/// than the maximum; its room is what is missing to the maximum.
pub proof fn room_is_what_is_missing_to_the_maximum(
    maximum: u32,
    candidates: Seq<PartitionKey>,
    headers: Seq<Option<PartitionHeader>>,
    n: nat,
    at: int,
)
    requires
        0 <= at < n <= candidates.len(),
        candidates.len() == headers.len(),
        forall|i: int, j: int|
            0 <= i < j < candidates.len() ==> (#[trigger] candidates[i])@ != (
            #[trigger] candidates[j])@,
    ensures
        ({
            let capacity = capacity_of(maximum, candidates, headers, n);
            let key = candidates[at]@;
            match headers[at] {
                Some(header) => if header.state == PartitionState::Ready && header.entry_count
                    < maximum {
                    capacity.contains_key(key) && capacity[key] + header.entry_count == maximum
                } else {
                    !capacity.contains_key(key)
                },
                None => !capacity.contains_key(key),
            }
        }),
    decreases n,
{
    if at < n - 1 {
        room_is_what_is_missing_to_the_maximum(
            maximum,
            candidates,
            headers,
            (n - 1) as nat,
            at,
        );
        assert(candidates[at]@ != candidates[n - 1]@);
    } else {
        only_candidates_have_room(
            maximum,
            candidates,
            headers,
            (n - 1) as nat,
            candidates[at]@,
        );
        assert forall|i: int| 0 <= i < n - 1 implies (#[trigger] candidates[i])@
            != candidates[at]@ by {
            assert(candidates[i]@ != candidates[n - 1]@);
        }
    }
}

proof fn only_candidates_have_room(
    maximum: u32,
    candidates: Seq<PartitionKey>,
    headers: Seq<Option<PartitionHeader>>,
    n: nat,
    key: u64,
)
    ensures
        capacity_of(maximum, candidates, headers, n).contains_key(key) ==> exists|i: int|
            0 <= i < n && (#[trigger] candidates[i])@ == key,
    decreases n,
{
    if n > 0 {
        only_candidates_have_room(maximum, candidates, headers, (n - 1) as nat, key);
        if capacity_of(maximum, candidates, headers, n).contains_key(key) && !capacity_of(
            maximum,
            candidates,
            headers,
            (n - 1) as nat,
        ).contains_key(key) {
            assert(candidates[n - 1]@ == key);
        }
    }
}

/// Whether every candidate that still exists is at the expected level.
pub open spec fn levels_agree(level: u32, headers: Seq<Option<PartitionHeader>>) -> bool {
    forall|i: int|
        0 <= i < headers.len() ==> ((#[trigger] headers[i]) matches Some(h) ==> h.level == level)
}

/// Returns the remaining room of each `Ready` candidate from its current
/// Header. A vanished candidate has none; one at another level is Corruption.
pub fn ready_target_capacity(
    level: u32,
    maximum: u32,
    candidates: &Vec<PartitionKey>,
    headers: &Vec<Option<PartitionHeader>>,
) -> (res: Result<BTreeMap<u64, u32>>)
    requires
        candidates@.len() == headers@.len(),
    ensures
        match res {
            Ok(capacity) => {
                &&& levels_agree(level, headers@)
                &&& capacity@ == capacity_of(maximum, candidates@, headers@, headers@.len())
            },
            Err(error) => {
                &&& !levels_agree(level, headers@)
                &&& error == plain_error(ErrorKind::Corruption)
            },
        },
{
    let mut capacity: BTreeMap<u64, u32> = BTreeMap::new();
    let mut at: usize = 0;
    while at < headers.len()
        invariant
            at <= headers@.len(),
            candidates@.len() == headers@.len(),
            capacity@ == capacity_of(maximum, candidates@, headers@, at as nat),
            forall|i: int|
                0 <= i < at ==> ((#[trigger] headers@[i]) matches Some(h) ==> h.level == level),
        decreases headers@.len() - at,
    {
        if let Some(header) = headers[at] {
            if header.level != level {
                assert(!(headers@[at as int]->0.level == level));
                return Err(Error::new(ErrorKind::Corruption));
            }
            if header.state == PartitionState::Ready && header.entry_count < maximum {
                let _ = capacity.insert(candidates[at].get(), maximum - header.entry_count);
            }
        }
        at = at + 1;
    }
    Ok(capacity)
}

/// A batch is routed entry by entry: each entry sees the counts and rooms that
/// the earlier ones left, takes one from the source and, where it leaves for a
/// sibling, one of a room that was still there and nearer than both targets.
pub proof fn batches_are_routed_entry_by_entry(
    state: DrainState,
    left: PartitionKey,
    right: PartitionKey,
    entries: Seq<DrainDistances>,
    candidates: Seq<PartitionKey>,
    target: PartitionKey,
    at: int,
)
    requires
        left != right,
        0 <= at < entries.len(),
        routed_at(state, left, right, entries, candidates, target, at),
    ensures
        ({
            let before = drain_run(state, left, right, entries, candidates, at as nat);
            let after = drain_run(state, left, right, entries, candidates, (at + 1) as nat);
            &&& drain_run(state, left, right, entries, candidates, 0) == state
            &&& before.balance.source_remaining > 0
            &&& after.balance.source_remaining == before.balance.source_remaining - 1
            &&& target != left && target != right ==> {
                &&& before.ready.contains_key(target@)
                &&& before.ready[target@] > 0
                &&& after.ready[target@] + 1 == before.ready[target@]
                &&& exists|i: int|
                    #[trigger] outranks_targets(entries[at], candidates, before.ready, i)
                        && candidates[i] == target
            }
            &&& after.ready == before.ready && target == left ==> after.balance.right_needed
                == before.balance.right_needed
            &&& after.ready == before.ready && target == right ==> after.balance.left_needed
                == before.balance.left_needed
        }),
{
    let before = drain_run(state, left, right, entries, candidates, at as nat);
    drained_entries_are_counted_once(before, left, right, entries[at], candidates);
    drained_entries_leave_only_for_nearer_siblings(
        before,
        left,
        right,
        entries[at],
        candidates,
        0,
    );
    if target != left && target != right {
        let i = choose|i: int| #[trigger]
            outranks_targets(entries[at], candidates, before.ready, i) && candidates[i] == target;
        assert(before.ready.contains_key(candidates[i]@));
    }
}

} // verus!
