//! Corrective pulls: a draining split takes entries of same-level `Ready`
//! partitions that one of its targets strictly improves.
//!
//! One pull step looks at a bounded set of nearby donors, samples a bounded
//! rotating set of each donor's entries, and moves what fits into the targets.

use vstd::prelude::*;

use crate::api::error::{plain_error, Error, ErrorKind, Result};
use crate::api::identifiers::{partition_key_of_view, PartitionKey};
use crate::api::number::Distance;
use crate::api::record::same_bytes;
use crate::api::search::lesser;
use crate::maintenance::balance::{improving_owner, strictly_better_owner, Owner};
use crate::topology::{
    receiving_at, Authority, LevelCandidate, PartitionHeader, PartitionState, PartitionTransition,
};

verus! {

broadcast use partition_key_of_view;

/// The aggregate routing-vector budget of one corrective pull step.
pub const CORRECTIVE_PULL_SCREEN_ITEMS: usize = 8;

/// The most `Ready` donors one corrective pull step inspects.
pub const CORRECTIVE_PULL_CANDIDATES: usize = 4;

/// Whether a split may pull: it is not the root's, still drains into its
/// targets, and holds entries.
pub open spec fn may_pull(
    split_source: PartitionKey,
    authority: Option<Authority>,
    left: PartitionKey,
    right: PartitionKey,
) -> bool {
    &&& split_source@ != 1
    &&& authority matches Some(found) && found.transition.drains_into(left, right)
        && found.header.entry_count > 0
}

/// Returns the Header of a split that may pull, or `None` when there is
/// nothing to correct: a root split, a split that moved on, or an empty
/// source.
pub fn pull_source(
    split_source: PartitionKey,
    authority: Option<Authority>,
    left: PartitionKey,
    right: PartitionKey,
) -> (res: Option<PartitionHeader>)
    ensures
        res == if may_pull(split_source, authority, left, right) {
            Some(authority->0.header)
        } else {
            None
        },
{
    if split_source.get() == 1 {
        return None;
    }
    match authority {
        Some(found) => {
            if found.transition.is_draining_split_of(left, right) && found.header.entry_count > 0 {
                Some(found.header)
            } else {
                None
            }
        },
        None => None,
    }
}

/// The remaining room of a split's two targets.
#[derive(Clone, Copy, Debug, PartialEq, Eq, Structural)]
pub struct TargetCapacity {
    /// The left target.
    pub left: PartitionKey,
    /// The room of the left target.
    pub left_remaining: u32,
    /// The right target.
    pub right: PartitionKey,
    /// The room of the right target.
    pub right_remaining: u32,
}

/// The entries that still fit below a maximum.
pub open spec fn room_below(maximum: u32, count: u32) -> u32 {
    if count < maximum {
        (maximum - count) as u32
    } else {
        0
    }
}

/// The room of two targets with the given Headers.
pub open spec fn target_room(
    maximum: u32,
    left: PartitionKey,
    left_header: PartitionHeader,
    right: PartitionKey,
    right_header: PartitionHeader,
) -> TargetCapacity {
    TargetCapacity {
        left,
        left_remaining: room_below(maximum, left_header.entry_count),
        right,
        right_remaining: room_below(maximum, right_header.entry_count),
    }
}

impl TargetCapacity {
    /// Whether a partition is a target with room.
    pub open spec fn has_room(self, partition: PartitionKey) -> bool {
        ||| (self.left == partition && self.left_remaining > 0)
        ||| (self.right == partition && self.right_remaining > 0)
    }

    /// Whether neither target has room.
    pub open spec fn full(self) -> bool {
        self.left_remaining == 0 && self.right_remaining == 0
    }

    /// Whether one entry can be taken of a target's room.
    pub open spec fn takeable(self, partition: PartitionKey) -> bool {
        if partition == self.left {
            self.left_remaining > 0
        } else {
            self.right_remaining > 0
        }
    }

    /// The room after one entry went to a target.
    pub open spec fn after(self, partition: PartitionKey) -> TargetCapacity {
        if partition == self.left {
            TargetCapacity { left_remaining: (self.left_remaining - 1) as u32, ..self }
        } else {
            TargetCapacity { right_remaining: (self.right_remaining - 1) as u32, ..self }
        }
    }

    fn has_room_for(&self, partition: PartitionKey) -> (res: bool)
        ensures
            res == self.has_room(partition),
    {
        (self.left == partition && self.left_remaining > 0) || (self.right == partition
            && self.right_remaining > 0)
    }

    /// Returns whether neither target has room.
    pub fn is_full(&self) -> (res: bool)
        ensures
            res == self.full(),
    {
        self.left_remaining == 0 && self.right_remaining == 0
    }
}

/// Reads the remaining room of a split's targets from their Headers; a target
/// that is missing or not filling at the split's level is Corruption.
pub fn corrective_capacity(
    level: u32,
    maximum: u32,
    left: PartitionKey,
    left_header: Option<PartitionHeader>,
    right: PartitionKey,
    right_header: Option<PartitionHeader>,
) -> (res: Result<TargetCapacity>)
    ensures
        match res {
            Ok(capacity) => {
                &&& receiving_at(left_header, level)
                &&& receiving_at(right_header, level)
                &&& capacity == target_room(
                    maximum,
                    left,
                    left_header->0,
                    right,
                    right_header->0,
                )
            },
            Err(error) => {
                &&& !(receiving_at(left_header, level) && receiving_at(right_header, level))
                &&& error == plain_error(ErrorKind::Corruption)
            },
        },
{
    match (left_header, right_header) {
        (Some(left_header), Some(right_header)) => {
            if left_header.level != level || left_header.state != PartitionState::ReceivingSplit
                || right_header.level != level || right_header.state
                != PartitionState::ReceivingSplit {
                return Err(Error::new(ErrorKind::Corruption));
            }
            Ok(
                TargetCapacity {
                    left,
                    left_remaining: maximum.saturating_sub(left_header.entry_count),
                    right,
                    right_remaining: maximum.saturating_sub(right_header.entry_count),
                },
            )
        },
        _ => Err(Error::new(ErrorKind::Corruption)),
    }
}

/// Whether a candidate may give entries: a leaf always, an internal partition
/// only while it keeps one.
pub open spec fn donates(candidate: LevelCandidate) -> bool {
    candidate.header.level == 1 || candidate.header.entry_count > 1
}

/// The positions of the donors among the first `n` candidates.
pub open spec fn donor_positions(candidates: Seq<LevelCandidate>, n: nat) -> Seq<usize>
    decreases n,
{
    if n == 0 {
        Seq::empty()
    } else {
        let rest = donor_positions(candidates, (n - 1) as nat);
        if donates(candidates[n - 1]) {
            rest.push((n - 1) as usize)
        } else {
            rest
        }
    }
}

/// Every donor is a candidate that may give entries.
pub proof fn donor_positions_are_donors(candidates: Seq<LevelCandidate>, n: nat)
    requires
        n <= candidates.len() <= usize::MAX,
    ensures
        donor_positions(candidates, n).len() <= n,
        forall|i: int|
            0 <= i < donor_positions(candidates, n).len() ==> (#[trigger] donor_positions(
                candidates,
                n,
            )[i]) < n && donates(candidates[donor_positions(candidates, n)[i] as int]),
    decreases n,
{
    if n > 0 {
        donor_positions_are_donors(candidates, (n - 1) as nat);
        let rest = donor_positions(candidates, (n - 1) as nat);
        let all = donor_positions(candidates, n);
        assert forall|i: int| 0 <= i < all.len() implies (#[trigger] all[i]) < n && donates(
            candidates[all[i] as int],
        ) by {
            if i < rest.len() {
                assert(all[i] == rest[i]);
            }
        }
    }
}

/// Returns the positions of the candidates that may give entries.
pub fn corrective_donors(candidates: &Vec<LevelCandidate>) -> (res: Vec<usize>)
    ensures
        res@ == donor_positions(candidates@, candidates@.len()),
        forall|i: int|
            0 <= i < res@.len() ==> (#[trigger] res@[i]) < candidates@.len() && donates(
                candidates@[res@[i] as int],
            ),
{
    let mut donors: Vec<usize> = Vec::new();
    let mut at: usize = 0;
    while at < candidates.len()
        invariant
            at <= candidates@.len(),
            donors@ == donor_positions(candidates@, at as nat),
        decreases candidates@.len() - at,
    {
        let candidate = candidates[at];
        if candidate.header.level == 1 || candidate.header.entry_count > 1 {
            donors.push(at);
        }
        at = at + 1;
    }
    proof {
        donor_positions_are_donors(candidates@, candidates@.len());
    }
    donors
}

/// The rotation of one pull step over its donors.
#[derive(Clone, Copy, Debug, PartialEq, Eq, Structural)]
pub struct PullRotation {
    /// The number of donors.
    pub donors: usize,
    /// The number of donors this step inspects.
    pub inspected: usize,
    /// The first donor this step inspects.
    pub first: usize,
    /// The sampling round.
    pub round: usize,
}

/// The number of drain batches a source still needs.
pub open spec fn batches(entry_count: u32, batch_limit: usize) -> int {
    (entry_count + batch_limit - 1) / batch_limit as int
}

/// The number of donors one step inspects.
pub open spec fn inspected_of(donors: int) -> int {
    lesser(donors, CORRECTIVE_PULL_CANDIDATES as int)
}

/// The steps already behind a sampling round.
pub open spec fn steps_before(round: int) -> int {
    if round > 0 {
        round - 1
    } else {
        0
    }
}

impl PullRotation {
    /// Whether the inspected donors exist.
    pub open spec fn well_formed(self) -> bool {
        &&& 0 < self.inspected <= self.donors
        &&& self.inspected == inspected_of(self.donors as int)
        &&& self.first < self.donors
    }

    /// The donor inspected at an offset.
    pub open spec fn donor_at(self, offset: int) -> int {
        (self.first + offset) % (self.donors as int)
    }

    /// The entries sampled of the donor at an offset.
    pub open spec fn screen_at(self, offset: int) -> int {
        CORRECTIVE_PULL_SCREEN_ITEMS as int / self.inspected as int + if offset
            < CORRECTIVE_PULL_SCREEN_ITEMS as int % self.inspected as int {
            1int
        } else {
            0int
        }
    }

    /// Fixes the rotation of one pull step. The round counts the drain batches
    /// the source still needs, so successive batches start at other donors.
    pub fn new(entry_count: u32, source_batch_limit: usize, donors: usize) -> (res: Result<Self>)
        requires
            source_batch_limit > 0,
            donors > 0,
        ensures
            ({
                let round = batches(entry_count, source_batch_limit);
                let inspected = inspected_of(donors as int);
                match res {
                    Ok(rotation) => {
                        &&& rotation.well_formed()
                        &&& steps_before(round) * inspected <= usize::MAX
                        &&& rotation.donors == donors
                        &&& rotation.round == round
                        &&& rotation.first == steps_before(round) * inspected % (donors as int)
                    },
                    Err(error) => {
                        &&& steps_before(round) * inspected > usize::MAX
                        &&& error == plain_error(ErrorKind::Corruption)
                    },
                }
            }),
    {
        let count: usize = entry_count as usize;
        let round: usize = if count == 0 {
            0
        } else {
            (count - 1) / source_batch_limit + 1
        };
        proof {
            let c = entry_count as int;
            let l = source_batch_limit as int;
            if c > 0 {
                assert((c + l - 1) / l == (c - 1) / l + 1) by (nonlinear_arith)
                    requires
                        l > 0,
                        c > 0,
                ;
            } else {
                assert((l - 1) / l == 0) by (nonlinear_arith)
                    requires
                        l > 0,
                ;
            }
            assert((c - 1) / l <= c - 1) by (nonlinear_arith)
                requires
                    l > 0,
                    c > 0 || c == 0,
            ;
        }
        let inspected: usize = if donors < CORRECTIVE_PULL_CANDIDATES {
            donors
        } else {
            CORRECTIVE_PULL_CANDIDATES
        };
        let behind: usize = round.saturating_sub(1);
        match behind.checked_mul(inspected) {
            None => Err(Error::new(ErrorKind::Corruption)),
            Some(skipped) => Ok(
                PullRotation { donors, inspected, first: skipped % donors, round },
            ),
        }
    }

    /// Returns the donor inspected at an offset.
    pub fn donor(&self, offset: usize) -> (res: usize)
        requires
            self.well_formed(),
            offset < self.inspected,
        ensures
            res == self.donor_at(offset as int),
            res < self.donors,
    {
        let until_wrap: usize = self.donors - self.first;
        proof {
            let d = self.donors as int;
            let x = self.first + offset;
            assert(x < 2 * d);
            if x < d {
                assert(x % d == x) by (nonlinear_arith)
                    requires
                        0 <= x < d,
                ;
            } else {
                assert(x % d == x - d) by (nonlinear_arith)
                    requires
                        d <= x < 2 * d,
                ;
            }
        }
        if offset < until_wrap {
            self.first + offset
        } else {
            offset - until_wrap
        }
    }

    /// Returns how many entries of the donor at an offset are sampled.
    pub fn screen_limit(&self, offset: usize) -> (res: usize)
        requires
            self.well_formed(),
            offset < self.inspected,
        ensures
            res == self.screen_at(offset as int),
            res > 0,
    {
        let inspected: usize = self.inspected;
        proof {
            assert(8int / inspected as int >= 1) by (nonlinear_arith)
                requires
                    0 < inspected <= 4,
            ;
            assert(8int / inspected as int <= 8) by (nonlinear_arith)
                requires
                    0 < inspected <= 4,
            ;
        }
        let share: usize = CORRECTIVE_PULL_SCREEN_ITEMS / inspected;
        if offset < CORRECTIVE_PULL_SCREEN_ITEMS % inspected {
            share + 1
        } else {
            share
        }
    }
}

/// The entries sampled of the first `n` inspected donors.
pub open spec fn screened(rotation: PullRotation, n: nat) -> int
    decreases n,
{
    if n == 0 {
        0
    } else {
        screened(rotation, (n - 1) as nat) + rotation.screen_at(n - 1)
    }
}

/// One pull step samples exactly its aggregate budget, however many donors
/// share it.
pub proof fn pull_steps_spend_their_budget(rotation: PullRotation)
    requires
        rotation.well_formed(),
    ensures
        screened(rotation, rotation.inspected as nat) == CORRECTIVE_PULL_SCREEN_ITEMS,
{
    reveal_with_fuel(screened, 5);
    let n = rotation.inspected as int;
    assert(n == 1 || n == 2 || n == 3 || n == 4);
    assert(n == 1 ==> 8int / n == 8 && 8int % n == 0);
    assert(n == 2 ==> 8int / n == 4 && 8int % n == 0);
    assert(n == 3 ==> 8int / n == 2 && 8int % n == 2);
    assert(n == 4 ==> 8int / n == 2 && 8int % n == 0);
}

/// One pull step inspects each donor at most once.
pub proof fn inspected_donors_are_distinct(rotation: PullRotation, a: int, b: int)
    requires
        rotation.well_formed(),
        0 <= a < b < rotation.inspected,
    ensures
        rotation.donor_at(a) != rotation.donor_at(b),
{
    let d = rotation.donors as int;
    let x = rotation.first + a;
    let y = rotation.first + b;
    assert(x % d != y % d) by (nonlinear_arith)
        requires
            0 <= x < y < 2 * d,
            y - x < d,
            d > 0,
    {
        if x < d {
            assert(x % d == x);
        } else {
            assert(x % d == x - d);
        }
        if y < d {
            assert(y % d == y);
        } else {
            assert(y % d == y - d);
        }
    }
}

/// One donor visit of a pull step.
#[derive(Clone, Copy, Debug, PartialEq, Eq, Structural)]
pub struct PullVisit {
    /// The donor's position among the candidates.
    pub candidate: usize,
    /// How many of its entries are sampled.
    pub screen_limit: usize,
    /// The sampling round.
    pub round: usize,
}

/// The donor visits of one pull step, in order.
pub struct PullScan {
    /// The donors' positions among the candidates.
    pub donors: Vec<usize>,
    /// The rotation over the donors.
    pub rotation: PullRotation,
    /// The number of visits made.
    pub visited: usize,
}

impl PullScan {
    /// Whether the rotation is over these donors.
    pub open spec fn well_formed(self) -> bool {
        &&& self.rotation.well_formed()
        &&& self.rotation.donors == self.donors@.len()
        &&& self.visited <= self.rotation.inspected
    }

    /// Plans the donor visits of one pull step, or `None` when no candidate
    /// may give entries.
    pub fn plan(
        entry_count: u32,
        source_batch_limit: usize,
        candidates: &Vec<LevelCandidate>,
    ) -> (res: Result<Option<Self>>)
        requires
            source_batch_limit > 0,
        ensures
            ({
                let donors = donor_positions(candidates@, candidates@.len());
                let round = batches(entry_count, source_batch_limit);
                let skipped = steps_before(round) * inspected_of(donors.len() as int);
                match res {
                    Ok(None) => donors.len() == 0,
                    Ok(Some(scan)) => {
                        &&& donors.len() > 0
                        &&& skipped <= usize::MAX
                        &&& scan.well_formed()
                        &&& scan.donors@ == donors
                        &&& scan.rotation.round == round
                        &&& scan.rotation.first == skipped % (donors.len() as int)
                        &&& scan.visited == 0
                    },
                    Err(error) => {
                        &&& donors.len() > 0
                        &&& skipped > usize::MAX
                        &&& error == plain_error(ErrorKind::Corruption)
                    },
                }
            }),
    {
        let donors = corrective_donors(candidates);
        if donors.len() == 0 {
            return Ok(None);
        }
        match PullRotation::new(entry_count, source_batch_limit, donors.len()) {
            Ok(rotation) => Ok(Some(PullScan { donors, rotation, visited: 0 })),
            Err(error) => Err(error),
        }
    }

    /// Takes the next donor visit, or `None` when the step has inspected all
    /// it may.
    pub fn next_visit(&mut self) -> (res: Option<PullVisit>)
        requires
            old(self).well_formed(),
        ensures
            final(self).well_formed(),
            final(self).donors@ == old(self).donors@,
            final(self).rotation == old(self).rotation,
            match res {
                Some(visit) => {
                    let offset = old(self).visited as int;
                    &&& offset < old(self).rotation.inspected
                    &&& final(self).visited == offset + 1
                    &&& visit.candidate == old(self).donors@[old(self).rotation.donor_at(offset)]
                    &&& visit.screen_limit == old(self).rotation.screen_at(offset)
                    &&& visit.round == old(self).rotation.round
                },
                None => {
                    &&& old(self).visited == old(self).rotation.inspected
                    &&& final(self).visited == old(self).visited
                },
            },
    {
        if self.visited == self.rotation.inspected {
            return None;
        }
        let offset: usize = self.visited;
        let donor: usize = self.rotation.donor(offset);
        let screen_limit: usize = self.rotation.screen_limit(offset);
        self.visited = offset + 1;
        Some(
            PullVisit { candidate: self.donors[donor], screen_limit, round: self.rotation.round },
        )
    }
}

/// The most entries one donor gives at once.
pub open spec fn donor_limit(header: PartitionHeader, batch_limit: usize) -> int {
    if header.level == 1 {
        batch_limit as int
    } else {
        lesser(batch_limit as int, header.entry_count - 1)
    }
}

/// Bounds one donor's batch: an internal donor keeps one entry.
pub fn donor_batch_limit(header: PartitionHeader, batch_limit: usize) -> (res: Result<usize>)
    ensures
        match res {
            Ok(limit) => {
                &&& header.level == 1 || header.entry_count > 0
                &&& limit == donor_limit(header, batch_limit)
            },
            Err(error) => {
                &&& header.level != 1 && header.entry_count == 0
                &&& error == plain_error(ErrorKind::Corruption)
            },
        },
{
    if header.level == 1 {
        return Ok(batch_limit);
    }
    if header.entry_count == 0 {
        return Err(Error::new(ErrorKind::Corruption));
    }
    let retained: usize = (header.entry_count - 1) as usize;
    if batch_limit <= retained {
        Ok(batch_limit)
    } else {
        Ok(retained)
    }
}

/// The most entries selected of one donor.
pub open spec fn selection_of(batch_limit: usize, capacity: TargetCapacity) -> int {
    lesser(batch_limit as int, capacity.left_remaining + capacity.right_remaining)
}

/// Bounds one donor's selection by the targets' room. A zero selection, sample
/// or round, or room that cannot be added up, is Corruption.
pub fn selection_limit(
    batch_limit: usize,
    capacity: &TargetCapacity,
    screen_limit: usize,
    round: usize,
) -> (res: Result<usize>)
    ensures
        ({
            let total = capacity.left_remaining + capacity.right_remaining;
            let sound = total <= usize::MAX && selection_of(batch_limit, *capacity) > 0
                && screen_limit > 0 && round > 0;
            match res {
                Ok(limit) => sound && limit == selection_of(batch_limit, *capacity),
                Err(error) => !sound && error == plain_error(ErrorKind::Corruption),
            }
        }),
{
    let left: usize = capacity.left_remaining as usize;
    let right: usize = capacity.right_remaining as usize;
    let total: usize = match left.checked_add(right) {
        Some(total) => total,
        None => {
            return Err(Error::new(ErrorKind::Corruption));
        },
    };
    let limit: usize = if batch_limit <= total {
        batch_limit
    } else {
        total
    };
    if limit == 0 || screen_limit == 0 || round == 0 {
        return Err(Error::new(ErrorKind::Corruption));
    }
    Ok(limit)
}

/// The number of entries sampled of a page.
pub open spec fn sample_count(length: int, limit: int) -> int {
    lesser(length, limit)
}

/// The page position of one sample: the samples spread evenly over the page,
/// and each round shifts them by one.
pub open spec fn sample_position(length: int, limit: int, round: int, sample: int) -> int {
    let count = sample_count(length, limit);
    let offset = steps_before(round) % length;
    if count == 1 {
        offset
    } else {
        (offset + sample * (length - 1) / (count - 1)) % length
    }
}

/// Spreads one rotating deterministic sample across a bounded entry page.
pub fn corrective_sample_indices(length: usize, limit: usize, round: usize) -> (res: Vec<usize>)
    requires
        length > 0,
    ensures
        res@.len() == sample_count(length as int, limit as int),
        forall|i: int|
            0 <= i < res@.len() ==> (#[trigger] res@[i]) == sample_position(
                length as int,
                limit as int,
                round as int,
                i,
            ),
        forall|i: int| 0 <= i < res@.len() ==> (#[trigger] res@[i]) < length,
{
    let count: usize = if length <= limit {
        length
    } else {
        limit
    };
    let offset: usize = round.saturating_sub(1) % length;
    let mut samples: Vec<usize> = Vec::new();
    if count == 1 {
        samples.push(offset);
        return samples;
    }
    let mut sample: usize = 0;
    while sample < count
        invariant
            length > 0,
            count == sample_count(length as int, limit as int),
            count != 1,
            offset == steps_before(round as int) % (length as int),
            offset < length,
            sample <= count,
            samples@.len() == sample,
            forall|i: int|
                0 <= i < sample ==> (#[trigger] samples@[i]) == sample_position(
                    length as int,
                    limit as int,
                    round as int,
                    i,
                ),
            forall|i: int| 0 <= i < sample ==> (#[trigger] samples@[i]) < length,
        decreases count - sample,
    {
        proof {
            let s = sample as int;
            let l = (length - 1) as int;
            let c = (count - 1) as int;
            assert(0 <= s * l <= 0xffff_ffff_ffff_ffff_ffff_ffff_ffff_ffff) by (nonlinear_arith)
                requires
                    0 <= s <= 0xffff_ffff_ffff_ffff,
                    0 <= l <= 0xffff_ffff_ffff_ffff,
            ;
            assert(s * l / c <= l) by (nonlinear_arith)
                requires
                    0 <= s <= c,
                    c > 0,
                    l >= 0,
            ;
        }
        let spread: u128 = (sample as u128) * ((length - 1) as u128) / ((count - 1) as u128);
        let position: usize = ((offset as u128 + spread) % (length as u128)) as usize;
        samples.push(position);
        sample = sample + 1;
    }
    samples
}

/// The positions of one sample are distinct.
pub proof fn samples_are_distinct(length: int, limit: int, round: int, a: int, b: int)
    requires
        length > 0,
        round >= 0,
        0 <= a < b < sample_count(length, limit),
    ensures
        sample_position(length, limit, round, a) != sample_position(length, limit, round, b),
{
    let count = sample_count(length, limit);
    let offset = steps_before(round) % length;
    let x = a * (length - 1) / (count - 1);
    let y = b * (length - 1) / (count - 1);
    assert(0 <= x < y < length) by (nonlinear_arith)
        requires
            count <= length,
            0 <= a < b < count,
            x == a * (length - 1) / (count - 1),
            y == b * (length - 1) / (count - 1),
    {
        let l = length - 1;
        let c = count - 1;
        assert(b * l >= a * l + l);
        assert(b * l >= a * l + c);
        assert(b * l / c >= (a * l + c) / c);
        assert((a * l + c) / c == a * l / c + 1);
        assert(b * l <= c * l);
        assert(b * l / c <= l);
        assert(a * l >= 0);
        assert(a * l / c >= 0);
    }
    assert((offset + x) % length != (offset + y) % length) by (nonlinear_arith)
        requires
            0 <= offset < length,
            0 <= x < y < length,
    {
        let p = offset + x;
        let q = offset + y;
        if p < length {
            assert(p % length == p);
        } else {
            assert(p % length == p - length);
        }
        if q < length {
            assert(q % length == q);
        } else {
            assert(q % length == q - length);
        }
    }
}

/// The distances of one entry that may be pulled. A distance that could not be
/// computed is `None`.
#[derive(Clone, Copy, Debug, PartialEq, Eq, Structural)]
pub struct PullDistances {
    /// The distance to the current owner.
    pub source: Option<Distance>,
    /// The distance to the left target.
    pub left: Option<Distance>,
    /// The distance to the right target.
    pub right: Option<Distance>,
}

/// Whether every distance that a pull reads is known: to the current owner and
/// to each target with room.
pub open spec fn pull_measured(entry: PullDistances, capacity: TargetCapacity) -> bool {
    &&& entry.source is Some
    &&& capacity.has_room(capacity.left) ==> entry.left is Some
    &&& capacity.has_room(capacity.right) ==> entry.right is Some
}

/// The targets with room, as owners.
pub open spec fn pull_owners(entry: PullDistances, capacity: TargetCapacity) -> Seq<Owner> {
    let lefts = if capacity.has_room(capacity.left) {
        seq![Owner { partition: capacity.left, distance: entry.left->0 }]
    } else {
        Seq::empty()
    };
    if capacity.has_room(capacity.right) {
        lefts.push(Owner { partition: capacity.right, distance: entry.right->0 })
    } else {
        lefts
    }
}

/// The target that strictly improves on an entry's current owner, if any.
pub open spec fn pull_choice(entry: PullDistances, capacity: TargetCapacity) -> Option<
    PartitionKey,
> {
    improving_owner(entry.source->0, pull_owners(entry, capacity))
}

/// The room after one entry was considered.
pub open spec fn pull_after(entry: PullDistances, capacity: TargetCapacity) -> TargetCapacity {
    match pull_choice(entry, capacity) {
        Some(target) => capacity.after(target),
        None => capacity,
    }
}

/// Whether an entry can be considered: its distances are known, and the target
/// it goes to, if any, has room to take.
pub open spec fn pullable(entry: PullDistances, capacity: TargetCapacity) -> bool {
    &&& pull_measured(entry, capacity)
    &&& pull_choice(entry, capacity) matches Some(target) ==> capacity.takeable(target)
}

/// Selects a split target only when it strictly beats the current `Ready`
/// owner, and takes one entry of its room. An unknown distance, or room that
/// cannot be taken, is Corruption.
pub fn corrective_pull_target(entry: PullDistances, capacity: &mut TargetCapacity) -> (res: Result<
    Option<PartitionKey>,
>)
    ensures
        match res {
            Ok(target) => {
                &&& pullable(entry, *old(capacity))
                &&& target == pull_choice(entry, *old(capacity))
                &&& *final(capacity) == pull_after(entry, *old(capacity))
                &&& target matches Some(found) ==> old(capacity).has_room(found)
            },
            Err(error) => {
                &&& !pullable(entry, *old(capacity))
                &&& error == plain_error(ErrorKind::Corruption)
                &&& *final(capacity) == *old(capacity)
            },
        },
        final(capacity).left == old(capacity).left,
        final(capacity).right == old(capacity).right,
{
    let current = match entry.source {
        Some(current) => current,
        None => {
            return Err(Error::new(ErrorKind::Corruption));
        },
    };
    let mut owners: Vec<Owner> = Vec::new();
    if capacity.has_room_for(capacity.left) {
        match entry.left {
            Some(distance) => owners.push(Owner { partition: capacity.left, distance }),
            None => {
                return Err(Error::new(ErrorKind::Corruption));
            },
        }
    }
    if capacity.has_room_for(capacity.right) {
        match entry.right {
            Some(distance) => owners.push(Owner { partition: capacity.right, distance }),
            None => {
                return Err(Error::new(ErrorKind::Corruption));
            },
        }
    }
    assert(owners@ =~= pull_owners(entry, *capacity));
    let target = strictly_better_owner(current, &owners);
    proof {
        pull_choice_has_room(entry, *capacity);
    }
    if let Some(found) = target {
        if found == capacity.left {
            if capacity.left_remaining == 0 {
                return Err(Error::new(ErrorKind::Corruption));
            }
            capacity.left_remaining = capacity.left_remaining - 1;
        } else {
            if capacity.right_remaining == 0 {
                return Err(Error::new(ErrorKind::Corruption));
            }
            capacity.right_remaining = capacity.right_remaining - 1;
        }
    }
    Ok(target)
}

/// A pull only ever fills a target that has room, and between two distinct
/// targets that room can be taken.
pub proof fn pull_choice_has_room(entry: PullDistances, capacity: TargetCapacity)
    ensures
        pull_choice(entry, capacity) matches Some(target) ==> capacity.has_room(target) && (
        capacity.left != capacity.right ==> capacity.takeable(target)),
{
    reveal_with_fuel(crate::maintenance::balance::best_owner, 3);
    let owners = pull_owners(entry, capacity);
    if owners.len() == 2 {
        assert(owners.drop_last() =~= seq![owners[0]]);
        assert(owners.drop_last().drop_last() =~= Seq::empty());
    } else if owners.len() == 1 {
        assert(owners.drop_last() =~= Seq::empty());
    }
}

/// The room after the first `n` sampled entries were considered. An entry that
/// contradicts its page is `None`.
pub open spec fn screened_capacity(
    entries: Seq<Option<PullDistances>>,
    capacity: TargetCapacity,
    n: nat,
) -> TargetCapacity
    decreases n,
{
    if n == 0 {
        capacity
    } else {
        pull_after(
            entries[n - 1]->0,
            screened_capacity(entries, capacity, (n - 1) as nat),
        )
    }
}

/// Whether the sampled entry at `at` is sound and can be considered.
pub open spec fn screenable(
    entries: Seq<Option<PullDistances>>,
    capacity: TargetCapacity,
    at: int,
) -> bool {
    &&& entries[at] is Some
    &&& pullable(entries[at]->0, screened_capacity(entries, capacity, at as nat))
}

/// The positions selected among the first `n` sampled entries.
pub open spec fn selected_of(
    entries: Seq<Option<PullDistances>>,
    capacity: TargetCapacity,
    n: nat,
) -> Seq<usize>
    decreases n,
{
    if n == 0 {
        Seq::empty()
    } else {
        let rest = selected_of(entries, capacity, (n - 1) as nat);
        let before = screened_capacity(entries, capacity, (n - 1) as nat);
        if pull_choice(entries[n - 1]->0, before) is Some {
            rest.push((n - 1) as usize)
        } else {
            rest
        }
    }
}

/// Whether screening stops behind the first `n` sampled entries: all of them
/// are sound, and either none is left or the last one filled the selection.
pub open spec fn screening_stops(
    entries: Seq<Option<PullDistances>>,
    capacity: TargetCapacity,
    limit: int,
    n: int,
) -> bool {
    &&& 0 <= n <= entries.len()
    &&& forall|i: int| 0 <= i < n ==> #[trigger] screenable(entries, capacity, i)
    &&& forall|i: int|
        0 <= i < n ==> (#[trigger] selected_of(entries, capacity, i as nat)).len() < limit
    &&& n == entries.len() || selected_of(entries, capacity, n as nat).len() == limit
}

/// Whether screening meets an unsound entry before it stops.
pub open spec fn screening_fails(
    entries: Seq<Option<PullDistances>>,
    capacity: TargetCapacity,
    limit: int,
    n: int,
) -> bool {
    &&& 0 <= n < entries.len()
    &&& !screenable(entries, capacity, n)
    &&& forall|i: int| 0 <= i < n ==> #[trigger] screenable(entries, capacity, i)
    &&& forall|i: int|
        0 <= i <= n ==> (#[trigger] selected_of(entries, capacity, i as nat)).len() < limit
}

/// Screening either stops or fails, at one place.
pub proof fn screening_ends_once(
    entries: Seq<Option<PullDistances>>,
    capacity: TargetCapacity,
    limit: int,
    n: int,
    m: int,
)
    requires
        screening_stops(entries, capacity, limit, n),
    ensures
        !screening_fails(entries, capacity, limit, m),
        screening_stops(entries, capacity, limit, m) ==> m == n,
{
    if screening_fails(entries, capacity, limit, m) {
        if m < n {
            assert(screenable(entries, capacity, m));
        } else {
            assert(selected_of(entries, capacity, n as nat).len() < limit);
        }
    }
    if screening_stops(entries, capacity, limit, m) {
        if m < n {
            assert(selected_of(entries, capacity, m as nat).len() < limit);
        } else if n < m {
            assert(selected_of(entries, capacity, n as nat).len() < limit);
        }
    }
}

/// Selects the sampled entries that a target strictly improves, in order,
/// until the selection is full. An entry that contradicts its page, or has an
/// unknown distance, is Corruption unless the selection filled before it.
pub fn select_pulled(
    entries: &Vec<Option<PullDistances>>,
    capacity: &TargetCapacity,
    limit: usize,
) -> (res: Result<Vec<usize>>)
    requires
        limit > 0,
    ensures
        match res {
            Ok(selected) => exists|n: int|
                #[trigger] screening_stops(entries@, *capacity, limit as int, n) && selected@
                    == selected_of(entries@, *capacity, n as nat),
            Err(error) => {
                &&& error == plain_error(ErrorKind::Corruption)
                &&& exists|n: int| #[trigger]
                    screening_fails(entries@, *capacity, limit as int, n)
            },
        },
        res matches Ok(selected) ==> forall|i: int|
            0 <= i < selected@.len() ==> (#[trigger] selected@[i]) < entries@.len(),
{
    let mut room = *capacity;
    let mut selected: Vec<usize> = Vec::new();
    let mut at: usize = 0;
    while at < entries.len()
        invariant
            at <= entries@.len(),
            room.left == capacity.left,
            room.right == capacity.right,
            room == screened_capacity(entries@, *capacity, at as nat),
            selected@ == selected_of(entries@, *capacity, at as nat),
            selected@.len() < limit,
            forall|i: int| 0 <= i < at ==> #[trigger] screenable(entries@, *capacity, i),
            forall|i: int|
                0 <= i <= at ==> (#[trigger] selected_of(entries@, *capacity, i as nat)).len()
                    < limit,
            forall|i: int| 0 <= i < selected@.len() ==> (#[trigger] selected@[i]) < at,
        decreases entries@.len() - at,
    {
        let entry = match entries[at] {
            Some(entry) => entry,
            None => {
                assert(screening_fails(entries@, *capacity, limit as int, at as int));
                return Err(Error::new(ErrorKind::Corruption));
            },
        };
        match corrective_pull_target(entry, &mut room) {
            Ok(target) => {
                assert(screenable(entries@, *capacity, at as int));
                if target.is_some() {
                    selected.push(at);
                    if selected.len() == limit {
                        assert(screening_stops(
                            entries@,
                            *capacity,
                            limit as int,
                            at as int + 1,
                        ));
                        return Ok(selected);
                    }
                }
            },
            Err(error) => {
                assert(screening_fails(entries@, *capacity, limit as int, at as int));
                return Err(error);
            },
        }
        at = at + 1;
    }
    assert(screening_stops(entries@, *capacity, limit as int, at as int));
    Ok(selected)
}

/// One sampled leaf entry's Vector Record.
pub struct SampledRecord {
    /// The record's own Record ID, unless the record is missing.
    pub record_id: Option<Vec<u8>>,
    /// The record's distances.
    pub distances: PullDistances,
}

/// Whether a record is the one its Leaf Entry names.
pub open spec fn record_matches(record: SampledRecord, id: Seq<u8>) -> bool {
    record.record_id matches Some(found) && found@ == id
}

/// Matches the sampled Leaf Entries with their Vector Records: an entry whose
/// record is missing or another's has no distances. A read of another length
/// than was asked for is a Backend failure.
pub fn match_sampled_records(ids: &Vec<Vec<u8>>, records: &Vec<SampledRecord>) -> (res: Result<
    Vec<Option<PullDistances>>,
>)
    ensures
        match res {
            Ok(entries) => {
                &&& ids@.len() == records@.len()
                &&& entries@.len() == ids@.len()
                &&& forall|i: int|
                    0 <= i < entries@.len() ==> #[trigger] entries@[i] == if record_matches(
                        records@[i],
                        ids@[i]@,
                    ) {
                        Some(records@[i].distances)
                    } else {
                        None
                    }
            },
            Err(error) => {
                &&& ids@.len() != records@.len()
                &&& error == plain_error(ErrorKind::Backend)
            },
        },
{
    if ids.len() != records.len() {
        return Err(Error::new(ErrorKind::Backend));
    }
    let mut entries: Vec<Option<PullDistances>> = Vec::new();
    let mut at: usize = 0;
    while at < ids.len()
        invariant
            at <= ids@.len(),
            ids@.len() == records@.len(),
            entries@.len() == at,
            forall|i: int|
                0 <= i < at ==> #[trigger] entries@[i] == if record_matches(
                    records@[i],
                    ids@[i]@,
                ) {
                    Some(records@[i].distances)
                } else {
                    None
                },
        decreases ids@.len() - at,
    {
        let record = &records[at];
        let matched = match &record.record_id {
            Some(id) => same_bytes(id, &ids[at]),
            None => false,
        };
        if matched {
            entries.push(Some(record.distances));
        } else {
            entries.push(None);
        }
        at = at + 1;
    }
    Ok(entries)
}

/// Returns the current Header of a donor that is still `Ready`.
pub fn ready_donor(source: Option<Authority>) -> (res: Option<PartitionHeader>)
    ensures
        res == match source {
            Some(found) => if found.transition is Ready {
                Some(found.header)
            } else {
                None
            },
            None => None,
        },
{
    match source {
        Some(found) => match found.transition {
            PartitionTransition::Ready { .. } => Some(found.header),
            _ => None,
        },
        None => None,
    }
}

/// Revalidates the split that pulls from a donor: whether it still drains into
/// its targets. A split at another level is Corruption.
pub fn split_still_pulls(
    donor: PartitionHeader,
    split: Option<Authority>,
    left: PartitionKey,
    right: PartitionKey,
) -> (res: Result<bool>)
    ensures
        match res {
            Ok(pulls) => match split {
                Some(found) => found.header.level == donor.level && pulls
                    == found.transition.drains_into(left, right),
                None => !pulls,
            },
            Err(error) => {
                &&& split matches Some(found) && found.header.level != donor.level
                &&& error == plain_error(ErrorKind::Corruption)
            },
        },
{
    match split {
        Some(found) => {
            if found.header.level != donor.level {
                return Err(Error::new(ErrorKind::Corruption));
            }
            Ok(found.transition.is_draining_split_of(left, right))
        },
        None => Ok(false),
    }
}

/// Revalidates the targets of a pull: their room, or `None` when a target
/// vanished, stopped filling, is at another level, or both are full.
pub fn attempt_capacity(
    level: u32,
    maximum: u32,
    left: PartitionKey,
    left_header: Option<PartitionHeader>,
    right: PartitionKey,
    right_header: Option<PartitionHeader>,
) -> (res: Option<TargetCapacity>)
    ensures
        match res {
            Some(capacity) => {
                &&& receiving_at(left_header, level)
                &&& receiving_at(right_header, level)
                &&& capacity == target_room(
                    maximum,
                    left,
                    left_header->0,
                    right,
                    right_header->0,
                )
                &&& !capacity.full()
            },
            None => {
                ||| !receiving_at(left_header, level)
                ||| !receiving_at(right_header, level)
                ||| target_room(maximum, left, left_header->0, right, right_header->0).full()
            },
        },
{
    match corrective_capacity(level, maximum, left, left_header, right, right_header) {
        Ok(capacity) => {
            if capacity.is_full() {
                None
            } else {
                Some(capacity)
            }
        },
        Err(_) => None,
    }
}

/// One move of a corrective pull.
#[derive(Clone, Copy, Debug, PartialEq, Eq, Structural)]
pub struct PullMove {
    /// The position of the entry in the batch.
    pub entry: usize,
    /// The target it moves to.
    pub target: PartitionKey,
}

/// The room after the first `n` batch entries were considered; `None` entries
/// were removed meanwhile and are skipped.
pub open spec fn attempt_room(
    entries: Seq<Option<PullDistances>>,
    capacity: TargetCapacity,
    n: nat,
) -> TargetCapacity
    decreases n,
{
    if n == 0 {
        capacity
    } else {
        let before = attempt_room(entries, capacity, (n - 1) as nat);
        match entries[n - 1] {
            Some(entry) => pull_after(entry, before),
            None => before,
        }
    }
}

/// The moves of the first `n` batch entries.
pub open spec fn attempt_moves(
    entries: Seq<Option<PullDistances>>,
    capacity: TargetCapacity,
    n: nat,
) -> Seq<PullMove>
    decreases n,
{
    if n == 0 {
        Seq::empty()
    } else {
        let before = attempt_room(entries, capacity, (n - 1) as nat);
        let rest = attempt_moves(entries, capacity, (n - 1) as nat);
        match entries[n - 1] {
            Some(entry) => match pull_choice(entry, before) {
                Some(target) => rest.push(PullMove { entry: (n - 1) as usize, target }),
                None => rest,
            },
            None => rest,
        }
    }
}

/// Whether the batch entry at `at` is gone or can be considered.
pub open spec fn attemptable(
    entries: Seq<Option<PullDistances>>,
    capacity: TargetCapacity,
    at: int,
) -> bool {
    entries[at] matches Some(entry) ==> pullable(
        entry,
        attempt_room(entries, capacity, at as nat),
    )
}

/// The number of batch entries considered before `limit` moves are made.
pub open spec fn attempt_stops(
    entries: Seq<Option<PullDistances>>,
    capacity: TargetCapacity,
    limit: Option<usize>,
    n: int,
) -> bool {
    &&& 0 <= n <= entries.len()
    &&& forall|i: int|
        0 <= i < n ==> (#[trigger] attempt_moves(entries, capacity, i as nat)).len() != limit->0
            || limit is None
    &&& n == entries.len() || (limit is Some && attempt_moves(entries, capacity, n as nat).len()
        == limit->0)
}

/// Whether a pull meets an entry that cannot be considered before it stops.
pub open spec fn attempt_fails(
    entries: Seq<Option<PullDistances>>,
    capacity: TargetCapacity,
    limit: Option<usize>,
    n: int,
) -> bool {
    &&& 0 <= n < entries.len()
    &&& !attemptable(entries, capacity, n)
    &&& forall|i: int| 0 <= i < n ==> #[trigger] attemptable(entries, capacity, i)
    &&& forall|i: int|
        0 <= i <= n ==> (#[trigger] attempt_moves(entries, capacity, i as nat)).len() != limit->0
            || limit is None
}

/// A pull over a batch either stops or fails, at one place.
pub proof fn attempt_ends_once(
    entries: Seq<Option<PullDistances>>,
    capacity: TargetCapacity,
    limit: Option<usize>,
    n: int,
    m: int,
)
    requires
        attempt_stops(entries, capacity, limit, n),
        forall|i: int| 0 <= i < n ==> #[trigger] attemptable(entries, capacity, i),
    ensures
        !attempt_fails(entries, capacity, limit, m),
        attempt_stops(entries, capacity, limit, m) ==> m == n,
{
    if attempt_fails(entries, capacity, limit, m) {
        if m < n {
            assert(attemptable(entries, capacity, m));
        } else {
            assert(attempt_moves(entries, capacity, n as nat).len() != limit->0 || limit is None);
        }
    }
    if attempt_stops(entries, capacity, limit, m) {
        if m < n {
            assert(attempt_moves(entries, capacity, m as nat).len() != limit->0 || limit is None);
        } else if n < m {
            assert(attempt_moves(entries, capacity, n as nat).len() != limit->0 || limit is None);
        }
    }
}

/// Fixes the moves of one corrective pull against the current room: every
/// remaining entry that a target still strictly improves, at most `limit` of
/// them. An unknown distance is Corruption.
pub fn pull_moves(
    entries: &Vec<Option<PullDistances>>,
    capacity: &TargetCapacity,
    limit: Option<usize>,
) -> (res: Result<Vec<PullMove>>)
    ensures
        match res {
            Ok(moves) => exists|n: int|
                {
                    &&& #[trigger] attempt_stops(entries@, *capacity, limit, n)
                    &&& forall|i: int| 0 <= i < n ==> #[trigger] attemptable(entries@, *capacity, i)
                    &&& moves@ == attempt_moves(entries@, *capacity, n as nat)
                },
            Err(error) => {
                &&& error == plain_error(ErrorKind::Corruption)
                &&& exists|n: int| #[trigger] attempt_fails(entries@, *capacity, limit, n)
            },
        },
        res matches Ok(moves) ==> (limit is Some ==> moves@.len() <= limit->0),
{
    let mut room = *capacity;
    let mut moves: Vec<PullMove> = Vec::new();
    let mut at: usize = 0;
    while at < entries.len()
        invariant
            at <= entries@.len(),
            room.left == capacity.left,
            room.right == capacity.right,
            room == attempt_room(entries@, *capacity, at as nat),
            moves@ == attempt_moves(entries@, *capacity, at as nat),
            limit is Some ==> moves@.len() <= limit->0,
            forall|i: int| 0 <= i < at ==> #[trigger] attemptable(entries@, *capacity, i),
            forall|i: int|
                0 <= i < at ==> (#[trigger] attempt_moves(entries@, *capacity, i as nat)).len()
                    != limit->0 || limit is None,
        decreases entries@.len() - at,
    {
        if let Some(most) = limit {
            if moves.len() == most {
                assert(attempt_stops(entries@, *capacity, limit, at as int));
                return Ok(moves);
            }
        }
        if let Some(entry) = entries[at] {
            match corrective_pull_target(entry, &mut room) {
                Ok(target) => {
                    assert(attemptable(entries@, *capacity, at as int));
                    if let Some(target) = target {
                        moves.push(PullMove { entry: at, target });
                    }
                },
                Err(error) => {
                    assert(attempt_fails(entries@, *capacity, limit, at as int));
                    return Err(error);
                },
            }
        }
        at = at + 1;
    }
    assert(attempt_stops(entries@, *capacity, limit, at as int));
    Ok(moves)
}

/// The most Child Entries a pull may take of an internal donor: all but one,
/// or `None` when that leaves nothing to move.
pub fn child_move_limit(donor: PartitionHeader) -> (res: Option<usize>)
    ensures
        match res {
            Some(limit) => donor.entry_count > 1 && limit == donor.entry_count - 1,
            None => donor.entry_count <= 1,
        },
{
    if donor.entry_count <= 1 {
        None
    } else {
        Some((donor.entry_count - 1) as usize)
    }
}

/// The sum of both targets' room.
pub open spec fn total_room(capacity: TargetCapacity) -> int {
    capacity.left_remaining + capacity.right_remaining
}

/// A pull never overfills the targets: it makes at most as many moves as they
/// have room, and each move takes one entry of that room.
pub proof fn pulls_fit_the_targets(
    entries: Seq<Option<PullDistances>>,
    capacity: TargetCapacity,
    n: nat,
)
    requires
        capacity.left != capacity.right,
        n <= entries.len(),
    ensures
        attempt_moves(entries, capacity, n).len() + total_room(
            attempt_room(entries, capacity, n),
        ) == total_room(capacity),
        attempt_room(entries, capacity, n).left == capacity.left,
        attempt_room(entries, capacity, n).right == capacity.right,
    decreases n,
{
    if n > 0 {
        pulls_fit_the_targets(entries, capacity, (n - 1) as nat);
        let before = attempt_room(entries, capacity, (n - 1) as nat);
        if entries[n - 1] is Some {
            pull_choice_has_room(entries[n - 1]->0, before);
        }
    }
}

} // verus!
