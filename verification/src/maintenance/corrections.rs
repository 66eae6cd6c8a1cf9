//! What corrective pulls and relocations promise, stated on ranks, rooms and
//! counts.

use vstd::prelude::*;

use crate::api::identifiers::{partition_key_of_view, PartitionKey};
use crate::api::number::Distance;
use crate::maintenance::balance::{best_owner, lesser_distance, Owner};
use crate::maintenance::beam::{candidates_of, family_of, first_unscanned, names_target, FamilyPlan};
use crate::maintenance::corrective::{attempt_moves, attempt_room, batches, donates, donor_limit, donor_positions, inspected_of, may_pull, pull_after, pull_choice, pull_owners, sample_count, sample_position, screened_capacity, selected_of, selection_of, steps_before, target_room, PullDistances, PullRotation, TargetCapacity};
use crate::maintenance::merge::targets_verdict;
use crate::maintenance::pulling::{PullEvent, PullStepView, PullView};
use crate::maintenance::ranking::{smaller_ranks_come_first, ChildCandidate};
use crate::maintenance::relocation::{MergeAttempt, MergeLocked, MergeTerms, PullAttempt, PullLocked, PullTerms, SplitAttempt, SplitLocked, SplitTerms};
use crate::maintenance::{merge, split};
use crate::topology::{Authority, Body, LevelCandidate, PartitionHeader, PartitionState, PartitionTransition};

verus! {

broadcast use partition_key_of_view;

/// The lesser of two distances is one of them, and of the smaller rank.
pub proof fn the_lesser_distance_is_nearest(a: Distance, b: Distance)
    ensures
        lesser_distance(a, b).rank <= a.rank,
        lesser_distance(a, b).rank <= b.rank,
        lesser_distance(a, b) == a || lesser_distance(a, b) == b,
{
}

/// An entry is pulled only into a target that has room and is strictly nearer
/// than its source; it is pulled whenever there is one, into the one of
/// smaller rank.
pub proof fn pulls_go_to_a_strictly_nearer_target_with_room(
    entry: PullDistances,
    capacity: TargetCapacity,
)
    requires
        capacity.left != capacity.right,
    ensures
        ({
            let left_better = capacity.left_remaining > 0 && entry.left->0.rank
                < entry.source->0.rank;
            let right_better = capacity.right_remaining > 0 && entry.right->0.rank
                < entry.source->0.rank;
            let choice = pull_choice(entry, capacity);
            &&& !left_better && !right_better ==> choice is None
            &&& left_better && !right_better && !(capacity.right_remaining > 0
                && entry.right->0.rank < entry.left->0.rank) ==> choice == Some(capacity.left)
            &&& right_better && !left_better && !(capacity.left_remaining > 0
                && entry.left->0.rank < entry.right->0.rank) ==> choice == Some(capacity.right)
            &&& left_better && right_better && entry.left->0.rank < entry.right->0.rank ==> choice
                == Some(capacity.left)
            &&& left_better && right_better && entry.right->0.rank < entry.left->0.rank ==> choice
                == Some(capacity.right)
            &&& choice == Some(capacity.left) ==> left_better
            &&& choice == Some(capacity.right) ==> right_better
            &&& choice is Some ==> choice == Some(capacity.left) || choice == Some(capacity.right)
        }),
{
    let owners = pull_owners(entry, capacity);
    smaller_ranks_come_first(capacity.left, entry.left->0, capacity.right, entry.right->0);
    smaller_ranks_come_first(capacity.right, entry.right->0, capacity.left, entry.left->0);
    reveal_with_fuel(best_owner, 3);
    let left = Owner { partition: capacity.left, distance: entry.left->0 };
    let right = Owner { partition: capacity.right, distance: entry.right->0 };
    if capacity.left_remaining > 0 && capacity.right_remaining > 0 {
        assert(owners =~= seq![left, right]);
        assert(owners.drop_last() =~= seq![left]);
        assert(owners.drop_last().drop_last() =~= Seq::<Owner>::empty());
        assert(PartitionKey::of(capacity.left@) == capacity.left);
        assert(PartitionKey::of(capacity.right@) == capacity.right);
    } else if capacity.left_remaining > 0 {
        assert(owners =~= seq![left]);
        assert(owners.drop_last() =~= Seq::<Owner>::empty());
    } else if capacity.right_remaining > 0 {
        assert(owners =~= seq![right]);
        assert(owners.drop_last() =~= Seq::<Owner>::empty());
    } else {
        assert(owners =~= Seq::<Owner>::empty());
    }
}

/// A pulled entry takes one place of its target and none of the other; one that
/// stays takes none.
pub proof fn pulls_take_one_place(entry: PullDistances, capacity: TargetCapacity)
    requires
        capacity.left != capacity.right,
    ensures
        ({
            let after = pull_after(entry, capacity);
            &&& after.left == capacity.left && after.right == capacity.right
            &&& pull_choice(entry, capacity) is None ==> after == capacity
            &&& pull_choice(entry, capacity) == Some(capacity.left) ==> after.left_remaining + 1
                == capacity.left_remaining && after.right_remaining == capacity.right_remaining
            &&& pull_choice(entry, capacity) == Some(capacity.right) ==> after.right_remaining + 1
                == capacity.right_remaining && after.left_remaining == capacity.left_remaining
        }),
{
    pulls_go_to_a_strictly_nearer_target_with_room(entry, capacity);
}

/// The room of a target is what is missing to the maximum.
pub proof fn target_room_is_what_is_missing(
    maximum: u32,
    left: PartitionKey,
    left_header: PartitionHeader,
    right: PartitionKey,
    right_header: PartitionHeader,
)
    ensures
        ({
            let room = target_room(maximum, left, left_header, right, right_header);
            &&& room.left == left && room.right == right
            &&& left_header.entry_count <= maximum ==> room.left_remaining
                + left_header.entry_count == maximum
            &&& left_header.entry_count >= maximum ==> room.left_remaining == 0
            &&& right_header.entry_count <= maximum ==> room.right_remaining
                + right_header.entry_count == maximum
            &&& right_header.entry_count >= maximum ==> room.right_remaining == 0
            &&& room.full() <==> room.left_remaining == 0 && room.right_remaining == 0
            &&& room.has_room(left) && left != right ==> room.left_remaining > 0
        }),
{
}

/// Only a split below the root that still drains entries into these very
/// targets pulls.
pub proof fn only_draining_splits_pull(
    source: PartitionKey,
    authority: Option<Authority>,
    left: PartitionKey,
    right: PartitionKey,
)
    ensures
        source@ == 1 ==> !may_pull(source, authority, left, right),
        authority is None ==> !may_pull(source, authority, left, right),
        authority matches Some(found) ==> {
            &&& found.header.entry_count == 0 ==> !may_pull(source, authority, left, right)
            &&& !(found.transition is DrainingSplit) ==> !may_pull(source, authority, left, right)
            &&& found.transition matches PartitionTransition::DrainingSplit {
                left: first,
                right: second,
                ..
            } ==> (source@ != 1 && found.header.entry_count > 0 ==> (may_pull(
                source,
                authority,
                left,
                right,
            ) <==> first == left && second == right))
        },
{
}

/// The donors are the candidates that can give: every leaf, and every internal
/// partition with more than one child. Each is listed once, in order.
pub proof fn donors_are_all_that_can_give(candidates: Seq<LevelCandidate>, n: nat, at: int)
    requires
        n <= candidates.len() <= usize::MAX,
        0 <= at < n,
    ensures
        donor_positions(candidates, n).contains(at as usize) <==> candidates[at].header.level == 1
            || candidates[at].header.entry_count > 1,
    decreases n,
{
    let rest = donor_positions(candidates, (n - 1) as nat);
    let all = donor_positions(candidates, n);
    crate::maintenance::corrective::donor_positions_are_donors(candidates, (n - 1) as nat);
    crate::maintenance::corrective::donor_positions_are_donors(candidates, n);
    if at < n - 1 {
        donors_are_all_that_can_give(candidates, (n - 1) as nat, at);
        if rest.contains(at as usize) {
            let i = choose|i: int| 0 <= i < rest.len() && rest[i] == at as usize;
            assert(all[i] == at as usize);
        }
        if all.contains(at as usize) {
            let i = choose|i: int| 0 <= i < all.len() && all[i] == at as usize;
            assert(rest[i] == at as usize);
        }
    } else {
        if candidates[at].header.level == 1 || candidates[at].header.entry_count > 1 {
            assert(all[rest.len() as int] == at as usize);
        }
        if all.contains(at as usize) {
            let i = choose|i: int| 0 <= i < all.len() && all[i] == at as usize;
            assert(donates(candidates[all[i] as int]));
        }
    }
}

/// An internal donor keeps a child, a leaf may give all it has; and no step
/// takes more than its batch or the targets' room.
pub proof fn donors_keep_a_child(
    header: PartitionHeader,
    batch: usize,
    capacity: TargetCapacity,
)
    ensures
        header.level == 1 ==> donor_limit(header, batch) == batch,
        header.level != 1 ==> donor_limit(header, batch) < header.entry_count && donor_limit(
            header,
            batch,
        ) <= batch && (donor_limit(header, batch) == batch || donor_limit(header, batch) + 1
            == header.entry_count),
        selection_of(batch, capacity) <= batch,
        selection_of(batch, capacity) <= capacity.left_remaining + capacity.right_remaining,
        selection_of(batch, capacity) == batch || selection_of(batch, capacity)
            == capacity.left_remaining + capacity.right_remaining,
{
}

/// The rounds of a source are the batches it takes to empty it, rounded up.
pub proof fn rounds_empty_the_source(entry_count: u32, limit: usize)
    requires
        limit > 0,
    ensures
        batches(entry_count, limit) * limit >= entry_count,
        entry_count > 0 ==> (batches(entry_count, limit) - 1) * limit < entry_count,
        entry_count == 0 ==> batches(entry_count, limit) == 0,
{
    let count = entry_count as int;
    let size = limit as int;
    let rounds = batches(entry_count, limit);
    assert(rounds == (count + size - 1) / size);
    assert(rounds * size >= count && (count > 0 ==> (rounds - 1) * size < count) && (count == 0
        ==> rounds == 0)) by (nonlinear_arith)
        requires
            size > 0,
            count >= 0,
            rounds == (count + size - 1) / size,
    ;
}

/// At most four donors are inspected, and never more than there are; each gets
/// its share of the screened items, no two shares apart by more than one.
pub proof fn inspections_are_bounded_and_even(rotation: PullRotation, a: int, b: int)
    requires
        rotation.well_formed(),
        0 <= a < rotation.inspected,
        0 <= b < rotation.inspected,
    ensures
        rotation.inspected <= 4,
        rotation.inspected <= rotation.donors,
        rotation.inspected == 4 || rotation.inspected == rotation.donors,
        rotation.screen_at(a) <= rotation.screen_at(b) + 1,
        0 <= rotation.donor_at(a) < rotation.donors,
        rotation.first + a < rotation.donors ==> rotation.donor_at(a) == rotation.first + a,
        rotation.donors <= rotation.first + a ==> rotation.donor_at(a) == rotation.first + a
            - rotation.donors,
        inspected_of(rotation.donors as int) == rotation.inspected,
        steps_before(0) == 0,
        forall|round: int| round > 0 ==> #[trigger] steps_before(round) == round - 1,
{
    vstd::arithmetic::div_mod::lemma_fundamental_div_mod_converse(
        rotation.first + a,
        rotation.donors as int,
        if rotation.first + a < rotation.donors {
            0int
        } else {
            1int
        },
        if rotation.first + a < rotation.donors {
            rotation.first + a
        } else {
            rotation.first + a - rotation.donors
        },
    );
}

/// A page is sampled as often as its length and the limit allow, within the
/// page, and each later round samples one position further on.
pub proof fn samples_move_with_the_round(length: int, limit: int, round: int, sample: int)
    requires
        length > 0,
        limit > 0,
        round >= 1,
        0 <= sample < sample_count(length, limit),
    ensures
        sample_count(length, limit) <= length,
        sample_count(length, limit) <= limit,
        sample_count(length, limit) == length || sample_count(length, limit) == limit,
        0 <= sample_position(length, limit, round, sample) < length,
        sample_position(length, limit, round + 1, sample) == (sample_position(
            length,
            limit,
            round,
            sample,
        ) + 1) % length,
        sample_position(length, limit, 1, 0) == 0,
        sample_count(length, limit) > 1 ==> sample_position(
            length,
            limit,
            1,
            sample_count(length, limit) - 1,
        ) == length - 1,
{
    let count = sample_count(length, limit);
    let step = if count == 1 {
        0
    } else {
        sample * (length - 1) / (count - 1)
    };
    let before = (round - 1) % length;
    let after = round % length;
    assert(steps_before(round) == round - 1);
    assert(steps_before(round + 1) == round);
    vstd::arithmetic::div_mod::lemma_add_mod_noop(round - 1, step, length);
    vstd::arithmetic::div_mod::lemma_add_mod_noop(round, step, length);
    vstd::arithmetic::div_mod::lemma_add_mod_noop(round - 1 + step, 1, length);
    assert((before + step) % length == (round - 1 + step) % length) by {
        vstd::arithmetic::div_mod::lemma_add_mod_noop_right(step, round - 1, length);
    }
    assert((after + step) % length == (round + step) % length) by {
        vstd::arithmetic::div_mod::lemma_add_mod_noop_right(step, round, length);
    }
    assert(((before + step) % length + 1) % length == (round + step) % length) by {
        vstd::arithmetic::div_mod::lemma_add_mod_noop_right(1, round - 1 + step, length);
    }
    vstd::arithmetic::div_mod::lemma_mod_twice(round - 1, length);
    vstd::arithmetic::div_mod::lemma_mod_twice(round, length);
    assert(0int % length == 0) by {
        vstd::arithmetic::div_mod::lemma_small_mod(0, length as nat);
    }
    if count > 1 {
        assert(0 * (length - 1) == 0) by (nonlinear_arith);
        assert(0int / (count - 1) == 0) by (nonlinear_arith)
            requires
                count > 1,
        ;
        assert((count - 1) * (length - 1) / (count - 1) == length - 1) by (nonlinear_arith)
            requires
                count > 1,
                length > 0,
        ;
        vstd::arithmetic::div_mod::lemma_small_mod((length - 1) as nat, length as nat);
    }
    vstd::arithmetic::div_mod::lemma_mod_bound(before + step, length);
    vstd::arithmetic::div_mod::lemma_mod_bound(round - 1, length);
}

/// The selected samples are those, in order, that a target with room strictly
/// improves once the earlier ones took their places.
pub proof fn selections_are_the_improving_samples(
    entries: Seq<Option<PullDistances>>,
    capacity: TargetCapacity,
    n: nat,
    at: int,
)
    requires
        n <= entries.len() <= usize::MAX,
        0 <= at < n,
    ensures
        selected_of(entries, capacity, n).contains(at as usize) <==> pull_choice(
            entries[at]->0,
            screened_capacity(entries, capacity, at as nat),
        ) is Some,
        forall|i: int|
            0 <= i < selected_of(entries, capacity, n).len() ==> (#[trigger] selected_of(
                entries,
                capacity,
                n,
            )[i]) < n,
    decreases n,
{
    let rest = selected_of(entries, capacity, (n - 1) as nat);
    let all = selected_of(entries, capacity, n);
    selections_stay_within(entries, capacity, (n - 1) as nat);
    selections_stay_within(entries, capacity, n);
    if at < n - 1 {
        selections_are_the_improving_samples(entries, capacity, (n - 1) as nat, at);
        if rest.contains(at as usize) {
            let i = choose|i: int| 0 <= i < rest.len() && rest[i] == at as usize;
            assert(all[i] == at as usize);
        }
        if all.contains(at as usize) {
            let i = choose|i: int| 0 <= i < all.len() && all[i] == at as usize;
            assert(rest[i] == at as usize);
        }
    } else {
        if all.len() > rest.len() {
            assert(all[rest.len() as int] == at as usize);
        }
        if all.contains(at as usize) {
            let i = choose|i: int| 0 <= i < all.len() && all[i] == at as usize;
            if i < rest.len() {
                assert(rest[i] < n - 1);
            }
        }
    }
}

proof fn selections_stay_within(
    entries: Seq<Option<PullDistances>>,
    capacity: TargetCapacity,
    n: nat,
)
    requires
        n <= usize::MAX,
    ensures
        forall|i: int|
            0 <= i < selected_of(entries, capacity, n).len() ==> (#[trigger] selected_of(
                entries,
                capacity,
                n,
            )[i]) < n,
    decreases n,
{
    if n > 0 {
        selections_stay_within(entries, capacity, (n - 1) as nat);
        let rest = selected_of(entries, capacity, (n - 1) as nat);
        let all = selected_of(entries, capacity, n);
        assert forall|i: int| 0 <= i < all.len() implies (#[trigger] all[i]) < n by {
            if i < rest.len() {
                assert(all[i] == rest[i]);
            }
        }
    }
}

/// Every relocated entry was found, goes to the target chosen for it with the
/// room its predecessors left, and is listed in order.
pub proof fn relocated_entries_go_to_their_choice(
    entries: Seq<Option<PullDistances>>,
    capacity: TargetCapacity,
    n: nat,
    k: int,
)
    requires
        n <= entries.len() <= usize::MAX,
        0 <= k < attempt_moves(entries, capacity, n).len(),
    ensures
        ({
            let moved = attempt_moves(entries, capacity, n)[k];
            &&& moved.entry < n
            &&& entries[moved.entry as int] is Some
            &&& pull_choice(
                entries[moved.entry as int]->0,
                attempt_room(entries, capacity, moved.entry as nat),
            ) == Some(moved.target)
        }),
    decreases n,
{
    if n > 0 {
        let rest = attempt_moves(entries, capacity, (n - 1) as nat);
        if k < rest.len() {
            relocated_entries_go_to_their_choice(entries, capacity, (n - 1) as nat, k);
        }
    }
}

/// Merge targets pass exactly when each of them still exists, at the level and
/// `Ready`; the first that does not decides, a level that contradicts failing.
pub proof fn one_lost_target_stops_a_merge(
    headers: Seq<Option<PartitionHeader>>,
    level: u32,
    at: int,
    first: int,
)
    requires
        0 <= at <= first < headers.len(),
        forall|i: int|
            at <= i < first ==> (#[trigger] headers[i]) is Some && headers[i]->0.level == level
                && headers[i]->0.state == PartitionState::Ready,
    ensures
        headers[first] is None ==> targets_verdict(headers, level, at) == Some(false),
        headers[first] matches Some(found) ==> (found.level != level ==> targets_verdict(
            headers,
            level,
            at,
        ) is None),
        headers[first] matches Some(found) ==> (found.level == level && found.state
            != PartitionState::Ready ==> targets_verdict(headers, level, at) == Some(false)),
        headers[first] matches Some(found) ==> (found.level == level && found.state
            == PartitionState::Ready && first == headers.len() - 1 ==> targets_verdict(
            headers,
            level,
            at,
        ) == Some(true)),
    decreases first - at,
{
    reveal_with_fuel(targets_verdict, 2);
    if at < first {
        assert(headers[at] is Some);
        one_lost_target_stops_a_merge(headers, level, at + 1, first);
    }
}

/// A pull attempt reads the entries only with both targets filling at the
/// donor's level, some room left, and, above the leaves, a child to spare; its
/// room is the targets' and its limit leaves the donor a child.
pub proof fn pull_attempts_need_room_and_a_donor(
    terms: PullTerms,
    donor: PartitionHeader,
    left: PartitionHeader,
    right: PartitionHeader,
    after: PullAttempt,
)
    requires
        (PullAttempt::LockTargets { donor }).leads_to(
            terms,
            PullLocked::Targets { left: Some(left), right: Some(right) },
            after,
        ),
    ensures
        after matches PullAttempt::LockEntries { capacity, limit } ==> {
            &&& left.level == donor.level && left.state == PartitionState::ReceivingSplit
            &&& right.level == donor.level && right.state == PartitionState::ReceivingSplit
            &&& capacity.left == terms.left && capacity.right == terms.right
            &&& capacity.left_remaining > 0 || capacity.right_remaining > 0
            &&& capacity.left_remaining > 0 ==> capacity.left_remaining + left.entry_count
                == terms.maximum
            &&& capacity.right_remaining > 0 ==> capacity.right_remaining + right.entry_count
                == terms.maximum
            &&& terms.leaf ==> limit is None
            &&& !terms.leaf ==> donor.entry_count > 1 && limit is Some && limit->0 + 1
                == donor.entry_count
        },
        left.level == donor.level && left.state == PartitionState::ReceivingSplit && right.level
            == donor.level && right.state == PartitionState::ReceivingSplit && (left.entry_count
            < terms.maximum || right.entry_count < terms.maximum) && (terms.leaf
            || donor.entry_count > 1) ==> after is LockEntries,
        !(after is LockEntries) ==> after == (PullAttempt::Done { moved: 0 }),
{
}

/// A pull attempt needs a `Ready` donor and a split that still drains into its
/// targets; what it relocated is what it reports.
pub proof fn pull_attempts_need_a_live_split(
    terms: PullTerms,
    found: Authority,
    donor: PartitionHeader,
    moved: usize,
    after: PullAttempt,
)
    ensures
        PullAttempt::LockDonor.leads_to(terms, PullLocked::Donor(Some(found)), after) ==> (
        found.transition is Ready ==> after == (PullAttempt::LockSplit { donor: found.header }))
            && (!(found.transition is Ready) ==> after == (PullAttempt::Done { moved: 0 })),
        PullAttempt::LockDonor.leads_to(terms, PullLocked::Donor(None), after) ==> after == (
        PullAttempt::Done { moved: 0 }),
        (PullAttempt::LockSplit { donor }).leads_to(terms, PullLocked::Split(Some(found)), after)
            ==> (after is LockTargets ==> (found.transition matches
            PartitionTransition::DrainingSplit { left, right, .. } && left == terms.left && right
            == terms.right)),
        (PullAttempt::LockSplit { donor }).leads_to(terms, PullLocked::Split(Some(found)), after)
            ==> (found.transition matches PartitionTransition::DrainingSplit { left, right, .. }
            ==> (left == terms.left && right == terms.right ==> after == (
        PullAttempt::LockTargets { donor }))),
{
}

/// A split attempt counts from the Headers it locked: the source's entries, and
/// what each target misses to the minimum. What it relocated leaves the rest.
pub proof fn split_attempts_count_from_their_headers(
    terms: SplitTerms,
    source: PartitionHeader,
    left: PartitionHeader,
    right: PartitionHeader,
    moved: usize,
    targets: Vec<PartitionKey>,
    after: SplitAttempt,
)
    ensures
        (SplitAttempt::LockTargets { source }).leads_to(
            terms,
            SplitLocked::Targets { left: Some(left), right: Some(right) },
            after,
        ) ==> (after matches SplitAttempt::LockCandidates { source: kept, balance } && kept
            == source && balance.source_remaining == source.entry_count && balance.left_needed
            + left.entry_count >= terms.minimum && (balance.left_needed > 0
            ==> balance.left_needed + left.entry_count == terms.minimum) && balance.right_needed
            + right.entry_count >= terms.minimum && (balance.right_needed > 0
            ==> balance.right_needed + right.entry_count == terms.minimum)),
        moved <= source.entry_count && (SplitAttempt::Relocate { source, targets }).leads_to(
            terms,
            SplitLocked::Relocated(moved),
            after,
        ) ==> (after matches SplitAttempt::Done { step } && step matches
            split::DrainStep::Drained { moved: reported, remaining } && reported == moved
            && remaining + moved == source.entry_count),
        moved > source.entry_count <==> (SplitAttempt::Relocate { source, targets }).contradicts(
            terms,
            SplitLocked::Relocated(moved),
        ),
{
}

/// A merge attempt relocates only into targets that all still hold, and reports
/// what it moved and what is left.
pub proof fn merge_attempts_report_their_counts(
    terms: MergeTerms,
    header: PartitionHeader,
    targets: Vec<PartitionKey>,
    moved: usize,
    after: MergeAttempt,
)
    requires
        moved <= header.entry_count,
        (MergeAttempt::Relocate { header, targets }).leads_to(
            terms,
            MergeLocked::Relocated(moved),
            after,
        ),
    ensures
        after matches MergeAttempt::Done { step } && step matches merge::DrainStep::Drained {
            moved: reported,
            remaining,
        } && reported == moved && remaining + moved == header.entry_count,
{
}

/// A pull step starts for a split that may pull alone, ends without donors, and
/// ends with full targets.
pub proof fn pull_steps_start_from_a_draining_split(
    step: PullStepView,
    authority: Authority,
    left: PartitionHeader,
    right: PartitionHeader,
    header: PartitionHeader,
    candidates: Seq<LevelCandidate>,
    after: PullStepView,
)
    ensures
        step.phase is ReadSplit && step.leads_to(PullEvent::SplitRead(Some(authority)), after) ==> {
            &&& after.phase is Discover || after.phase == (PullView::Done { moved: 0 })
            &&& after.phase is Discover ==> step.source@ != 1 && authority.header.entry_count > 0
                && (authority.transition matches PartitionTransition::DrainingSplit {
                left: first,
                right: second,
                ..
            } && first == step.left && second == step.right)
        },
        step.phase == (PullView::ReadTargets { header, candidates }) && step.leads_to(
            PullEvent::TargetsRead { left: Some(left), right: Some(right) },
            after,
        ) ==> {
            &&& left.entry_count >= step.maximum && right.entry_count >= step.maximum
                ==> after.phase == (PullView::Done { moved: 0 })
            &&& left.entry_count < step.maximum || right.entry_count < step.maximum
                ==> after.phase is SourceBudget
        },
        step.phase == (PullView::ReadTargets { header, candidates }) ==> (step.contradicts(
            PullEvent::TargetsRead { left: Some(left), right: Some(right) },
        ) <==> left.level != header.level || right.level != header.level || left.state
            != PartitionState::ReceivingSplit || right.state != PartitionState::ReceivingSplit),
        after.source == step.source || !step.leads_to(PullEvent::SplitRead(Some(authority)), after),
{
}

/// A corrective search scans a draining split with its targets, a filling target
/// through its source, and everything else alone.
pub proof fn families_follow_the_state(partition: PartitionKey, authority: Authority)
    ensures
        authority.transition matches PartitionTransition::DrainingSplit { left, right, .. }
            ==> family_of(partition, authority) == (FamilyPlan::Split {
            body: Body { partition, header: authority.header },
            left,
            right,
        }),
        authority.transition matches PartitionTransition::ReceivingSplit { source, .. }
            ==> family_of(partition, authority) == (FamilyPlan::Source { source }),
        !(authority.transition is DrainingSplit) && !(authority.transition is ReceivingSplit)
            ==> family_of(partition, authority) == (FamilyPlan::Alone {
            body: Body { partition, header: authority.header },
        }),
        authority.transition matches PartitionTransition::Splitting { left, right, .. } ==> (
        names_target(authority.transition, partition) <==> partition == left || partition == right),
        authority.transition matches PartitionTransition::DrainingSplit { left, right, .. } ==> (
        names_target(authority.transition, partition) <==> partition == left || partition == right),
        authority.transition is Ready || authority.transition is Merging
            || authority.transition is ReceivingSplit ==> !names_target(
            authority.transition,
            partition,
        ),
{
}

/// The next partition of a frontier is its first one that was not scanned yet.
pub proof fn frontiers_are_scanned_in_order(
    frontier: Seq<PartitionKey>,
    scanned: Seq<PartitionKey>,
    at: int,
)
    requires
        0 <= at <= frontier.len(),
    ensures
        ({
            let next = first_unscanned(frontier, scanned, at);
            &&& at <= next <= frontier.len()
            &&& next < frontier.len() ==> !scanned.contains(frontier[next])
            &&& forall|i: int| at <= i < next ==> scanned.contains(#[trigger] frontier[i])
        }),
    decreases frontier.len() - at,
{
    if at < frontier.len() && scanned.contains(frontier[at]) {
        frontiers_are_scanned_in_order(frontier, scanned, at + 1);
    }
}

/// The candidates of a search are its edges to `Ready` partitions with entries,
/// each under its own parent and with its own Header.
pub proof fn candidates_are_ready_and_filled(
    edges: Seq<ChildCandidate>,
    headers: Seq<Option<PartitionHeader>>,
    n: nat,
    k: int,
    at: int,
)
    requires
        n <= edges.len(),
        n <= headers.len(),
    ensures
        0 <= k < candidates_of(edges, headers, n).len() ==> {
            let one = candidates_of(edges, headers, n)[k];
            &&& one.header.state == PartitionState::Ready
            &&& one.header.entry_count > 0
            &&& exists|i: int|
                0 <= i < n && (#[trigger] edges[i]).child == one.partition && edges[i].owner
                    == one.parent && headers[i]->0 == one.header
        },
        0 <= at < n && headers[at]->0.state == PartitionState::Ready && headers[at]->0.entry_count
            > 0 ==> candidates_of(edges, headers, n).contains(
            LevelCandidate {
                partition: edges[at].child,
                parent: edges[at].owner,
                header: headers[at]->0,
            },
        ),
    decreases n,
{
    if n > 0 {
        let rest = candidates_of(edges, headers, (n - 1) as nat);
        let all = candidates_of(edges, headers, n);
        candidates_are_ready_and_filled(edges, headers, (n - 1) as nat, k, at);
        if rest.len() <= k < all.len() {
            assert(edges[n - 1].child == all[k].partition);
        }
        if 0 <= at < n && headers[at]->0.state == PartitionState::Ready
            && headers[at]->0.entry_count > 0 {
            let one = LevelCandidate {
                partition: edges[at].child,
                parent: edges[at].owner,
                header: headers[at]->0,
            };
            if at < n - 1 {
                let i = choose|i: int| 0 <= i < rest.len() && rest[i] == one;
                assert(all[i] == one);
            } else {
                assert(all[rest.len() as int] == one);
            }
        }
    }
}

} // verus!
