//! What maintenance counts and groups, stated on the counts themselves.

use vstd::prelude::*;

use crate::api::error::ErrorKind;
use crate::api::identifiers::{partition_key_of_view, PartitionKey};
use crate::maintenance::balance::{batches_are_routed_entry_by_entry, drain_run, levels_agree, measured, ready_room, shortfall, takes_entries, DrainDistances, DrainState, SplitBalance};
use crate::maintenance::beam::CorrectiveBeam;
use crate::maintenance::corrections::{pulls_go_to_a_strictly_nearer_target_with_room, relocated_entries_go_to_their_choice};
use crate::maintenance::corrective::{attempt_moves, attempt_room, attempt_stops, attemptable, record_matches, PullDistances, PullMove, SampledRecord, TargetCapacity};
use crate::maintenance::merge::{entry_failure, first_failure};
use crate::maintenance::mutation::{group_joined, group_position, RouteGroupView};
use crate::maintenance::pulling::{planned, PullEvent, PullStepView, PullView, ScanView};
use crate::maintenance::relocation::{are_pull_moves, MergeAttempt, MergeLocked, MergeTerms, SplitAttempt, SplitLocked, SplitTerms};
use crate::maintenance::{merge, split};
use crate::maintenance::routing::{child_page_bytes, exact, unfinished, BodyScan};
use crate::topology::{Authority, LevelCandidate, PartitionHeader, PartitionState, PartitionTransition};

verus! {

broadcast use partition_key_of_view;

/// A target needs what its count misses to the minimum, and nothing beyond it.
pub proof fn shortfalls_reach_the_minimum(minimum: u32, count: u32)
    ensures
        count <= minimum ==> shortfall(minimum, count) + count == minimum,
        count >= minimum ==> shortfall(minimum, count) == 0,
{
}

/// An entry can be routed exactly when its distances to both targets and to
/// every candidate with room are known, and the source still holds entries.
pub proof fn routing_needs_its_distances(
    entry: DrainDistances,
    candidates: Seq<PartitionKey>,
    capacity: Map<u64, u32>,
    balance: SplitBalance,
    i: int,
)
    ensures
        entry.left is None || entry.right is None ==> !measured(entry, candidates, capacity),
        0 <= i < candidates.len() && capacity.contains_key(candidates[i]@)
            && capacity[candidates[i]@] > 0 && entry.ready@[i] is None ==> !measured(
            entry,
            candidates,
            capacity,
        ),
        entry.left is Some && entry.right is Some && (forall|k: int|
            0 <= k < candidates.len() ==> #[trigger] entry.ready@[k] is Some) ==> measured(
            entry,
            candidates,
            capacity,
        ),
        balance.source_remaining == 0 ==> !balance.countable(),
        balance.source_remaining > 0 && balance.left_needed + balance.right_needed <= u64::MAX
            ==> balance.countable(),
        0 <= i < candidates.len() && !capacity.contains_key(candidates[i]@) ==> ready_room(
            capacity,
            candidates[i],
        ) == 0,
{
    if 0 <= i < candidates.len() && capacity.contains_key(candidates[i]@)
        && capacity[candidates[i]@] > 0 {
        assert(ready_room(capacity, candidates[i]) > 0);
    }
}

/// A sibling takes entries exactly when it exists, at rest and below the
/// maximum; one at another level contradicts the drain.
pub proof fn siblings_take_entries_at_rest(
    header: Option<PartitionHeader>,
    maximum: u32,
    level: u32,
    headers: Seq<Option<PartitionHeader>>,
    i: int,
)
    ensures
        header is None ==> !takes_entries(header, maximum),
        header matches Some(found) ==> (takes_entries(header, maximum) <==> found.state
            == PartitionState::Ready && found.entry_count < maximum),
        0 <= i < headers.len() && headers[i] is Some && (headers[i]->0).level != level
            ==> !levels_agree(level, headers),
        (forall|k: int| 0 <= k < headers.len() ==> #[trigger] headers[k] is None) ==> levels_agree(
            level,
            headers,
        ),
{
}

/// A corrective search leaves out the split's source and both of its targets
/// where it looks at their level, and nothing else.
pub proof fn searches_leave_out_the_split_itself(beam: CorrectiveBeam, child: PartitionKey)
    ensures
        beam.current_level == beam.level + 1 && (child == beam.source || child == beam.left
            || child == beam.right) ==> beam.excludes(child),
        beam.current_level != beam.level + 1 ==> !beam.excludes(child),
        child != beam.source && child != beam.left && child != beam.right ==> !beam.excludes(child),
{
}

/// A sampled record is that of its Leaf Entry exactly when it exists and holds
/// the entry's id.
pub proof fn sampled_records_hold_their_id(record: SampledRecord, id: Seq<u8>)
    ensures
        record.record_id is None ==> !record_matches(record, id),
        record.record_id matches Some(found) ==> (record_matches(record, id) <==> found@ == id),
{
}

proof fn group_positions_are_first(groups: Seq<RouteGroupView>, tree_key: Seq<u8>, at: int)
    requires
        0 <= at <= groups.len(),
    ensures
        at <= group_position(groups, tree_key, at) <= groups.len(),
        group_position(groups, tree_key, at) < groups.len() ==> groups[group_position(
            groups,
            tree_key,
            at,
        )].tree_key == tree_key,
        forall|i: int|
            at <= i < group_position(groups, tree_key, at) ==> (#[trigger] groups[i]).tree_key
                != tree_key,
    decreases groups.len() - at,
{
    if at < groups.len() && groups[at].tree_key != tree_key {
        group_positions_are_first(groups, tree_key, at + 1);
    }
}

/// An upsert joins the group of its Tree Key, behind its members, or opens a
/// group of its own behind the others; no other group changes.
pub proof fn upserts_join_their_tree(
    groups: Seq<RouteGroupView>,
    tree_key: Seq<u8>,
    position: usize,
    at: int,
)
    requires
        forall|i: int, j: int|
            0 <= i < j < groups.len() ==> (#[trigger] groups[i]).tree_key != (
            #[trigger] groups[j]).tree_key,
    ensures
        ({
            let after = group_joined(groups, tree_key, position);
            &&& (forall|i: int| 0 <= i < groups.len() ==> (#[trigger] groups[i]).tree_key
                != tree_key) ==> after.len() == groups.len() + 1 && after.last().tree_key
                == tree_key && after.last().members == seq![position]
                && after.last().first_position == position
            &&& 0 <= at < groups.len() && groups[at].tree_key == tree_key ==> after.len()
                == groups.len() && after[at].tree_key == tree_key && after[at].members
                == groups[at].members.push(position) && after[at].first_position
                == groups[at].first_position
            &&& 0 <= at < groups.len() && groups[at].tree_key != tree_key ==> after[at]
                == groups[at]
        }),
{
    group_positions_are_first(groups, tree_key, 0);
    let found = group_position(groups, tree_key, 0);
    if 0 <= at < groups.len() && groups[at].tree_key == tree_key {
        if found < at {
            assert(groups[found].tree_key != groups[at].tree_key);
        } else if at < found {
            assert(groups[at].tree_key != tree_key);
        }
    }
}

/// The scans to go on with are those that are not done, in order; a finished one
/// is exact when it saw as many entries as its Header counts.
pub proof fn scans_go_on_until_done(
    scans: Seq<BodyScan>,
    n: nat,
    at: int,
    header: PartitionHeader,
)
    requires
        n <= scans.len() <= usize::MAX,
        0 <= at < n,
    ensures
        unfinished(scans, n).contains(at as usize) <==> !scans[at].done,
        forall|i: int|
            0 <= i < unfinished(scans, n).len() ==> (#[trigger] unfinished(scans, n)[i]) < n,
        exact(scans[at], header) <==> scans[at].seen == header.entry_count,
    decreases n,
{
    let rest = unfinished(scans, (n - 1) as nat);
    let all = unfinished(scans, n);
    if n > 1 {
        scans_go_on_until_done(
            scans,
            (n - 1) as nat,
            if at < n - 1 {
                at
            } else {
                0
            },
            header,
        );
    } else {
        assert(rest.len() == 0);
    }
    assert forall|i: int| 0 <= i < all.len() implies (#[trigger] all[i]) < n by {
        if i < rest.len() {
            assert(all[i] == rest[i]);
        }
    }
    if at < n - 1 {
        if rest.contains(at as usize) {
            let i = choose|i: int| 0 <= i < rest.len() && rest[i] == at as usize;
            assert(all[i] == at as usize);
        }
        if all.contains(at as usize) {
            let i = choose|i: int| 0 <= i < all.len() && all[i] == at as usize;
            assert(rest[i] == at as usize);
        }
    } else {
        if !scans[at].done {
            assert(all[rest.len() as int] == at as usize);
        }
        if all.contains(at as usize) {
            let i = choose|i: int| 0 <= i < all.len() && all[i] == at as usize;
            if i < rest.len() {
                assert(rest[i] < n - 1);
            }
        }
    }
}

/// A page of 64 Child Entries grows by four bytes per component and entry.
pub proof fn child_pages_grow_with_the_dimension(dimension: int)
    ensures
        child_page_bytes(dimension + 1) - child_page_bytes(dimension) == 256,
        child_page_bytes(0) == 64 * 8_252,
{
}

/// A pull step visits its donors in turn: each round goes on behind the donors
/// of the last one, and each visit names a donor.
pub proof fn rounds_continue_behind_the_last(candidates: Seq<LevelCandidate>, round: int)
    requires
        round >= 1,
        candidates.len() <= usize::MAX,
        planned(candidates, round).donors.len() > 0,
    ensures
        ({
            let now = planned(candidates, round);
            let next = planned(candidates, round + 1);
            &&& next.donors == now.donors
            &&& now.donors.len() <= usize::MAX ==> next.rotation.first == (now.rotation.first
                + now.rotation.inspected) % (now.donors.len() as int)
            &&& now.visited == 0
            &&& planned(candidates, 1).rotation.first == 0
        }),
{
    crate::maintenance::corrective::donor_positions_are_donors(candidates, candidates.len());
    let donors = planned(candidates, round).donors.len() as int;
    let inspected = crate::maintenance::corrective::inspected_of(donors);
    assert(0 < inspected <= donors && inspected <= 4);
    let before = (round - 1) * inspected;
    assert(round * inspected == before + inspected) by (nonlinear_arith)
        requires
            before == (round - 1) * inspected,
    ;
    assert(before >= 0) by (nonlinear_arith)
        requires
            before == (round - 1) * inspected,
            round >= 1,
            inspected > 0,
    ;
    vstd::arithmetic::div_mod::lemma_add_mod_noop_right(inspected, before, donors);
    vstd::arithmetic::div_mod::lemma_mod_bound(before, donors);
    vstd::arithmetic::div_mod::lemma_mod_bound(before + inspected, donors);
    assert(0 * inspected == 0);
    vstd::arithmetic::div_mod::lemma_small_mod(0, donors as nat);
}

/// A donor gives at most what the targets can still take and, above the leaves,
/// keeps a child.
pub proof fn selections_fit_donor_and_targets(
    step: PullStepView,
    donor: PartitionHeader,
    capacity: TargetCapacity,
    budget: usize,
)
    requires
        donor.entry_count > 0,
    ensures
        step.most_selected(donor, capacity, budget) <= capacity.left_remaining
            + capacity.right_remaining,
        step.most_selected(donor, capacity, budget) <= budget || budget == 0,
        donor.level != 1 ==> step.most_selected(donor, capacity, budget) < donor.entry_count,
        step.most_selected(donor, capacity, budget) <= donor.entry_count,
{
}

/// A step goes to its next donor while visits are left, and ends without a move
/// after the last.
pub proof fn steps_visit_donor_after_donor(
    step: PullStepView,
    candidates: Seq<LevelCandidate>,
    capacity: TargetCapacity,
    scan: ScanView,
)
    ensures
        scan.visited >= scan.rotation.inspected ==> step.next_donor(
            candidates,
            capacity,
            scan,
        ).phase == (PullView::Done { moved: 0 }),
        scan.visited < scan.rotation.inspected ==> (step.next_donor(candidates, capacity, scan).phase
            matches PullView::DonorBudget { scan: left, visit, capacity: room, .. }
            && left.visited == scan.visited + 1 && left.donors == scan.donors && left.rotation
            == scan.rotation && room == capacity && visit.round == scan.rotation.round
            && visit.candidate == scan.donors[scan.rotation.donor_at(scan.visited)]),
{
}

/// A merge attempt fails on a source that is torn or stopped merging, and on
/// more relocated entries than there were; a source that is gone does not fail.
pub proof fn merges_fail_on_contradictions(
    terms: MergeTerms,
    header: PartitionHeader,
    transition: PartitionTransition,
    targets: Vec<PartitionKey>,
    moved: usize,
    kind: ErrorKind,
)
    ensures
        !MergeAttempt::LockSource.fails_with(
            terms,
            MergeLocked::Source { header: None, transition: None },
            kind,
        ),
        MergeAttempt::LockSource.fails_with(
            terms,
            MergeLocked::Source { header: Some(header), transition: None },
            ErrorKind::Corruption,
        ),
        MergeAttempt::LockSource.fails_with(
            terms,
            MergeLocked::Source { header: None, transition: Some(transition) },
            ErrorKind::Corruption,
        ),
        MergeAttempt::LockSource.fails_with(
            terms,
            MergeLocked::Source { header: Some(header), transition: Some(transition) },
            ErrorKind::Corruption,
        ) <==> header.state != PartitionState::Merging || !(transition is Merging),
        (MergeAttempt::Relocate { header, targets }).fails_with(
            terms,
            MergeLocked::Relocated(moved),
            ErrorKind::Corruption,
        ) <==> moved > header.entry_count,
        kind != ErrorKind::Corruption ==> !(MergeAttempt::Relocate { header, targets }).fails_with(
            terms,
            MergeLocked::Relocated(moved),
            kind,
        ),
{
}

proof fn moves_stay_below_the_limit(
    entries: Seq<Option<PullDistances>>,
    capacity: TargetCapacity,
    limit: usize,
    n: int,
)
    requires
        0 <= n <= entries.len(),
        forall|i: int|
            0 <= i < n ==> (#[trigger] attempt_moves(entries, capacity, i as nat)).len() != limit,
    ensures
        attempt_moves(entries, capacity, n as nat).len() <= limit,
    decreases n,
{
    if n > 0 {
        moves_stay_below_the_limit(entries, capacity, limit, n - 1);
        assert(attempt_moves(entries, capacity, (n - 1) as nat).len() != limit);
    }
}

/// A relocation considers every entry it found, unless it reaches its limit; it
/// never moves more.
pub proof fn relocations_stop_at_their_limit(
    entries: Seq<Option<PullDistances>>,
    capacity: TargetCapacity,
    limit: Option<usize>,
    n: int,
)
    requires
        attempt_stops(entries, capacity, limit, n),
    ensures
        limit is None ==> n == entries.len(),
        limit matches Some(most) ==> attempt_moves(entries, capacity, n as nat).len() <= most,
        limit matches Some(most) ==> (n < entries.len() ==> attempt_moves(
            entries,
            capacity,
            n as nat,
        ).len() == most),
{
    if limit is Some {
        moves_stay_below_the_limit(entries, capacity, limit->0, n);
    }
}

/// The first entry without a target decides how a merge batch fails.
pub proof fn the_first_failure_decides(
    source: PartitionKey,
    candidates: Seq<LevelCandidate>,
    entries: Seq<Option<Vec<Option<crate::api::number::Distance>>>>,
    at: int,
    i: int,
)
    requires
        first_failure(source, candidates, entries, at),
    ensures
        0 <= at < entries.len(),
        entry_failure(source, candidates, entries[at]) is Some,
        0 <= i < at ==> entry_failure(source, candidates, entries[i]) is None,
        0 <= i < at ==> !first_failure(source, candidates, entries, i),
{
}

/// The moves of a pull are found entries that go to a strictly nearer target,
/// never more than its limit.
pub proof fn pull_moves_are_choices(
    entries: Seq<Option<PullDistances>>,
    capacity: TargetCapacity,
    limit: Option<usize>,
    moves: Seq<PullMove>,
    k: int,
)
    requires
        entries.len() <= usize::MAX,
        capacity.left != capacity.right,
        are_pull_moves(entries, capacity, limit, moves),
    ensures
        limit matches Some(most) ==> moves.len() <= most,
        0 <= k < moves.len() ==> {
            let moved = moves[k];
            &&& moved.entry < entries.len()
            &&& entries[moved.entry as int] is Some
            &&& moved.target == capacity.left || moved.target == capacity.right
            &&& moved.target == capacity.left ==> (entries[moved.entry as int]->0).left->0.rank < (
            entries[moved.entry as int]->0).source->0.rank
            &&& moved.target == capacity.right ==> (entries[moved.entry as int]->0).right->0.rank
                < (entries[moved.entry as int]->0).source->0.rank
        },
{
    let n = choose|n: int|
        {
            &&& #[trigger] attempt_stops(entries, capacity, limit, n)
            &&& forall|i: int| 0 <= i < n ==> #[trigger] attemptable(entries, capacity, i)
            &&& moves == attempt_moves(entries, capacity, n as nat)
        };
    relocations_stop_at_their_limit(entries, capacity, limit, n);
    if 0 <= k < moves.len() {
        relocated_entries_go_to_their_choice(entries, capacity, n as nat, k);
        let moved = moves[k];
        rooms_keep_their_targets(entries, capacity, moved.entry as nat);
        pulls_go_to_a_strictly_nearer_target_with_room(
            entries[moved.entry as int]->0,
            attempt_room(entries, capacity, moved.entry as nat),
        );
    }
}

proof fn rooms_keep_their_targets(
    entries: Seq<Option<PullDistances>>,
    capacity: TargetCapacity,
    n: nat,
)
    ensures
        attempt_room(entries, capacity, n).left == capacity.left,
        attempt_room(entries, capacity, n).right == capacity.right,
    decreases n,
{
    if n > 0 {
        rooms_keep_their_targets(entries, capacity, (n - 1) as nat);
    }
}

/// A split attempt goes on only from a source that still drains into its own
/// targets; other targets, and a missing one, contradict it.
pub proof fn split_attempts_follow_their_source(
    terms: SplitTerms,
    found: Authority,
    source: PartitionHeader,
    left: Option<PartitionHeader>,
    right: Option<PartitionHeader>,
    after: SplitAttempt,
)
    ensures
        SplitAttempt::LockSource.leads_to(terms, SplitLocked::Source(None), after) ==> after == (
        SplitAttempt::Done { step: split::DrainStep::SourceAdvanced }),
        SplitAttempt::LockSource.leads_to(terms, SplitLocked::Source(Some(found)), after) ==> {
            &&& found.transition is DrainingSplit ==> after == (SplitAttempt::LockTargets {
                source: found.header,
            })
            &&& !(found.transition is DrainingSplit) ==> after == (SplitAttempt::Done {
                step: split::DrainStep::SourceAdvanced,
            })
        },
        !SplitAttempt::LockSource.contradicts(terms, SplitLocked::Source(None)),
        SplitAttempt::LockSource.contradicts(terms, SplitLocked::Source(Some(found))) <==> (
        found.transition matches PartitionTransition::DrainingSplit { left: l, right: r, .. } && (l
            != terms.left || r != terms.right)),
        (SplitAttempt::LockTargets { source }).contradicts(
            terms,
            SplitLocked::Targets { left, right },
        ) <==> left is None || right is None,
{
}

/// A split attempt relocates every entry it locked: each to a target, or to a
/// sibling that had room left for it and is strictly nearer.
pub proof fn split_attempts_route_every_entry(
    terms: SplitTerms,
    before: SplitAttempt,
    entries: Vec<DrainDistances>,
    after: SplitAttempt,
    i: int,
)
    requires
        before is LockEntries,
        terms.left != terms.right,
        before.leads_to(terms, SplitLocked::Entries(entries), after),
    ensures
        after is Relocate,
        after->Relocate_source == before->LockEntries_source,
        after->Relocate_targets@.len() == entries@.len(),
        0 <= i < entries@.len() ==> {
            let state = DrainState {
                balance: before->LockEntries_balance,
                ready: before->LockEntries_ready@,
            };
            let target = after->Relocate_targets@[i];
            let left_over = drain_run(
                state,
                terms.left,
                terms.right,
                entries@,
                terms.candidates@,
                i as nat,
            );
            target != terms.left && target != terms.right ==> left_over.ready.contains_key(target@)
                && left_over.ready[target@] > 0 && exists|k: int|
                0 <= k < terms.candidates@.len() && #[trigger] terms.candidates@[k] == target
                    && entries@[i].ready@[k]->0.rank < entries@[i].left->0.rank
                    && entries@[i].ready@[k]->0.rank < entries@[i].right->0.rank
        },
{
    if 0 <= i < entries@.len() {
        let state = DrainState {
            balance: before->LockEntries_balance,
            ready: before->LockEntries_ready@,
        };
        let target = after->Relocate_targets@[i];
        batches_are_routed_entry_by_entry(
            state,
            terms.left,
            terms.right,
            entries@,
            terms.candidates@,
            target,
            i,
        );
        if target != terms.left && target != terms.right {
            let left_over = drain_run(
                state,
                terms.left,
                terms.right,
                entries@,
                terms.candidates@,
                i as nat,
            );
            let k = choose|k: int| #[trigger]
                crate::maintenance::balance::outranks_targets(
                    entries@[i],
                    terms.candidates@,
                    left_over.ready,
                    k,
                ) && terms.candidates@[k] == target;
            assert(terms.candidates@[k] == target);
        }
    }
}

/// A merge attempt ends with a source that is gone, relocates with all of its
/// targets still good, and plans again with one that is not.
pub proof fn merge_attempts_follow_their_source(
    terms: MergeTerms,
    header: PartitionHeader,
    transition: Option<PartitionTransition>,
    targets: Vec<PartitionKey>,
    distinct: Vec<PartitionKey>,
    headers: Vec<Option<PartitionHeader>>,
    after: MergeAttempt,
)
    ensures
        MergeAttempt::LockSource.leads_to(
            terms,
            MergeLocked::Source { header: None, transition },
            after,
        ) ==> after == (MergeAttempt::Done { step: merge::DrainStep::SourceAdvanced }),
        MergeAttempt::LockSource.leads_to(
            terms,
            MergeLocked::Source { header: Some(header), transition },
            after,
        ) ==> after == (MergeAttempt::LockEntries { header }),
        headers@.len() == 1 && (MergeAttempt::LockTargets { header, targets, distinct }).leads_to(
            terms,
            MergeLocked::Targets(headers),
            after,
        ) ==> {
            &&& headers@[0] is Some && (headers@[0]->0).level == header.level && (
            headers@[0]->0).state == PartitionState::Ready ==> after == (MergeAttempt::Relocate {
                header,
                targets,
            })
            &&& headers@[0] is None ==> after is Reselect
            &&& headers@[0] is Some && (headers@[0]->0).state != PartitionState::Ready
                ==> after is Reselect
        },
{
    reveal_with_fuel(merge::targets_verdict, 3);
}

/// A merge attempt finds a target for every entry it locked, and protects each
/// of the targets once, in key order.
pub proof fn merge_attempts_protect_every_target(
    terms: MergeTerms,
    header: PartitionHeader,
    entries: Vec<Option<Vec<Option<crate::api::number::Distance>>>>,
    after: MergeAttempt,
    i: int,
    j: int,
)
    requires
        (MergeAttempt::LockEntries { header }).leads_to(
            terms,
            MergeLocked::Entries(entries),
            after,
        ),
    ensures
        after is LockTargets,
        after->LockTargets_header == header,
        after->LockTargets_targets@.len() == entries@.len(),
        0 <= i < entries@.len() ==> after->distinct@.contains(after->LockTargets_targets@[i]),
        0 <= i < after->distinct@.len() ==> after->LockTargets_targets@.contains(
            after->distinct@[i],
        ),
        0 <= i < j < after->distinct@.len() ==> after->distinct@[i]@ < after->distinct@[j]@,
{
    if 0 <= i < entries@.len() {
        assert(after->LockTargets_targets@.contains(after->LockTargets_targets@[i]));
    }
    if 0 <= i < after->distinct@.len() {
        assert(after->distinct@.contains(after->distinct@[i]));
    }
}

/// A pull step ends without partitions to pull from, attempts what it selected at
/// the donor it screened, and reports what the attempt moved.
pub proof fn pull_steps_attempt_what_they_select(
    step: PullStepView,
    candidates: Vec<LevelCandidate>,
    entries: Vec<Option<PullDistances>>,
    moved: usize,
    after: PullStepView,
)
    ensures
        step.phase is Discover && step.leads_to(PullEvent::Discovered(candidates), after) ==> {
            &&& candidates@.len() == 0 ==> after.phase == (PullView::Done { moved: 0 })
            &&& candidates@.len() > 0 ==> after.phase is ReadTargets
        },
        step.phase is Attempt && step.leads_to(PullEvent::Attempted(moved), after) ==> after.phase
            == (PullView::Done { moved }),
        step.phase is ReadDonor ==> step.contradicts(PullEvent::PageRead(0)),
        step.phase is Screen && step.leads_to(PullEvent::Screened(entries), after) ==> {
            &&& after.phase is Attempt ==> after.phase->Attempt_candidate
                == (step.phase->Screen_visit).candidate && after.phase->selected.len() > 0
            &&& after.phase is Attempt || after.phase is DonorBudget || after.phase
                == (PullView::Done { moved: 0 })
        },
        step.leads_to(PullEvent::Attempted(moved), after) ==> after.source == step.source
            && after.left == step.left && after.right == step.right && after.maximum
            == step.maximum,
{
}

} // verus!
