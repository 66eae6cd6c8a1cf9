//! What maintenance promises, stated on states, counts and positions.

use vstd::prelude::*;

use crate::api::identifiers::PartitionKey;
use crate::api::number::Distance;
use crate::api::operation::{MutationOutcome, MutationView};
use crate::maintenance::drain::{contention_cap, items_fit, relocation_limit, DrainItem};
use crate::maintenance::fixup::{due, selected_action, Action};
use crate::maintenance::merge;
use crate::maintenance::mutation::{expected_of, header_recorded, item_outcome, item_plan, opt_location, placed, upserts_of, ItemPlan, ItemReport, LocationView, RecordLocation, RouteGroupView};
use crate::maintenance::ranking::halved;
use crate::maintenance::routing::{all_guards, first_appearances, guard_failure, header_holds, hop, level_fits, nearer_target, reference_holds, root_state_fits, route_guards, same_guard, source_hop, DrainTarget, GuardKey, GuardValue, HopPlan, Incoming, Route};
use crate::maintenance::split;
use crate::api::error::ErrorKind;
use crate::topology::{Authority, LevelCandidate, PartitionHeader, PartitionState, PartitionTransition};

verus! {

/// The state decides what a partition needs: a `Ready` one splits above the
/// maximum, merges below the minimum unless it is the root, and rests in
/// between; a split or merge in flight is carried on; a filling target waits.
pub proof fn maintenance_follows_the_state(
    minimum: u32,
    maximum: u32,
    partition: PartitionKey,
    header: PartitionHeader,
)
    ensures
        ({
            let action = selected_action(minimum, maximum, partition, header);
            &&& header.state == PartitionState::Ready && header.entry_count > maximum ==> action
                == Some(Action::Split)
            &&& header.state == PartitionState::Ready && minimum <= header.entry_count <= maximum
                ==> action is None
            &&& header.state == PartitionState::Ready && header.entry_count < minimum
                && header.entry_count <= maximum && partition@ != 1 ==> action == Some(
                Action::Merge,
            )
            &&& header.state == PartitionState::Ready && header.entry_count <= maximum
                && partition@ == 1 ==> action is None
            &&& header.state == PartitionState::Splitting ==> action == Some(Action::Split)
            &&& header.state == PartitionState::DrainingSplit ==> action == Some(Action::Split)
            &&& header.state == PartitionState::Merging ==> action == Some(Action::Merge)
            &&& header.state == PartitionState::ReceivingSplit ==> action is None
        }),
{
}

/// Recovery is due for a `Ready` partition, without a clock or a start, and
/// otherwise once the timeout has passed since the state started; waiting
/// longer never makes it less due.
pub proof fn recovery_is_due_after_the_timeout(
    transition: PartitionTransition,
    now: u64,
    later: u64,
    timeout: nat,
)
    ensures
        transition is Ready ==> due(transition, now, timeout),
        now == 0 ==> due(transition, now, timeout),
        transition.spec_started() == 0 ==> due(transition, now, timeout),
        !(transition is Ready) && 0 < now < transition.spec_started() ==> !due(
            transition,
            now,
            timeout,
        ),
        !(transition is Ready) && 0 < transition.spec_started() <= now ==> (due(
            transition,
            now,
            timeout,
        ) <==> (now - transition.spec_started()) * 1_000_000 >= timeout),
        0 < now <= later && due(transition, now, timeout) ==> due(transition, later, timeout),
{
    if 0 < transition.spec_started() <= now <= later {
        assert((now - transition.spec_started()) * 1_000_000 <= (later - transition.spec_started())
            * 1_000_000);
    }
}

/// When a state started, and what it refers to, is what was stored with it.
pub proof fn transitions_show_what_they_store(transition: PartitionTransition)
    ensures
        match transition {
            PartitionTransition::Ready { started_at_unix_millis } => transition.spec_started()
                == started_at_unix_millis && transition.spec_state() == PartitionState::Ready
                && transition.targets() is None,
            PartitionTransition::Splitting { left, right, started_at_unix_millis } =>
                transition.spec_started() == started_at_unix_millis && transition.spec_state()
                    == PartitionState::Splitting && transition.targets() == Some((left, right)),
            PartitionTransition::ReceivingSplit { started_at_unix_millis, .. } =>
                transition.spec_started() == started_at_unix_millis && transition.spec_state()
                    == PartitionState::ReceivingSplit && transition.targets() is None,
            PartitionTransition::DrainingSplit { left, right, started_at_unix_millis } =>
                transition.spec_started() == started_at_unix_millis && transition.spec_state()
                    == PartitionState::DrainingSplit && transition.targets() == Some(
                    (left, right),
                ) && transition.drains_into(left, right),
            PartitionTransition::Merging { started_at_unix_millis } => transition.spec_started()
                == started_at_unix_millis && transition.spec_state() == PartitionState::Merging
                && transition.targets() is None,
        },
{
}

/// A drain batch never exceeds the budget or the source; at a leaf it is
/// further held to a quarter of the maximum, rounded up, but at least eight,
/// and above the leaves to 128; and it is as large as these allow.
pub proof fn drain_batches_are_as_large_as_allowed(
    header: PartitionHeader,
    maximum: u32,
    budget: usize,
)
    ensures
        ({
            let limit = relocation_limit(header, maximum, budget);
            let cap = contention_cap(maximum);
            &&& 4 * cap >= maximum
            &&& cap >= 8
            &&& cap > 8 ==> 4 * cap < maximum + 4
            &&& limit <= budget
            &&& limit <= header.entry_count
            &&& header.level == 1 ==> limit <= cap && (limit == budget || limit
                == header.entry_count || limit == cap)
            &&& header.level != 1 ==> limit <= 128 && (limit == budget || limit
                == header.entry_count || limit == 128)
        }),
{
}

/// A drained page holds records at the leaves and children above them.
pub proof fn drained_items_are_of_their_level(items: Seq<DrainItem>, level: u32, at: int)
    requires
        0 <= at < items.len(),
    ensures
        items_fit(items, level) && level == 1 ==> items[at] is Leaf,
        items_fit(items, level) && level != 1 ==> items[at] is Child,
        level == 1 && !(items[at] is Leaf) ==> !items_fit(items, level),
        level != 1 && !(items[at] is Child) ==> !items_fit(items, level),
{
}

/// A merge pass begins only for an undersized `Ready` partition below the root,
/// and drains only a `Merging` one.
pub proof fn merge_passes_start_from_the_state(
    partition: PartitionKey,
    authority: Authority,
    minimum: u32,
)
    ensures
        ({
            let phase = merge::first_phase(partition, Some(authority), minimum);
            let idle = merge::MergePhase::Done { result: merge::Advance::Idle };
            &&& merge::first_phase(partition, None, minimum) == idle
            &&& authority.transition is Ready && partition@ != 1 && authority.header.entry_count
                < minimum ==> phase == merge::MergePhase::Begin
            &&& authority.transition is Ready && (partition@ == 1 || authority.header.entry_count
                >= minimum) ==> phase == idle
            &&& authority.transition is Merging ==> phase == merge::MergePhase::Drain
            &&& !(authority.transition is Ready) && !(authority.transition is Merging) ==> phase
                == idle
        }),
{
}

/// What a merge pass reports is what happened: a begun merge began, a drained
/// batch reports its counts, an emptied source is completed next, and a source
/// without a target stalls.
pub proof fn merge_passes_report_what_happened(moved: usize, remaining: u32)
    ensures
        ({
            let drained = merge::MergePhase::Drain.next(
                merge::MergeEvent::Drained(merge::DrainStep::Drained { moved, remaining }),
            );
            &&& remaining > 0 ==> drained == (merge::MergePhase::Done {
                result: merge::Advance::Drained { moved, remaining },
            })
            &&& remaining == 0 ==> drained == (merge::MergePhase::Complete { moved })
        }),
        merge::MergePhase::Drain.next(
            merge::MergeEvent::Drained(merge::DrainStep::NoReadyTarget),
        ) == (merge::MergePhase::Done { result: merge::Advance::Stalled }),
        merge::MergePhase::Drain.next(
            merge::MergeEvent::Drained(merge::DrainStep::SourceAdvanced),
        ) == (merge::MergePhase::Done { result: merge::Advance::Completed }),
        merge::MergePhase::Drain.next(merge::MergeEvent::Drained(merge::DrainStep::NotMerging))
            == (merge::MergePhase::Done { result: merge::Advance::Idle }),
        merge::MergePhase::Begin.next(merge::MergeEvent::Begun(merge::MergeStart::Started)) == (
        merge::MergePhase::Done { result: merge::Advance::Began }),
        (merge::MergePhase::Complete { moved }).next(
            merge::MergeEvent::Finalized(merge::MergeCompletion::NotDrained),
        ) == (merge::MergePhase::Done { result: merge::Advance::Drained { moved, remaining: 0 } }),
{
}

/// A merged entry goes to the `Ready` partition of its level, other than its
/// source, whose rank is least, ties to the smaller key.
pub proof fn merged_entries_go_to_the_least_rank(
    source: PartitionKey,
    candidates: Seq<LevelCandidate>,
    entry: Option<Vec<Option<Distance>>>,
    target: PartitionKey,
    at: int,
)
    requires
        merge::routes_to(source, candidates, entry, target),
    ensures
        target != source,
        exists|best: int|
            {
                &&& 0 <= best < candidates.len()
                &&& (#[trigger] candidates[best]).partition == target
                &&& candidates[best].header.state == PartitionState::Ready
                &&& 0 <= at < candidates.len() && candidates[at].header.state
                    == PartitionState::Ready && candidates[at].partition != source
                    ==> entry->0@[best]->0.rank < entry->0@[at]->0.rank || entry->0@[best]->0.rank
                    == entry->0@[at]->0.rank && target@ <= candidates[at].partition@
            },
{
    let best = choose|best: int|
        {
            &&& #[trigger] crate::maintenance::ranking::nearest_legal(
                source,
                candidates,
                entry->0@,
                best,
                candidates.len() as int,
            )
            &&& target == candidates[best].partition
        };
    crate::maintenance::ranking::reselection_finds_the_least_rank(
        source,
        candidates,
        entry->0@,
        best,
    );
    assert(candidates[best].partition == target);
}

/// An entry of a merging partition fails as Corruption when it, or its distance
/// to some `Ready` target, is unknown; without any `Ready` target it is a
/// backend fault; and otherwise it does not fail.
pub proof fn merged_entries_fail_for_their_own_reasons(
    source: PartitionKey,
    candidates: Seq<LevelCandidate>,
    entry: Option<Vec<Option<Distance>>>,
    at: int,
)
    ensures
        entry is None ==> merge::entry_failure(source, candidates, entry) == Some(
            ErrorKind::Corruption,
        ),
        entry is Some && 0 <= at < candidates.len() && candidates[at].header.state
            == PartitionState::Ready && candidates[at].partition != source ==> {
            &&& entry->0@[at] is None ==> merge::entry_failure(source, candidates, entry) == Some(
                ErrorKind::Corruption,
            )
            &&& merge::entry_failure(source, candidates, entry) != Some(ErrorKind::Backend)
        },
        entry is Some && (forall|i: int|
            0 <= i < candidates.len() ==> (#[trigger] candidates[i]).header.state
                != PartitionState::Ready || candidates[i].partition == source)
            ==> merge::entry_failure(source, candidates, entry) == Some(ErrorKind::Backend),
        entry is Some && 0 <= at < candidates.len() && candidates[at].header.state
            == PartitionState::Ready && candidates[at].partition != source && (forall|i: int|
            0 <= i < candidates.len() ==> (#[trigger] entry->0@[i]) is Some)
            ==> merge::entry_failure(source, candidates, entry) is None,
{
    if 0 <= at < candidates.len() && candidates[at].header.state == PartitionState::Ready
        && candidates[at].partition != source {
        assert(candidates[at].legal_for(source));
    }
    if entry is Some && (forall|i: int|
        0 <= i < candidates.len() ==> (#[trigger] candidates[i]).header.state
            != PartitionState::Ready || candidates[i].partition == source) {
        assert forall|i: int| 0 <= i < candidates.len() implies !(
        #[trigger] candidates[i]).legal_for(source) by {}
    }
}

/// A split pass begins only for an oversized `Ready` partition, exposes the
/// targets of a splitting one, and corrects a draining one.
pub proof fn split_passes_start_from_the_state(authority: Authority, maximum: u32)
    ensures
        ({
            let phase = split::first_phase(Some(authority), maximum);
            let idle = split::SplitPhase::Done { result: split::Advance::Idle };
            &&& split::first_phase(None, maximum) == idle
            &&& authority.transition is Ready && authority.header.entry_count > maximum ==> phase
                == split::SplitPhase::Begin
            &&& authority.transition is Ready && authority.header.entry_count <= maximum ==> phase
                == idle
            &&& authority.transition is Splitting ==> phase == split::SplitPhase::Expose
            &&& authority.transition matches PartitionTransition::DrainingSplit {
                left,
                right,
                ..
            } ==> phase == (split::SplitPhase::Correct { left, right })
            &&& authority.transition is ReceivingSplit || authority.transition is Merging
                ==> phase == idle
        }),
{
}

/// What a split pass reports is what happened, with its own targets and
/// counts: pulls before drains, and completion only of an emptied source.
pub proof fn split_passes_report_what_happened(
    left: PartitionKey,
    right: PartitionKey,
    moved: usize,
    remaining: u32,
)
    ensures
        ({
            let drained = (split::SplitPhase::Drain { left, right }).next(
                split::SplitEvent::Drained(split::DrainStep::Drained { moved, remaining }),
            );
            &&& remaining > 0 ==> drained == (split::SplitPhase::Done {
                result: split::Advance::Drained { moved, remaining },
            })
            &&& remaining == 0 ==> drained == (split::SplitPhase::Complete { left, right, moved })
        }),
        ({
            let pulled = (split::SplitPhase::Correct { left, right }).next(
                split::SplitEvent::Pulled(moved),
            );
            &&& moved == 0 ==> pulled == (split::SplitPhase::Drain { left, right })
            &&& moved > 0 ==> pulled == (split::SplitPhase::Done {
                result: split::Advance::Corrected { moved },
            })
        }),
        split::SplitPhase::Expose.next(
            split::SplitEvent::Exposed(split::TargetExposure::Exposed { left, right }),
        ) == (split::SplitPhase::AdvanceToDraining { left, right }),
        split::SplitPhase::Begin.next(
            split::SplitEvent::Begun(split::SplitStart::Started { left, right }),
        ) == (split::SplitPhase::Done { result: split::Advance::Began { left, right } }),
        (split::SplitPhase::AdvanceToDraining { left, right }).next(
            split::SplitEvent::Draining(split::DrainStart::NotSplitting),
        ) == (split::SplitPhase::Done { result: split::Advance::Idle }),
        (split::SplitPhase::Complete { left, right, moved }).next(
            split::SplitEvent::Finalized(split::SplitCompletion::NotDrained),
        ) == (split::SplitPhase::Done { result: split::Advance::Drained { moved, remaining: 0 } }),
{
}

/// A source is drained into its own targets only while its state says so, and
/// trained for targets only while it splits.
pub proof fn splits_read_their_own_targets(authority: Authority)
    ensures
        authority.transition matches PartitionTransition::DrainingSplit { left, right, .. }
            ==> split::drain_gate(Some(authority)) == (split::DrainGate::Draining {
            header: authority.header,
            left,
            right,
        }) && split::first_exposure(Some(authority.transition)) == (split::ExposeStep::Done {
            outcome: split::TargetExposure::Exposed { left, right },
        }),
        authority.transition matches PartitionTransition::Splitting { left, right, .. }
            ==> split::drain_gate(Some(authority)) == (split::DrainGate::Over {
            step: split::DrainStep::NotDraining,
        }) && split::first_exposure(Some(authority.transition)) == (split::ExposeStep::Train {
            left,
            right,
        }),
        !(authority.transition is DrainingSplit) && !(authority.transition is Splitting)
            ==> split::drain_gate(Some(authority)) == (split::DrainGate::Over {
            step: split::DrainStep::SourceAdvanced,
        }) && split::first_exposure(Some(authority.transition)) == (split::ExposeStep::Done {
            outcome: split::TargetExposure::SourceAdvanced,
        }),
        split::drain_gate(None) == (split::DrainGate::Over {
            step: split::DrainStep::SourceAdvanced,
        }),
{
}

/// A mutation is applied as what it is: an insert inserts, an upsert replaces
/// exactly a stored record, a delete deletes, and what is not routed is not
/// inserted.
pub proof fn mutations_are_applied_as_what_they_are(
    mutation: MutationView,
    routed: bool,
    stored: bool,
)
    ensures
        ({
            let plan = item_plan(mutation, routed, stored);
            &&& mutation is Insert && routed ==> plan == Some(ItemPlan::Insert { upsert: false })
            &&& mutation is Upsert && routed && stored ==> plan == Some(ItemPlan::Replace)
            &&& mutation is Upsert && routed && !stored ==> plan == Some(
                ItemPlan::Insert { upsert: true },
            )
            &&& mutation is Delete ==> plan == Some(ItemPlan::Delete)
            &&& !(mutation is Delete) && !routed ==> plan is None
        }),
{
}

/// An applied mutation reports its own outcome: an upsert says whether it
/// replaced a record, a delete whether one existed.
pub proof fn outcomes_report_what_was_applied(report: ItemReport)
    ensures
        item_outcome(ItemPlan::Insert { upsert: false }, report) == MutationOutcome::Inserted,
        item_outcome(ItemPlan::Insert { upsert: true }, report) == (MutationOutcome::Upserted {
            replaced: false,
        }),
        item_outcome(ItemPlan::Replace, report) == (MutationOutcome::Upserted { replaced: true }),
        report.source is Some ==> item_outcome(ItemPlan::Delete, report) == (
        MutationOutcome::Deleted { existed: true }),
        report.source is None ==> item_outcome(ItemPlan::Delete, report) == (
        MutationOutcome::Deleted { existed: false }),
{
}

/// The listed upserts are the positions of the batch's upserts, each once and
/// in order.
pub proof fn upserts_are_listed_in_order(mutations: Seq<MutationView>, n: nat)
    requires
        n <= mutations.len() <= usize::MAX,
    ensures
        forall|p: usize| #[trigger]
            upserts_of(mutations, n).contains(p) <==> p < n && mutations[p as int] is Upsert,
        forall|i: int, j: int|
            0 <= i < j < upserts_of(mutations, n).len() ==> (#[trigger] upserts_of(
                mutations,
                n,
            )[i]) < (#[trigger] upserts_of(mutations, n)[j]),
    decreases n,
{
    if n > 0 {
        upserts_are_listed_in_order(mutations, (n - 1) as nat);
        let rest = upserts_of(mutations, (n - 1) as nat);
        let all = upserts_of(mutations, n);
        let last = (n - 1) as usize;
        if mutations[n - 1] is Upsert {
            assert forall|p: usize| #[trigger] all.contains(p) <==> rest.contains(p) || p
                == last by {
                if rest.contains(p) {
                    let i = choose|i: int| 0 <= i < rest.len() && rest[i] == p;
                    assert(all[i] == p);
                }
                if p == last {
                    assert(all[rest.len() as int] == p);
                }
                if all.contains(p) {
                    let i = choose|i: int| 0 <= i < all.len() && all[i] == p;
                    if i < rest.len() {
                        assert(rest[i] == p);
                    }
                }
            }
            assert forall|i: int, j: int| 0 <= i < j < all.len() implies (#[trigger] all[i]) < (
            #[trigger] all[j]) by {
                assert(all[i] == rest[i]);
                assert(rest.contains(rest[i]));
                if j < rest.len() {
                    assert(all[j] == rest[j]);
                }
            }
        }
        assert forall|p: usize| #[trigger] all.contains(p) <==> p < n && mutations[p as int]
            is Upsert by {
            assert(rest.contains(p) <==> p < n - 1 && mutations[p as int] is Upsert);
        }
    }
}

/// Every stored location is found again at the position of its upsert, and
/// every other position has none.
pub proof fn stored_locations_return_to_their_upserts(
    batch: nat,
    positions: Seq<usize>,
    locations: Seq<Option<RecordLocation>>,
    n: nat,
    at: int,
)
    requires
        n <= positions.len(),
        positions.len() == locations.len(),
        forall|i: int| 0 <= i < positions.len() ==> (#[trigger] positions[i]) < batch,
        forall|i: int, j: int|
            0 <= i < j < positions.len() ==> (#[trigger] positions[i]) != (
            #[trigger] positions[j]),
        0 <= at < batch,
    ensures
        expected_of(batch, positions, locations, n).len() == batch,
        forall|i: int|
            0 <= i < n && (#[trigger] positions[i]) == at ==> expected_of(
                batch,
                positions,
                locations,
                n,
            )[at] == opt_location(locations[i]),
        (forall|i: int| 0 <= i < n ==> (#[trigger] positions[i]) != at) ==> expected_of(
            batch,
            positions,
            locations,
            n,
        )[at] is None,
    decreases n,
{
    if n > 0 {
        stored_locations_return_to_their_upserts(
            batch,
            positions,
            locations,
            (n - 1) as nat,
            at,
        );
        assert forall|i: int| 0 <= i < n && (#[trigger] positions[i]) == at implies expected_of(
            batch,
            positions,
            locations,
            n,
        )[at] == opt_location(locations[i]) by {
            if i < n - 1 {
                assert(positions[i] != positions[n - 1]);
            }
        }
    }
}

/// Every member of a group is placed in the group's tree at the leaf of its own
/// route, and nothing else is placed.
pub proof fn members_are_placed_at_their_own_routes(
    targets: Seq<Option<LocationView>>,
    group: RouteGroupView,
    routes: Seq<Route>,
    n: nat,
    at: int,
)
    requires
        n <= group.members.len(),
        routes.len() == group.members.len(),
        forall|i: int| 0 <= i < group.members.len() ==> (#[trigger] group.members[i])
            < targets.len(),
        forall|i: int, j: int|
            0 <= i < j < group.members.len() ==> (#[trigger] group.members[i]) != (
            #[trigger] group.members[j]),
        0 <= at < targets.len(),
    ensures
        placed(targets, group, routes, n).len() == targets.len(),
        forall|i: int|
            0 <= i < n && (#[trigger] group.members[i]) == at ==> placed(
                targets,
                group,
                routes,
                n,
            )[at] == Some(LocationView { tree_key: group.tree_key, leaf: routes[i].leaf }),
        (forall|i: int| 0 <= i < n ==> (#[trigger] group.members[i]) != at) ==> placed(
            targets,
            group,
            routes,
            n,
        )[at] == targets[at],
    decreases n,
{
    if n > 0 {
        members_are_placed_at_their_own_routes(targets, group, routes, (n - 1) as nat, at);
        assert forall|i: int| 0 <= i < n && (#[trigger] group.members[i]) == at implies placed(
            targets,
            group,
            routes,
            n,
        )[at] == Some(LocationView { tree_key: group.tree_key, leaf: routes[i].leaf }) by {
            if i < n - 1 {
                assert(group.members[i] != group.members[n - 1]);
            }
        }
    }
}

/// A changed Header is kept under its own location and replaces only what was
/// there.
pub proof fn changed_headers_are_kept_by_location(
    headers: Map<LocationView, PartitionHeader>,
    location: RecordLocation,
    header: PartitionHeader,
    other: LocationView,
)
    ensures
        ({
            let after = header_recorded(headers, Some((location, header)));
            &&& after.contains_key(location@) && after[location@] == header
            &&& other != location@ ==> after.contains_key(other) == headers.contains_key(other)
                && after[other] == headers[other]
        }),
        header_recorded(headers, None) == headers,
{
}

/// A hop reads what the visited partition's state calls for, of that partition
/// and no other.
pub proof fn hops_follow_the_state(partition: PartitionKey, authority: Authority)
    requires
        authority.header.level > 0,
        authority.header.state == authority.transition.spec_state(),
    ensures
        ({
            let header = authority.header;
            let leaf = header.level == 1;
            match authority.transition {
                PartitionTransition::Ready { .. } => {
                    &&& leaf ==> hop(partition, authority) == HopPlan::Leaf(header)
                    &&& !leaf ==> (hop(partition, authority) matches HopPlan::Children {
                        body,
                        next_level,
                    } && body.partition == partition && body.header == header && next_level + 1
                        == header.level)
                },
                PartitionTransition::Splitting { .. } => {
                    &&& leaf ==> hop(partition, authority) == HopPlan::Leaf(header)
                    &&& !leaf ==> (hop(partition, authority) matches HopPlan::Children {
                        body,
                        next_level,
                    } && body.partition == partition && body.header == header && next_level + 1
                        == header.level)
                },
                PartitionTransition::ReceivingSplit { source, .. } => {
                    &&& leaf ==> hop(partition, authority) == HopPlan::Leaf(header)
                    &&& !leaf ==> hop(partition, authority) == (HopPlan::ReadSource { source })
                },
                PartitionTransition::DrainingSplit { left, right, .. } => {
                    &&& leaf ==> hop(partition, authority) == (HopPlan::ReadDrainTargets {
                        left,
                        right,
                    })
                    &&& !leaf ==> (hop(partition, authority) matches HopPlan::ReadFamily {
                        body,
                        left: first,
                        right: second,
                        next_level,
                    } && body.partition == partition && body.header == header && first == left
                        && second == right && next_level + 1 == header.level)
                },
                PartitionTransition::Merging { .. } => hop(partition, authority) == (
                HopPlan::ReadCandidates { level: header.level }),
            }
        }),
{
}

/// A split target is resolved through its own source: sideways while the source
/// still splits into it, across the family while the source drains, and not at
/// all otherwise.
pub proof fn targets_are_resolved_through_their_source(
    partition: PartitionKey,
    level: u32,
    source: PartitionKey,
    authority: Authority,
)
    requires
        level > 0,
    ensures
        match authority.transition {
            PartitionTransition::Splitting { left, right, .. } => {
                &&& partition == left || partition == right ==> source_hop(
                    partition,
                    level,
                    source,
                    authority,
                ) == Some(HopPlan::Sideways { source })
                &&& partition != left && partition != right ==> source_hop(
                    partition,
                    level,
                    source,
                    authority,
                ) is None
            },
            PartitionTransition::DrainingSplit { left, right, .. } => source_hop(
                partition,
                level,
                source,
                authority,
            ) matches Some(HopPlan::ReadFamily { body, left: first, right: second, next_level })
                && body.partition == source && body.header == authority.header && first == left
                && second == right && next_level + 1 == level,
            _ => source_hop(partition, level, source, authority) is None,
        },
{
}

/// A visit is legal at the expected level alone, and a root neither fills nor
/// merges.
pub proof fn visits_are_legal_at_their_level(
    header: PartitionHeader,
    expected: u32,
    root: PartitionKey,
    partition: PartitionKey,
    transition: PartitionTransition,
)
    ensures
        level_fits(header, None),
        level_fits(header, Some(expected)) <==> header.level == expected,
        partition != root ==> root_state_fits(root, partition, transition),
        transition is ReceivingSplit || transition is Merging ==> !root_state_fits(
            root,
            root,
            transition,
        ),
        transition is Ready || transition is Splitting || transition is DrainingSplit
            ==> root_state_fits(root, partition, transition),
{
}

/// A draining leaf redirects to the target of smaller rank.
pub proof fn redirects_go_to_the_smaller_rank(
    left: DrainTarget,
    left_distance: Distance,
    right: DrainTarget,
    right_distance: Distance,
)
    requires
        left.partition != right.partition,
    ensures
        left_distance.rank < right_distance.rank ==> nearer_target(
            left,
            left_distance,
            right,
            right_distance,
        ) == left,
        right_distance.rank < left_distance.rank ==> nearer_target(
            left,
            left_distance,
            right,
            right_distance,
        ) == right,
        left_distance.rank == right_distance.rank && left.partition@ < right.partition@
            ==> nearer_target(left, left_distance, right, right_distance) == left,
{
    crate::maintenance::ranking::smaller_ranks_come_first(
        left.partition,
        left_distance,
        right.partition,
        right_distance,
    );
    crate::maintenance::ranking::smaller_ranks_come_first(
        right.partition,
        right_distance,
        left.partition,
        left_distance,
    );
}

/// A route is protected by its leaf's Header and its incoming reference: the
/// Child Entry at its parent, or the state of the source it redirects around.
pub proof fn routes_are_protected_by_their_references(route: Route)
    ensures
        route_guards(route).len() >= 1,
        route_guards(route)[0] == GuardKey::Header(route.leaf),
        match route.incoming {
            Incoming::SourceSlot(source) => route_guards(route).len() == 2 && route_guards(
                route,
            )[1] == GuardKey::State(source),
            Incoming::ParentEdge => match route.parent {
                Some(parent) => route_guards(route).len() == 2 && route_guards(route)[1] == (
                GuardKey::ChildEntry { parent, child: route.leaf }),
                None => route_guards(route).len() == 1,
            },
        },
{
}

/// Every key of every route is read, in route order.
pub proof fn every_route_is_protected(routes: Seq<Route>, n: nat, at: int, k: int)
    requires
        0 <= at < n <= routes.len(),
        0 <= k < route_guards(routes[at]).len(),
    ensures
        all_guards(routes, n).contains(route_guards(routes[at])[k]),
    decreases n,
{
    let rest = all_guards(routes, (n - 1) as nat);
    let last = route_guards(routes[n - 1]);
    let all = all_guards(routes, n);
    if at == n - 1 {
        assert(all[rest.len() + k] == last[k]);
    } else {
        every_route_is_protected(routes, (n - 1) as nat, at, k);
        let i = choose|i: int| 0 <= i < rest.len() && rest[i] == route_guards(routes[at])[k];
        assert(all[i] == rest[i]);
    }
}

/// A protected Header holds only as that of a leaf that still accepts writes,
/// and a reference only while it still names the leaf.
pub proof fn protected_values_hold_for_the_same_leaf(route: Route, value: GuardValue)
    ensures
        !header_holds(None),
        !reference_holds(route, None),
        header_holds(Some(value)) ==> (value matches GuardValue::Header(header) && header.level
            == 1 && header.state != PartitionState::DrainingSplit && header.state
            != PartitionState::Merging),
        value matches GuardValue::Header(header) ==> (header.level == 1 && (header.state
            == PartitionState::Ready || header.state == PartitionState::Splitting || header.state
            == PartitionState::ReceivingSplit) ==> header_holds(Some(value))),
        route.incoming is ParentEdge ==> (reference_holds(route, Some(value)) <==> value
            == GuardValue::ChildEntry(route.leaf)),
        route.incoming is SourceSlot && reference_holds(route, Some(value)) ==> (value matches
            GuardValue::State(transition) && transition is DrainingSplit),
        route.incoming is SourceSlot ==> (value matches GuardValue::State(
            PartitionTransition::DrainingSplit { left, right, .. },
        ) ==> (reference_holds(route, Some(value)) <==> route.leaf == left || route.leaf
            == right)),
{
}

/// Accepted routes were each read and hold: the first of them with its Header
/// and reference, and the others after it.
pub proof fn accepted_routes_hold(routes: Seq<Route>, values: Seq<Option<GuardValue>>)
    requires
        guard_failure(routes, values) is None,
        routes.len() > 0,
    ensures
        values.len() >= route_guards(routes[0]).len(),
        header_holds(values[0]),
        route_guards(routes[0]).len() == 2 ==> reference_holds(routes[0], values[1])
            && guard_failure(routes.drop_first(), values.skip(2)) is None,
        route_guards(routes[0]).len() == 1 ==> guard_failure(
            routes.drop_first(),
            values.drop_first(),
        ) is None,
{
}

/// A first route that no longer holds fails the write as Corruption, and one
/// that was not read as a backend fault.
pub proof fn broken_routes_are_refused(routes: Seq<Route>, values: Seq<Option<GuardValue>>)
    requires
        routes.len() > 0,
    ensures
        values.len() == 0 ==> guard_failure(routes, values) == Some(ErrorKind::Backend),
        values.len() > 0 && !header_holds(values[0]) ==> guard_failure(routes, values) == Some(
            ErrorKind::Corruption,
        ),
        values.len() > 1 && header_holds(values[0]) && route_guards(routes[0]).len() == 2
            && !reference_holds(routes[0], values[1]) ==> guard_failure(routes, values) == Some(
            ErrorKind::Corruption,
        ),
        guard_failure(Seq::empty(), values) is None,
{
}

/// Distinct routes are routes of the batch, and no two of them share leaf and
/// reference.
pub proof fn distinct_routes_are_distinct(routes: Seq<Route>, n: nat)
    requires
        n <= routes.len(),
    ensures
        forall|i: int|
            0 <= i < first_appearances(routes, n).len() ==> routes.contains(
                #[trigger] first_appearances(routes, n)[i],
            ),
        forall|i: int, j: int|
            0 <= i < j < first_appearances(routes, n).len() ==> {
                let a = #[trigger] first_appearances(routes, n)[i];
                let b = #[trigger] first_appearances(routes, n)[j];
                a.leaf != b.leaf || a.incoming != b.incoming
            },
    decreases n,
{
    if n > 0 {
        distinct_routes_are_distinct(routes, (n - 1) as nat);
        let earlier = first_appearances(routes, (n - 1) as nat);
        let all = first_appearances(routes, n);
        assert(routes.contains(routes[n - 1]));
        assert forall|i: int| 0 <= i < all.len() implies routes.contains(#[trigger] all[i]) by {
            if i < earlier.len() {
                assert(all[i] == earlier[i]);
            }
        }
        assert forall|i: int, j: int| 0 <= i < j < all.len() implies {
            let a = #[trigger] all[i];
            let b = #[trigger] all[j];
            a.leaf != b.leaf || a.incoming != b.incoming
        } by {
            assert(all[i] == earlier[i]);
            if j < earlier.len() {
                assert(all[j] == earlier[j]);
            } else {
                assert(!same_guard(earlier[i], routes[n - 1]));
            }
        }
    }
}

/// Beams narrow by half at each level above the leaves, and never vanish: twice
/// the width above, or one more, is the width below.
pub proof fn beams_halve_with_each_level(width: u32, times: nat)
    ensures
        halved(width, 0) == if width == 0 {
            1u32
        } else {
            width
        },
        halved(width, times) >= 1,
        2 * halved(width, times + 1) <= halved(width, times) || halved(width, times) == 1
            && halved(width, times + 1) == 1,
        halved(width, times) <= 2 * halved(width, times + 1) + 1,
    decreases times,
{
    if times == 0 {
        reveal_with_fuel(halved, 2);
    } else {
        beams_halve_with_each_level((width / 2) as u32, (times - 1) as nat);
    }
}

} // verus!
