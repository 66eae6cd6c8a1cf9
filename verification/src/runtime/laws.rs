//! What the Runtime promises, stated on counts, positions and times.

use vstd::arithmetic::power2::{lemma2_to64, lemma_pow2_adds, pow2};
use vstd::prelude::*;

use crate::api::config::IndexConfigView;
use crate::api::error::ErrorKind;
use crate::api::identifiers::{LogicalIndexId, PartitionKey};
use crate::api::record::PayloadProjection;
use crate::hashing::rotation_seed;
use crate::maintenance::{merge, split};
use crate::observe::labels::{FixupAdmission, FixupExecution};
use crate::runtime::admission::{CommitBoundary, Control, Lifecycle, Phase};
use crate::runtime::drive::{verdict, StepOutcome};
use crate::runtime::dropping::DropOutcome;
use crate::runtime::import::{ImportConcurrency, ImportPermitState};
use crate::runtime::index::{active_manifest, data_positions, dropping, high_water_of, planned_deletion, DropAttempts, DropResume, DropStepView, IndexLifecycle, ManifestView, Stored};
use crate::runtime::queue::{followup_offers, gate_state, offered_all, offers_of, recorded, released, BacklogGate, FixupKey, FixupStats, KeyView, OfferView, QueueView, SplitFollowups};
use crate::runtime::results::projected_payload;
use crate::runtime::retry::{share, RetryPolicy};

verus! {

/// Backoffs start at the initial one, double with each failed attempt up to the
/// thirty-first, and never exceed the longest one.
pub proof fn backoffs_double_up_to_the_longest(policy: RetryPolicy, failed_attempts: u32)
    requires
        failed_attempts < u32::MAX,
    ensures
        policy.interval(0) == if policy.initial_backoff@ <= policy.max_backoff@ {
            policy.initial_backoff@
        } else {
            policy.max_backoff@
        },
        failed_attempts < 31 ==> ({
            let twice = 2 * policy.interval(failed_attempts);
            policy.interval((failed_attempts + 1) as u32) == if twice <= policy.max_backoff@ {
                twice
            } else {
                policy.max_backoff@
            }
        }),
        failed_attempts >= 31 ==> policy.interval((failed_attempts + 1) as u32) == policy.interval(
            failed_attempts,
        ),
        policy.interval(failed_attempts) <= policy.max_backoff@,
{
    lemma2_to64();
    let initial = policy.initial_backoff@;
    assert(initial * 1 == initial);
    if failed_attempts < 31 {
        let n = failed_attempts as nat;
        lemma_pow2_adds(n, 1);
        let power = pow2(n);
        assert(pow2(n + 1) == 2 * power);
        assert(initial * (2 * power) == 2 * (initial * power)) by (nonlinear_arith);
    }
}

/// A jittered wait is the sample's share of the interval, rounded down: nothing
/// for the least sample, the whole for the greatest, and never less for a
/// greater sample.
pub proof fn waits_are_the_samples_share(sample: u64, other: u64, interval: nat)
    ensures
        share(0, interval) == 0,
        interval <= u64::MAX ==> share(u64::MAX, interval) == interval,
        interval > u64::MAX ==> share(u64::MAX, interval) == u64::MAX,
        sample <= other ==> share(sample, interval) <= share(other, interval),
        share(sample, interval) <= u64::MAX,
        share(sample, interval) * u64::MAX <= sample * interval,
        share(sample, interval) < u64::MAX ==> sample * interval < (share(sample, interval) + 1)
            * u64::MAX,
{
    let whole = u64::MAX as int;
    let product = sample * interval;
    let greater = other * interval;
    assert(0 * interval == 0) by (nonlinear_arith);
    assert((whole * interval) / whole == interval) by (nonlinear_arith)
        requires
            whole > 0,
    ;
    assert(sample <= other ==> product <= greater) by (nonlinear_arith)
        requires
            product == sample * interval,
            greater == other * interval,
    ;
    assert(product >= 0 && greater >= 0) by (nonlinear_arith)
        requires
            product == sample * interval,
            greater == other * interval,
    ;
}

/// An execution goes on only after a split or merge that moved forward; a
/// completed split follows up its targets and its parent, and everything else
/// ends as what it was.
pub proof fn executions_end_as_their_last_step(
    left: PartitionKey,
    right: PartitionKey,
    parent: Option<PartitionKey>,
    split: split::Advance,
    merge: merge::Advance,
)
    ensures
        verdict(StepOutcome::Idle) matches Some(ended) && ended.execution == FixupExecution::Settled
            && ended.split_followups is None,
        verdict(StepOutcome::Failed) matches Some(ended) && ended.execution
            == FixupExecution::Retired && ended.split_followups is None,
        verdict(StepOutcome::Split(None)) matches Some(ended) && ended.execution
            == FixupExecution::Retired && ended.split_followups is None,
        verdict(StepOutcome::Merge(None)) matches Some(ended) && ended.execution
            == FixupExecution::Retired && ended.split_followups is None,
        verdict(
            StepOutcome::Split(Some(split::Advance::Completed { left, right, parent })),
        ) matches Some(ended) && ended.execution == FixupExecution::Settled
            && ended.split_followups == Some(SplitFollowups { left, right, parent }),
        split is Idle ==> (verdict(StepOutcome::Split(Some(split))) matches Some(ended)
            && ended.execution == FixupExecution::Settled),
        merge is Idle || merge is Completed ==> (verdict(StepOutcome::Merge(Some(merge)))
            matches Some(ended) && ended.execution == FixupExecution::Settled),
        merge is Stalled ==> (verdict(StepOutcome::Merge(Some(merge))) matches Some(ended)
            && ended.execution == FixupExecution::Stalled),
        !(split is Idle) && !(split is Completed) ==> verdict(StepOutcome::Split(Some(split)))
            is None,
        !(merge is Idle) && !(merge is Completed) && !(merge is Stalled) ==> verdict(
            StepOutcome::Merge(Some(merge)),
        ) is None,
{
}

/// An offered Fixup is queued last exactly when its key is not queued or running
/// and there is room; a refused offer changes nothing but its count.
pub proof fn offers_are_queued_once_and_within_capacity(queue: QueueView, offer: OfferView)
    ensures
        ({
            let after = queue.offered(offer);
            let admission = queue.admission(offer.key);
            &&& queue.admitted.contains(offer.key) ==> admission == FixupAdmission::Duplicate
            &&& !queue.admitted.contains(offer.key) && queue.pending.len() + queue.running
                >= queue.capacity ==> admission == FixupAdmission::Saturated
            &&& !queue.admitted.contains(offer.key) && queue.pending.len() + queue.running
                < queue.capacity ==> admission == FixupAdmission::Enqueued
            &&& admission == FixupAdmission::Enqueued ==> {
                &&& after.pending == queue.pending.push(offer)
                &&& after.admitted == queue.admitted.insert(offer.key)
                &&& queue.stats.enqueued < u64::MAX ==> after.stats.enqueued
                    == queue.stats.enqueued + 1
                &&& after.stats.duplicate == queue.stats.duplicate
                &&& after.stats.saturated == queue.stats.saturated
            }
            &&& admission != FixupAdmission::Enqueued ==> after.pending == queue.pending
                && after.admitted == queue.admitted && after.stats.enqueued
                == queue.stats.enqueued
            &&& admission == FixupAdmission::Duplicate && queue.stats.duplicate < u64::MAX
                ==> after.stats.duplicate == queue.stats.duplicate + 1 && after.stats.saturated
                == queue.stats.saturated
            &&& admission == FixupAdmission::Saturated && queue.stats.saturated < u64::MAX
                ==> after.stats.saturated == queue.stats.saturated + 1 && after.stats.duplicate
                == queue.stats.duplicate
            &&& after.running == queue.running && after.capacity == queue.capacity
            &&& after.stats.settled == queue.stats.settled && after.stats.stalled
                == queue.stats.stalled && after.stats.yielded == queue.stats.yielded
                && after.stats.retired == queue.stats.retired
        }),
{
}

/// Every end of an execution counts once, under its own name, and no count
/// wraps.
pub proof fn executions_are_counted_under_their_name(stats: FixupStats, execution: FixupExecution)
    ensures
        ({
            let after = recorded(stats, execution);
            &&& after.enqueued == stats.enqueued && after.duplicate == stats.duplicate
                && after.saturated == stats.saturated
            &&& execution == FixupExecution::Settled && stats.settled < u64::MAX
                ==> after.settled == stats.settled + 1
            &&& execution == FixupExecution::Stalled && stats.stalled < u64::MAX
                ==> after.stalled == stats.stalled + 1
            &&& execution == FixupExecution::Yielded && stats.yielded < u64::MAX
                ==> after.yielded == stats.yielded + 1
            &&& execution == FixupExecution::Retired && stats.retired < u64::MAX
                ==> after.retired == stats.retired + 1
            &&& execution != FixupExecution::Settled || stats.settled == u64::MAX ==> after.settled
                == stats.settled
            &&& execution != FixupExecution::Stalled || stats.stalled == u64::MAX ==> after.stalled
                == stats.stalled
            &&& execution != FixupExecution::Yielded || stats.yielded == u64::MAX ==> after.yielded
                == stats.yielded
            &&& execution != FixupExecution::Retired || stats.retired == u64::MAX ==> after.retired
                == stats.retired
        }),
{
}

/// A running Fixup is still admitted, and no other work with its key is; once
/// finished its key is free, once yielded it waits last, and draining leaves the
/// running ones alone.
pub proof fn keys_are_held_until_they_finish(queue: QueueView, offer: OfferView, key: KeyView)
    requires
        queue.sound(),
    ensures
        queue.pending.len() > 0 ==> {
            let after = queue.popped();
            &&& after.pending.len() + 1 == queue.pending.len()
            &&& forall|i: int|
                0 <= i < after.pending.len() ==> #[trigger] after.pending[i] == queue.pending[i + 1]
            &&& after.running == queue.running + 1
            &&& after.admitted == queue.admitted
            &&& after.backlog() == queue.backlog()
            &&& after.is_running(queue.pending[0].key)
        },
        queue.is_running(offer.key) && queue.running > 0 ==> {
            let after = queue.finished(offer.key);
            &&& !after.admitted.contains(offer.key)
            &&& key != offer.key ==> after.admitted.contains(key) == queue.admitted.contains(key)
            &&& after.pending == queue.pending
            &&& after.running + 1 == queue.running
            &&& after.backlog() + 1 == queue.backlog()
        },
        queue.is_running(offer.key) && queue.running > 0 ==> {
            let after = queue.yielded(offer);
            &&& after.pending == queue.pending.push(offer)
            &&& after.admitted == queue.admitted
            &&& after.running + 1 == queue.running
            &&& after.backlog() == queue.backlog()
        },
        queue.drained().pending.len() == 0,
        queue.drained().running == queue.running,
        queue.drained().stats == queue.stats,
        queue.drained().capacity == queue.capacity,
        queue.drained().admitted.contains(key) <==> queue.admitted.contains(key)
            && !(exists|i: int|
            0 <= i < queue.pending.len() && (#[trigger] queue.pending[i]).key == key),
        queue.backlog() == queue.pending.len() + queue.running,
{
    if queue.pending.len() > 0 {
        let after = queue.popped();
        assert(queue.admitted.contains(queue.pending[0].key));
        assert forall|i: int| 0 <= i < after.pending.len() implies (#[trigger] after.pending[i]).key
            != queue.pending[0].key by {
            assert(after.pending[i] == queue.pending[i + 1]);
        }
    }
}

/// Offers are taken one after another, and each of them counts exactly once.
pub proof fn offers_are_taken_in_order(
    queue: QueueView,
    keys: Seq<FixupKey>,
    handle: u64,
    n: nat,
)
    requires
        n < keys.len() <= usize::MAX,
    ensures
        ({
            let before = offered_all(queue, offers_of(keys, handle), n);
            let after = offered_all(queue, offers_of(keys, handle), n + 1);
            let offer = OfferView { key: keys[n as int]@, handle };
            &&& offered_all(queue, offers_of(keys, handle), 0).0 == queue
            &&& after.0 == before.0.offered(offer)
            &&& before.1.enqueued + before.1.duplicate + before.1.saturated == n
            &&& before.0.admission(offer.key) == FixupAdmission::Enqueued ==> after.1.enqueued
                == before.1.enqueued + 1
            &&& before.0.admission(offer.key) == FixupAdmission::Duplicate ==> after.1.duplicate
                == before.1.duplicate + 1
            &&& before.0.admission(offer.key) == FixupAdmission::Saturated ==> after.1.saturated
                == before.1.saturated + 1
        }),
    decreases n,
{
    if n > 0 {
        offers_are_taken_in_order(queue, keys, handle, (n - 1) as nat);
    }
}

/// A completed split offers its left target, its right target and, where there
/// is one, its parent: in the same index and tree, under the same handle.
pub proof fn splits_are_followed_up_in_their_tree(offer: OfferView, followups: SplitFollowups)
    ensures
        ({
            let offers = followup_offers(offer, followups);
            &&& followups.parent is None ==> offers.len() == 2
            &&& followups.parent matches Some(parent) ==> offers.len() == 3
                && offers[2].key.partition == parent
            &&& offers[0].key.partition == followups.left
            &&& offers[1].key.partition == followups.right
            &&& forall|i: int|
                0 <= i < offers.len() ==> (#[trigger] offers[i]).handle == offer.handle
                    && offers[i].key.index == offer.key.index && offers[i].key.tree_key
                    == offer.key.tree_key
        }),
{
}

/// A released Fixup goes back to the queue only where it yielded and nothing
/// cancelled it; otherwise its key is freed, and follow-ups are offered only
/// while work is accepted.
pub proof fn releases_requeue_or_free(
    queue: QueueView,
    offer: OfferView,
    yield_back: bool,
    cancelled: bool,
    accepting: bool,
    followups: Option<SplitFollowups>,
)
    requires
        queue.sound(),
        queue.is_running(offer.key),
        queue.running > 0,
    ensures
        ({
            let after = released(queue, offer, yield_back, cancelled, accepting, followups);
            &&& yield_back && !cancelled ==> after.0.pending == queue.pending.push(offer)
                && after.0.admitted == queue.admitted && after.1.enqueued == 0
            &&& cancelled ==> after.0.pending == queue.pending && !after.0.admitted.contains(
                offer.key,
            ) && after.1.enqueued == 0
            &&& !yield_back && (!accepting || followups is None) ==> after.0.pending
                == queue.pending && !after.0.admitted.contains(offer.key) && after.1.enqueued == 0
            &&& !yield_back && !cancelled && accepting && followups is Some ==> {
                let offers = followup_offers(offer, followups->0);
                after == offered_all(queue.finished(offer.key), offers, offers.len())
            }
        }),
{
}

/// Imports pass below the watermark, fail once maintenance is cancelled above
/// it, and wait otherwise.
pub proof fn imports_pass_below_the_watermark(backlog: nat, watermark: nat, cancelled: bool)
    ensures
        gate_state(backlog, watermark, cancelled) == BacklogGate::Open <==> backlog < watermark,
        gate_state(backlog, watermark, cancelled) == BacklogGate::MaintenanceCancelled <==> backlog
            >= watermark && cancelled,
        gate_state(backlog, watermark, cancelled) == BacklogGate::Wait <==> backlog >= watermark
            && !cancelled,
{
}

/// A contended import halves its limit, down to one, forgets its clean run, and
/// doubles the run it needs next, up to sixty-four windows.
pub proof fn contention_halves_the_limit(state: ImportConcurrency)
    requires
        state.well_formed(),
        state.active > 0,
    ensures
        state.paused().limit == if state.limit >= 2 {
            state.limit as int / 2
        } else {
            1
        },
        state.paused().clean_completions == 0,
        state.paused().active + 1 == state.active,
        state.paused().waiting_retries == state.waiting_retries + 1,
        state.paused().maximum == state.maximum,
        state.paused().submission_waiting == state.submission_waiting,
        state.limit >= 2 && state.clean_window <= 32 ==> state.paused().clean_window == 2
            * state.clean_window,
        state.limit >= 2 && state.clean_window > 32 ==> state.paused().clean_window == 64,
        state.limit < 2 ==> state.paused().clean_window == state.clean_window,
        8 <= state.clean_window <= 64,
        1 <= state.limit <= state.maximum,
{
}

/// A clean completion counts only where it kept every slot busy with a batch
/// waiting and no retry; the run that its window asks for raises the limit by
/// one, and never beyond the maximum.
pub proof fn clean_runs_raise_the_limit(
    state: ImportConcurrency,
    permit: ImportPermitState,
    clean: bool,
)
    requires
        state.well_formed(),
        state.holds(permit),
        state.limit * state.clean_window <= usize::MAX,
        state.clean_completions < usize::MAX,
    ensures
        ({
            let after = state.finished(permit, clean);
            let counts = clean && permit == ImportPermitState::Active && state.active == state.limit
                && state.submission_waiting && state.waiting_retries == 0 && state.limit
                < state.maximum;
            &&& counts && state.clean_completions + 1 >= state.limit * state.clean_window
                ==> after.limit == state.limit + 1 && after.clean_completions == 0
            &&& counts && state.clean_completions + 1 < state.limit * state.clean_window
                ==> after.limit == state.limit && after.clean_completions
                == state.clean_completions + 1
            &&& !counts ==> after.limit == state.limit && after.clean_completions
                == state.clean_completions
            &&& permit == ImportPermitState::Active ==> after.active + 1 == state.active
                && after.waiting_retries == state.waiting_retries
            &&& permit == ImportPermitState::WaitingRetry ==> after.active == state.active
                && after.waiting_retries + 1 == state.waiting_retries
            &&& permit == ImportPermitState::Released ==> after.active == state.active
                && after.waiting_retries == state.waiting_retries
            &&& after.maximum == state.maximum && after.clean_window == state.clean_window
                && after.submission_waiting == state.submission_waiting
        }),
{
}

/// A new batch starts exactly below the limit and the maximum, and behind every
/// retry.
pub proof fn new_batches_wait_behind_retries(state: ImportConcurrency)
    requires
        state.well_formed(),
    ensures
        state.waiting_retries > 0 ==> !state.has_slot(),
        state.active >= state.limit ==> !state.has_slot(),
        state.active + state.waiting_retries >= state.maximum ==> !state.has_slot(),
        state.waiting_retries == 0 && state.active < state.limit && state.active < state.maximum
            ==> state.has_slot(),
{
}

/// Cancellation comes before the deadline, and the deadline fails from its
/// instant on.
pub proof fn controls_fail_when_cancelled_or_late(control: Control)
    ensures
        control.cancelled ==> control.failure() == Some(ErrorKind::Cancelled),
        !control.cancelled && control.deadline is None ==> control.failure() is None,
        !control.cancelled ==> (control.deadline matches Some(deadline) ==> (deadline <= control.now
            ==> control.failure() == Some(ErrorKind::DeadlineExceeded))),
        !control.cancelled ==> (control.deadline matches Some(deadline) ==> (deadline > control.now
            ==> control.failure() is None)),
{
}

/// Operations enter only while the Runtime accepts, each counting one; the last
/// to finish while closing releases the backend, and no other does.
pub proof fn operations_are_counted_until_the_last(lifecycle: Lifecycle, control: Control)
    requires
        lifecycle.well_formed(),
        lifecycle.active < usize::MAX,
    ensures
        control.cancelled ==> !lifecycle.admits(control),
        lifecycle.phase != Phase::Accepting ==> !lifecycle.admits(control),
        !control.cancelled && control.deadline is None && lifecycle.phase == Phase::Accepting
            ==> lifecycle.admits(control),
        lifecycle.admits(control) ==> lifecycle.entered(control).active == lifecycle.active + 1
            && lifecycle.entered(control).phase == Phase::Accepting && lifecycle.entered(
            control,
        ).backend_held,
        !lifecycle.admits(control) ==> lifecycle.entered(control) == lifecycle,
        lifecycle.active > 0 ==> lifecycle.finished().active + 1 == lifecycle.active,
        lifecycle.phase == Phase::Closing && lifecycle.active == 1 ==> lifecycle.finished().phase
            == Phase::Releasing && !lifecycle.finished().backend_held,
        lifecycle.phase == Phase::Closing && lifecycle.active > 1 ==> lifecycle.finished().phase
            == Phase::Closing && lifecycle.finished().backend_held,
        lifecycle.phase == Phase::Accepting ==> lifecycle.finished().phase == Phase::Accepting
            && lifecycle.finished().backend_held,
        lifecycle.phase == Phase::Accepting && lifecycle.active > 0 ==> lifecycle.closing().phase
            == Phase::Closing && lifecycle.closing().backend_held && lifecycle.closing().active
            == lifecycle.active,
        lifecycle.phase == Phase::Accepting && lifecycle.active == 0 ==> lifecycle.closing().phase
            == Phase::Releasing && !lifecycle.closing().backend_held,
{
}

/// Whoever decides an open commit first decides it, and a decided commit is not
/// decided again.
pub proof fn commits_are_decided_once(winner: CommitBoundary)
    ensures
        CommitBoundary::Open.decided(winner) == winner,
        CommitBoundary::Started.decided(winner) == CommitBoundary::Started,
        CommitBoundary::Cancelled.decided(winner) == CommitBoundary::Cancelled,
{
}

/// An installed index is active, has the identity and the configuration it was
/// asked for, and the seed of its identity alone.
pub proof fn new_indexes_hold_what_was_asked(
    id: LogicalIndexId,
    config: IndexConfigView,
    other: IndexConfigView,
    manifest: ManifestView,
    last: u64,
)
    ensures
        active_manifest(id, config).lifecycle == IndexLifecycle::Active,
        active_manifest(id, config).logical_index_id == id,
        active_manifest(id, config).config == config,
        active_manifest(id, config).rotation_seed == active_manifest(id, other).rotation_seed,
        active_manifest(id, config).rotation_seed == rotation_seed(id@),
        dropping(manifest).lifecycle == IndexLifecycle::Dropping,
        dropping(manifest).logical_index_id == manifest.logical_index_id,
        dropping(manifest).config == manifest.config,
        dropping(manifest).rotation_seed == manifest.rotation_seed,
        high_water_of(Stored::Absent) == Some(0u64),
        high_water_of(Stored::Found(last)) == Some(last),
        high_water_of(Stored::Other) is None,
{
}

/// A page's data positions are those that do not hold the Manifest, in order.
pub proof fn drops_delete_all_but_the_manifest(is_manifest: Seq<bool>, n: nat, at: int)
    requires
        n <= is_manifest.len() <= usize::MAX,
        0 <= at < n,
    ensures
        data_positions(is_manifest, n).contains(at as usize) <==> !is_manifest[at],
        forall|i: int|
            0 <= i < data_positions(is_manifest, n).len() ==> (#[trigger] data_positions(
                is_manifest,
                n,
            )[i]) < n,
    decreases n,
{
    let rest = data_positions(is_manifest, (n - 1) as nat);
    let all = data_positions(is_manifest, n);
    if n > 1 {
        drops_delete_all_but_the_manifest(
            is_manifest,
            (n - 1) as nat,
            if at < n - 1 {
                at
            } else {
                0
            },
        );
    } else {
        assert(rest.len() == 0);
    }
    assert forall|i: int| 0 <= i < all.len() implies (#[trigger] all[i]) < n by {
        if i < rest.len() {
            assert(all[i] == rest[i]);
        }
    }
    if at < n - 1 {
        if rest.contains(at as usize) {
            let i = choose|i: int| 0 <= i < rest.len() && rest[i] == at as usize;
            assert(all[i] == at as usize);
        }
        if all.contains(at as usize) {
            let i = choose|i: int| 0 <= i < all.len() && all[i] == at as usize;
            assert(rest[i] == at as usize);
        }
    } else {
        if !is_manifest[at] {
            assert(all[rest.len() as int] == at as usize);
        }
        if all.contains(at as usize) {
            let i = choose|i: int| 0 <= i < all.len() && all[i] == at as usize;
            if i < rest.len() {
                assert(rest[i] < n - 1);
            }
        }
    }
}

/// A drop without ranges deletes what data its page holds, moves on from a page
/// without any, and deletes the Manifest only when nothing is left to read; with
/// ranges it clears everything at once.
pub proof fn manifests_are_deleted_last(is_manifest: Seq<bool>, more: bool, at: int)
    requires
        0 <= at < is_manifest.len() <= usize::MAX,
    ensures
        planned_deletion(true, is_manifest, more) matches DropStepView::Commit {
            clear_range,
            complete,
            ..
        } && clear_range && complete,
        !is_manifest[at] ==> (planned_deletion(false, is_manifest, more) matches
            DropStepView::Commit { clear_range, deletes, delete_manifest, complete } && !clear_range
            && deletes.contains(at as usize) && !delete_manifest && !complete),
        planned_deletion(false, is_manifest, more) matches DropStepView::Commit {
            clear_range,
            deletes,
            delete_manifest,
            complete,
        } ==> !clear_range && (deletes.contains(at as usize) ==> !is_manifest[at]) && (
        delete_manifest ==> is_manifest[at] && !more && deletes.len() == 0) && delete_manifest
            == complete,
        planned_deletion(false, is_manifest, more) is Advance ==> is_manifest[at] && more,
{
    drops_delete_all_but_the_manifest(is_manifest, is_manifest.len(), at);
    let data = data_positions(is_manifest, is_manifest.len());
    if !is_manifest[at] {
        assert(data.len() > 0);
    }
}

/// A drop goes on from the next page after its commit, from the same page after
/// an abort, and from the start when it cannot know.
pub proof fn drops_resume_where_they_can(outcome: DropOutcome)
    ensures
        outcome is Committed ==> outcome.resume() == DropResume::Next && outcome.happened(),
        outcome is Aborted ==> outcome.resume() == DropResume::Again && !outcome.happened(),
        !(outcome is Committed) && !(outcome is Aborted) ==> outcome.resume() == DropResume::Start,
{
}

/// A payload is shown only where it was asked for.
pub proof fn payloads_are_shown_on_request(payload: Option<Vec<u8>>)
    ensures
        projected_payload(false, payload) is NotLoaded,
        payload is None ==> projected_payload(true, payload) is Absent,
        payload matches Some(bytes) ==> projected_payload(true, payload)
            == PayloadProjection::Present(bytes),
{
}

/// A drop gives up on unknown outcomes with the last of its attempts.
pub proof fn unknown_outcomes_are_bounded(attempts: DropAttempts)
    requires
        attempts.policy.attempts > 0,
    ensures
        !attempts.unknown_exhausted() <==> attempts.unknown + 1 < attempts.policy.attempts,
{
}

} // verus!
