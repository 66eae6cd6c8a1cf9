//! The bounded, deduplicating process-local Fixup queue.
//!
//! One key occupies at most one slot, whether pending or running. A duplicate
//! offer coalesces into the admitted one and a full queue drops the offer;
//! losing either is harmless, because the durable state is rediscovered.

use std::collections::VecDeque;

use vstd::prelude::*;

use crate::api::error::{plain_error, Error, ErrorKind, Result};
use crate::api::identifiers::{LogicalIndexId, PartitionKey};
use crate::api::record::{copy_bytes, same_bytes};
use crate::observe::labels::{FixupAdmission, FixupExecution};

verus! {

/// One unit of demand-driven maintenance: one partition of one tree of one
/// index. It identifies rediscovery, not a persisted task.
pub struct FixupKey {
    /// The index.
    pub index: LogicalIndexId,
    /// The encoded Tree Key.
    pub tree_key: Vec<u8>,
    /// The partition.
    pub partition: PartitionKey,
}

/// The mathematical content of a [`FixupKey`].
pub struct KeyView {
    /// The index.
    pub index: LogicalIndexId,
    /// The encoded Tree Key.
    pub tree_key: Seq<u8>,
    /// The partition.
    pub partition: PartitionKey,
}

impl View for FixupKey {
    type V = KeyView;

    open spec fn view(&self) -> KeyView {
        KeyView { index: self.index, tree_key: self.tree_key@, partition: self.partition }
    }
}

impl Clone for FixupKey {
    fn clone(&self) -> (res: Self)
        ensures
            res@ == self@,
    {
        FixupKey {
            index: self.index,
            tree_key: copy_bytes(&self.tree_key),
            partition: self.partition,
        }
    }
}

impl FixupKey {
    /// Returns whether two keys are the same.
    pub fn same(&self, other: &FixupKey) -> (res: bool)
        ensures
            res == (self@ == other@),
    {
        self.index == other.index && self.partition == other.partition && same_bytes(
            &self.tree_key,
            &other.tree_key,
        )
    }
}

/// One admitted Fixup: its key and the offering index handle.
pub struct FixupOffer {
    /// The key.
    pub key: FixupKey,
    /// The process-local number of the offering handle.
    pub handle: u64,
}

/// The mathematical content of a [`FixupOffer`].
pub struct OfferView {
    /// The key.
    pub key: KeyView,
    /// The offering handle.
    pub handle: u64,
}

impl View for FixupOffer {
    type V = OfferView;

    open spec fn view(&self) -> OfferView {
        OfferView { key: self.key@, handle: self.handle }
    }
}

/// Cumulative observations of the queue.
#[derive(Clone, Copy, Debug, PartialEq, Eq, Structural)]
pub struct FixupStats {
    /// Keys that took a slot.
    pub enqueued: u64,
    /// Offers of a key that was already pending or running.
    pub duplicate: u64,
    /// Offers dropped because the queue was full.
    pub saturated: u64,
    /// Executions that left no work.
    pub settled: u64,
    /// Executions that stopped on a merge with no legal target.
    pub stalled: u64,
    /// Executions that yielded after a full step budget of progress.
    pub yielded: u64,
    /// Executions that stopped early.
    pub retired: u64,
}

/// One more, up to the largest count.
pub open spec fn counted(count: u64) -> u64 {
    if count == u64::MAX {
        count
    } else {
        (count + 1) as u64
    }
}

/// The statistics before anything happened.
pub open spec fn no_stats() -> FixupStats {
    FixupStats {
        enqueued: 0,
        duplicate: 0,
        saturated: 0,
        settled: 0,
        stalled: 0,
        yielded: 0,
        retired: 0,
    }
}

/// The statistics after one execution.
pub open spec fn recorded(stats: FixupStats, execution: FixupExecution) -> FixupStats {
    match execution {
        FixupExecution::Settled => FixupStats { settled: counted(stats.settled), ..stats },
        FixupExecution::Stalled => FixupStats { stalled: counted(stats.stalled), ..stats },
        FixupExecution::Yielded => FixupStats { yielded: counted(stats.yielded), ..stats },
        FixupExecution::Retired => FixupStats { retired: counted(stats.retired), ..stats },
    }
}

impl FixupStats {
    /// Counts one finished execution.
    pub fn record(&mut self, execution: FixupExecution)
        ensures
            *final(self) == recorded(*old(self), execution),
    {
        match execution {
            FixupExecution::Settled => {
                self.settled = self.settled.saturating_add(1);
            },
            FixupExecution::Stalled => {
                self.stalled = self.stalled.saturating_add(1);
            },
            FixupExecution::Yielded => {
                self.yielded = self.yielded.saturating_add(1);
            },
            FixupExecution::Retired => {
                self.retired = self.retired.saturating_add(1);
            },
        }
    }
}

/// The mathematical content of a [`FixupQueue`].
#[verifier::ext_equal]
pub struct QueueView {
    /// The pending offers, oldest first.
    pub pending: Seq<OfferView>,
    /// The keys with a slot, pending or running.
    pub admitted: Set<KeyView>,
    /// The number of running Fixups.
    pub running: nat,
    /// The most slots.
    pub capacity: nat,
    /// The statistics.
    pub stats: FixupStats,
}

impl QueueView {
    /// The pending and running Fixups.
    pub open spec fn backlog(self) -> nat {
        self.pending.len() + self.running
    }

    /// Whether a key waits in the queue.
    pub open spec fn is_pending(self, key: KeyView) -> bool {
        exists|i: int| 0 <= i < self.pending.len() && (#[trigger] self.pending[i]).key == key
    }

    /// Whether a key is being executed.
    pub open spec fn is_running(self, key: KeyView) -> bool {
        self.admitted.contains(key) && !self.is_pending(key)
    }

    /// Whether every slot is accounted for: pending keys are distinct and
    /// admitted, the remaining admitted keys are the running ones, and the
    /// backlog fits the capacity.
    pub open spec fn sound(self) -> bool {
        &&& self.admitted.finite()
        &&& self.admitted.len() == self.backlog()
        &&& self.backlog() <= self.capacity
        &&& forall|i: int|
            0 <= i < self.pending.len() ==> self.admitted.contains((#[trigger] self.pending[i]).key)
        &&& forall|i: int, j: int|
            0 <= i < j < self.pending.len() ==> (#[trigger] self.pending[i]).key != (
            #[trigger] self.pending[j]).key
    }

    /// The outcome of one offer.
    pub open spec fn admission(self, key: KeyView) -> FixupAdmission {
        if self.admitted.contains(key) {
            FixupAdmission::Duplicate
        } else if self.backlog() >= self.capacity {
            FixupAdmission::Saturated
        } else {
            FixupAdmission::Enqueued
        }
    }

    /// The queue after one offer.
    pub open spec fn offered(self, offer: OfferView) -> QueueView {
        match self.admission(offer.key) {
            FixupAdmission::Duplicate => QueueView {
                stats: FixupStats { duplicate: counted(self.stats.duplicate), ..self.stats },
                ..self
            },
            FixupAdmission::Saturated => QueueView {
                stats: FixupStats { saturated: counted(self.stats.saturated), ..self.stats },
                ..self
            },
            FixupAdmission::Enqueued => QueueView {
                pending: self.pending.push(offer),
                admitted: self.admitted.insert(offer.key),
                stats: FixupStats { enqueued: counted(self.stats.enqueued), ..self.stats },
                ..self
            },
        }
    }

    /// The queue after the oldest pending offer started running.
    pub open spec fn popped(self) -> QueueView {
        QueueView { pending: self.pending.drop_first(), running: self.running + 1, ..self }
    }

    /// The queue after a running key released its slot.
    pub open spec fn finished(self, key: KeyView) -> QueueView {
        QueueView {
            running: (self.running - 1) as nat,
            admitted: self.admitted.remove(key),
            ..self
        }
    }

    /// The queue after a running offer went back to the tail.
    pub open spec fn yielded(self, offer: OfferView) -> QueueView {
        QueueView {
            running: (self.running - 1) as nat,
            pending: self.pending.push(offer),
            ..self
        }
    }

    /// The queue after every pending offer was dropped.
    pub open spec fn drained(self) -> QueueView {
        QueueView {
            pending: Seq::empty(),
            admitted: Set::new(|key: KeyView| self.is_running(key)),
            ..self
        }
    }
}

/// No operation loses or duplicates a slot: a sound queue stays sound, so its
/// backlog never exceeds its capacity and no key holds two slots.
pub proof fn queues_stay_sound(queue: QueueView, offer: OfferView)
    requires
        queue.sound(),
    ensures
        queue.offered(offer).sound(),
        queue.pending.len() > 0 ==> queue.popped().sound(),
        queue.is_running(offer.key) ==> queue.running > 0 && queue.finished(offer.key).sound()
            && queue.yielded(offer).sound(),
        queue.backlog() <= queue.capacity,
{
    if queue.admission(offer.key) == FixupAdmission::Enqueued {
        let after = queue.offered(offer);
        assert forall|i: int| 0 <= i < after.pending.len() implies after.admitted.contains(
            (#[trigger] after.pending[i]).key,
        ) by {
            if i < queue.pending.len() {
                assert(queue.admitted.contains(queue.pending[i].key));
            }
        }
        assert forall|i: int, j: int| 0 <= i < j < after.pending.len() implies (
        #[trigger] after.pending[i]).key != (#[trigger] after.pending[j]).key by {
            if j < queue.pending.len() {
                assert(queue.pending[i].key != queue.pending[j].key);
            } else {
                assert(queue.admitted.contains(queue.pending[i].key));
            }
        }
    }
    if queue.pending.len() > 0 {
        let after = queue.popped();
        assert forall|i: int| 0 <= i < after.pending.len() implies after.admitted.contains(
            (#[trigger] after.pending[i]).key,
        ) by {
            assert(queue.admitted.contains(queue.pending[i + 1].key));
        }
        assert forall|i: int, j: int| 0 <= i < j < after.pending.len() implies (
        #[trigger] after.pending[i]).key != (#[trigger] after.pending[j]).key by {
            assert(queue.pending[i + 1].key != queue.pending[j + 1].key);
        }
    }
    if queue.is_running(offer.key) {
        let key = offer.key;
        let keys = pending_keys(queue.pending);
        assert(keys.no_duplicates()) by {
            assert forall|i: int, j: int|
                0 <= i < keys.len() && 0 <= j < keys.len() && i != j implies keys[i] != keys[j] by {
                if i < j {
                    assert(queue.pending[i].key != queue.pending[j].key);
                } else {
                    assert(queue.pending[j].key != queue.pending[i].key);
                }
            }
        }
        keys.unique_seq_to_set();
        let rest = queue.admitted.remove(key);
        assert(keys.to_set().subset_of(rest)) by {
            assert forall|k: KeyView| keys.to_set().contains(k) implies rest.contains(k) by {
                let i = choose|i: int| 0 <= i < keys.len() && keys[i] == k;
                assert(queue.pending[i].key == k);
                assert(queue.admitted.contains(k));
                assert(queue.is_pending(k));
            }
        }
        vstd::set_lib::lemma_len_subset(keys.to_set(), rest);
        assert(queue.running > 0);
        let done = queue.finished(key);
        assert forall|i: int| 0 <= i < done.pending.len() implies done.admitted.contains(
            (#[trigger] done.pending[i]).key,
        ) by {
            assert(queue.admitted.contains(queue.pending[i].key));
            assert(queue.is_pending(queue.pending[i].key));
        }
        let back = queue.yielded(offer);
        assert forall|i: int| 0 <= i < back.pending.len() implies back.admitted.contains(
            (#[trigger] back.pending[i]).key,
        ) by {
            if i < queue.pending.len() {
                assert(queue.admitted.contains(queue.pending[i].key));
            }
        }
        assert forall|i: int, j: int| 0 <= i < j < back.pending.len() implies (
        #[trigger] back.pending[i]).key != (#[trigger] back.pending[j]).key by {
            if j < queue.pending.len() {
                assert(queue.pending[i].key != queue.pending[j].key);
            } else {
                assert(queue.is_pending(queue.pending[i].key));
            }
        }
    }
}

spec fn pending_keys(pending: Seq<OfferView>) -> Seq<KeyView> {
    Seq::new(pending.len(), |i: int| pending[i].key)
}

/// Shutdown keeps exactly the running Fixups: a drained queue is sound and its
/// backlog is the running count.
pub proof fn draining_keeps_the_running(queue: QueueView)
    requires
        queue.sound(),
    ensures
        queue.drained().sound(),
        queue.drained().backlog() == queue.running,
        queue.drained().admitted.len() == queue.running,
    decreases queue.pending.len(),
{
    if queue.pending.len() == 0 {
        assert(queue.drained().admitted =~= queue.admitted) by {
            assert forall|k: KeyView| queue.drained().admitted.contains(k)
                <==> queue.admitted.contains(k) by {
                assert(!queue.is_pending(k));
            }
        }
    } else {
        let first = queue.pending[0].key;
        let rest = QueueView {
            pending: queue.pending.drop_first(),
            admitted: queue.admitted.remove(first),
            ..queue
        };
        assert(queue.admitted.contains(first));
        assert(rest.sound()) by {
            assert forall|i: int| 0 <= i < rest.pending.len() implies rest.admitted.contains(
                (#[trigger] rest.pending[i]).key,
            ) by {
                assert(queue.admitted.contains(queue.pending[i + 1].key));
                assert(queue.pending[0].key != queue.pending[i + 1].key);
            }
            assert forall|i: int, j: int| 0 <= i < j < rest.pending.len() implies (
            #[trigger] rest.pending[i]).key != (#[trigger] rest.pending[j]).key by {
                assert(queue.pending[i + 1].key != queue.pending[j + 1].key);
            }
        }
        draining_keeps_the_running(rest);
        assert(rest.drained().admitted =~= queue.drained().admitted) by {
            assert forall|k: KeyView| rest.drained().admitted.contains(k)
                <==> queue.drained().admitted.contains(k) by {
                if rest.is_pending(k) {
                    let i = choose|i: int|
                        0 <= i < rest.pending.len() && (#[trigger] rest.pending[i]).key == k;
                    assert(queue.pending[i + 1].key == k);
                }
                if queue.is_pending(k) {
                    let i = choose|i: int|
                        0 <= i < queue.pending.len() && (#[trigger] queue.pending[i]).key == k;
                    if i > 0 {
                        assert(rest.pending[i - 1].key == k);
                    }
                }
                if k == first {
                    assert(queue.pending[0].key == k);
                }
            }
        }
    }
}

/// The bounded, deduplicating process-local Fixup queue.
pub struct FixupQueue {
    pending: VecDeque<FixupOffer>,
    admitted: Vec<FixupKey>,
    running: usize,
    capacity: usize,
    stats: FixupStats,
}

impl FixupQueue {
    spec fn offer_views(self) -> Seq<OfferView> {
        Seq::new(self.pending@.len(), |i: int| self.pending@[i]@)
    }

    spec fn admitted_views(self) -> Seq<KeyView> {
        Seq::new(self.admitted@.len(), |i: int| self.admitted@[i]@)
    }

    /// The pending offers, the admitted keys, and the counts.
    pub closed spec fn view(&self) -> QueueView {
        QueueView {
            pending: self.offer_views(),
            admitted: self.admitted_views().to_set(),
            running: self.running as nat,
            capacity: self.capacity as nat,
            stats: self.stats,
        }
    }

    /// Whether the queue is sound and holds each admitted key once.
    pub closed spec fn well_formed(self) -> bool {
        self.admitted_views().no_duplicates() && self.view().sound()
    }

    /// A well-formed queue is sound.
    pub proof fn well_formed_is_sound(&self)
        requires
            self.well_formed(),
        ensures
            self@.sound(),
    {
    }

    /// An empty queue with a positive number of slots.
    pub fn new(capacity: usize) -> (res: Self)
        ensures
            res.well_formed(),
            res@.pending == Seq::<OfferView>::empty(),
            res@.admitted == Set::<KeyView>::empty(),
            res@.running == 0,
            res@.capacity == capacity,
            res@.stats == no_stats(),
    {
        let res = FixupQueue {
            pending: VecDeque::new(),
            admitted: Vec::new(),
            running: 0,
            capacity,
            stats: FixupStats {
                enqueued: 0,
                duplicate: 0,
                saturated: 0,
                settled: 0,
                stalled: 0,
                yielded: 0,
                retired: 0,
            },
        };
        assert(res.admitted_views().to_set() =~= Set::empty());
        assert(res.offer_views() =~= Seq::empty());
        res
    }

    /// Returns the backlog: pending plus running Fixups.
    pub fn backlog(&self) -> (res: usize)
        requires
            self.well_formed(),
        ensures
            res == self@.backlog(),
    {
        self.pending.len() + self.running
    }

    /// Returns the number of pending Fixups.
    pub fn pending_len(&self) -> (res: usize)
        ensures
            res == self@.pending.len(),
    {
        self.pending.len()
    }

    /// Returns the number of running Fixups.
    pub fn running(&self) -> (res: usize)
        ensures
            res == self@.running,
    {
        self.running
    }

    /// Returns the number of occupied slots.
    pub fn admitted_len(&self) -> (res: usize)
        requires
            self.well_formed(),
        ensures
            res == self@.admitted.len(),
    {
        proof {
            self.admitted_views().unique_seq_to_set();
        }
        self.admitted.len()
    }

    /// Returns the cumulative statistics.
    pub fn stats(&self) -> (res: FixupStats)
        ensures
            res == self@.stats,
    {
        self.stats
    }

    /// Counts one finished execution.
    pub fn record(&mut self, execution: FixupExecution)
        requires
            old(self).well_formed(),
        ensures
            final(self).well_formed(),
            final(self)@ == (QueueView { stats: recorded(old(self)@.stats, execution), ..old(self)@ }),
    {
        self.stats.record(execution);
    }

    fn position_of(&self, key: &FixupKey) -> (res: Option<usize>)
        requires
            self.admitted_views().no_duplicates(),
        ensures
            match res {
                Some(at) => at < self.admitted@.len() && self.admitted@[at as int]@ == key@
                    && self@.admitted.contains(key@),
                None => !self@.admitted.contains(key@),
            },
    {
        let mut at: usize = 0;
        while at < self.admitted.len()
            invariant
                at <= self.admitted@.len(),
                forall|i: int| 0 <= i < at ==> (#[trigger] self.admitted@[i])@ != key@,
            decreases self.admitted@.len() - at,
        {
            if self.admitted[at].same(key) {
                assert(self.admitted_views()[at as int] == key@);
                return Some(at);
            }
            at = at + 1;
        }
        assert(!self.admitted_views().contains(key@)) by {
            if self.admitted_views().contains(key@) {
                let i = choose|i: int|
                    0 <= i < self.admitted_views().len() && self.admitted_views()[i] == key@;
                assert(self.admitted@[i]@ == key@);
            }
        }
        None
    }

    fn release_key(&mut self, key: &FixupKey)
        requires
            old(self).admitted_views().no_duplicates(),
        ensures
            final(self).admitted_views().no_duplicates(),
            final(self)@ == (QueueView { admitted: old(self)@.admitted.remove(key@), ..old(self)@ }),
            final(self).pending == old(self).pending,
    {
        let ghost before = self.admitted_views();
        match self.position_of(key) {
            Some(at) => {
                let _ = self.admitted.remove(at);
                proof {
                    let after = self.admitted_views();
                    let p = at as int;
                    assert(before[p] == key@);
                    assert(after =~= before.remove(p));
                    assert(after.no_duplicates()) by {
                        assert forall|i: int, j: int|
                            0 <= i < after.len() && 0 <= j < after.len() && i != j implies after[i]
                            != after[j] by {
                            let x = if i < p {
                                i
                            } else {
                                i + 1
                            };
                            let y = if j < p {
                                j
                            } else {
                                j + 1
                            };
                            assert(before[x] != before[y]);
                        }
                    }
                    assert(after.to_set() =~= before.to_set().remove(key@)) by {
                        assert forall|k: KeyView| after.contains(k) <==> before.contains(k) && k
                            != key@ by {
                            if after.contains(k) {
                                let i = choose|i: int| 0 <= i < after.len() && after[i] == k;
                                let x = if i < p {
                                    i
                                } else {
                                    i + 1
                                };
                                assert(before[x] == k);
                                assert(before[x] != before[p]);
                            }
                            if before.contains(k) && k != key@ {
                                let x = choose|x: int| 0 <= x < before.len() && before[x] == k;
                                let i = if x < p {
                                    x
                                } else {
                                    x - 1
                                };
                                assert(after[i] == k);
                            }
                        }
                        assert forall|k: KeyView| after.to_set().contains(k)
                            <==> before.to_set().remove(key@).contains(k) by {
                            assert(after.contains(k) <==> before.contains(k) && k != key@);
                        }
                    }
                }
            },
            None => {
                assert(before.to_set().remove(key@) =~= before.to_set());
            },
        }
        assert(self@ =~= (QueueView { admitted: old(self)@.admitted.remove(key@), ..old(self)@ }));
    }

    /// Admits one offered Fixup under the deduplication and capacity policy.
    pub fn offer(&mut self, key: FixupKey, handle: u64) -> (res: FixupAdmission)
        requires
            old(self).well_formed(),
        ensures
            final(self).well_formed(),
            res == old(self)@.admission(key@),
            final(self)@ == old(self)@.offered(OfferView { key: key@, handle }),
    {
        let ghost offer = OfferView { key: key@, handle };
        proof {
            queues_stay_sound(self@, offer);
        }
        if self.position_of(&key).is_some() {
            self.stats.duplicate = self.stats.duplicate.saturating_add(1);
            assert(self@ =~= old(self)@.offered(offer));
            return FixupAdmission::Duplicate;
        }
        if self.backlog() >= self.capacity {
            self.stats.saturated = self.stats.saturated.saturating_add(1);
            assert(self@ =~= old(self)@.offered(offer));
            return FixupAdmission::Saturated;
        }
        let ghost before = self.admitted_views();
        let copy = key.clone();
        self.admitted.push(copy);
        self.pending.push_back(FixupOffer { key, handle });
        self.stats.enqueued = self.stats.enqueued.saturating_add(1);
        proof {
            let after = self.admitted_views();
            assert(after =~= before.push(key@));
            assert(!before.contains(key@));
            assert(after.no_duplicates()) by {
                assert forall|i: int, j: int|
                    0 <= i < after.len() && 0 <= j < after.len() && i != j implies after[i]
                    != after[j] by {
                    if i < before.len() && j < before.len() {
                        assert(before[i] != before[j]);
                    } else if i < before.len() {
                        assert(before.contains(before[i]));
                    } else {
                        assert(before.contains(before[j]));
                    }
                }
            }
            assert(after.to_set() =~= before.to_set().insert(key@)) by {
                assert forall|k: KeyView| after.to_set().contains(k)
                    <==> before.to_set().insert(key@).contains(k) by {
                    if before.contains(k) {
                        let i = choose|i: int| 0 <= i < before.len() && before[i] == k;
                        assert(after[i] == k);
                    }
                    if k == key@ {
                        assert(after[before.len() as int] == k);
                    }
                    if after.contains(k) {
                        let i = choose|i: int| 0 <= i < after.len() && after[i] == k;
                        if i < before.len() {
                            assert(before[i] == k);
                        }
                    }
                }
            }
            assert(self.offer_views() =~= old(self).offer_views().push(offer));
            assert(self@ =~= old(self)@.offered(offer));
        }
        FixupAdmission::Enqueued
    }

    /// Takes the oldest pending Fixup into running state; it keeps its slot.
    pub fn pop(&mut self) -> (res: Option<FixupOffer>)
        requires
            old(self).well_formed(),
        ensures
            final(self).well_formed(),
            match res {
                Some(offer) => {
                    &&& old(self)@.pending.len() > 0
                    &&& offer@ == old(self)@.pending[0]
                    &&& final(self)@ == old(self)@.popped()
                    &&& final(self)@.is_running(offer.key@)
                },
                None => old(self)@.pending.len() == 0 && final(self)@ == old(self)@,
            },
    {
        let ghost before = self@;
        match self.pending.pop_front() {
            None => {
                assert(self@ =~= before);
                None
            },
            Some(offer) => {
                proof {
                    queues_stay_sound(before, before.pending[0]);
                    assert(before.pending[0] == offer@);
                }
                self.running = self.running + 1;
                proof {
                    assert(self.offer_views() =~= before.pending.drop_first());
                    assert(self@ =~= before.popped());
                    assert(self@.is_running(offer.key@)) by {
                        assert(before.admitted.contains(before.pending[0].key));
                        if self@.is_pending(offer.key@) {
                            let i = choose|i: int|
                                0 <= i < self@.pending.len() && (#[trigger] self@.pending[i]).key
                                    == offer.key@;
                            assert(before.pending[0].key != before.pending[i + 1].key);
                        }
                    }
                }
                Some(offer)
            },
        }
    }

    /// Releases one running Fixup's slot and returns the remaining backlog.
    pub fn finish(&mut self, key: &FixupKey) -> (res: usize)
        requires
            old(self).well_formed(),
            old(self)@.is_running(key@),
        ensures
            final(self).well_formed(),
            final(self)@ == old(self)@.finished(key@),
            res == final(self)@.backlog(),
    {
        let ghost before = self@;
        proof {
            queues_stay_sound(before, OfferView { key: key@, handle: 0 });
        }
        self.release_key(key);
        self.running = self.running - 1;
        assert(self@ =~= before.finished(key@));
        self.backlog()
    }

    /// Returns one progressing Fixup to the queue tail without releasing its
    /// slot, and returns the backlog.
    pub fn yield_back(&mut self, offer: &FixupOffer) -> (res: usize)
        requires
            old(self).well_formed(),
            old(self)@.is_running(offer.key@),
        ensures
            final(self).well_formed(),
            final(self)@ == old(self)@.yielded(offer@),
            res == final(self)@.backlog(),
    {
        let ghost before = self@;
        proof {
            queues_stay_sound(before, offer@);
        }
        self.running = self.running - 1;
        self.pending.push_back(FixupOffer { key: offer.key.clone(), handle: offer.handle });
        proof {
            assert(self.offer_views() =~= before.pending.push(offer@));
            assert(self@ =~= before.yielded(offer@));
        }
        self.backlog()
    }

    /// Drops every pending Fixup, keeping the running ones, and returns the
    /// remaining backlog.
    pub fn drain_pending(&mut self) -> (res: usize)
        requires
            old(self).well_formed(),
        ensures
            final(self).well_formed(),
            final(self)@ == old(self)@.drained(),
            res == final(self)@.backlog(),
    {
        let ghost before = self@;
        proof {
            draining_keeps_the_running(before);
        }
        while self.pending.len() > 0
            invariant
                self.well_formed(),
                self@.drained() == before.drained(),
            decreases self.pending@.len(),
        {
            let ghost now = self@;
            if let Some(offer) = self.pending.pop_front() {
                let ghost first = now.pending[0].key;
                assert(now.admitted.contains(first));
                let ghost mid = self@;
                assert(mid =~= (QueueView { pending: now.pending.drop_first(), ..now }));
                self.release_key(&offer.key);
                proof {
                    assert(self@ =~= (QueueView {
                        pending: now.pending.drop_first(),
                        admitted: now.admitted.remove(first),
                        ..now
                    }));
                    drained_step(now);
                }
            }
        }
        proof {
            assert(self@.pending =~= Seq::empty());
            assert(self@.drained().admitted =~= self@.admitted) by {
                assert forall|k: KeyView| self@.drained().admitted.contains(k)
                    <==> self@.admitted.contains(k) by {
                    assert(!self@.is_pending(k));
                }
            }
            assert(self@ =~= before.drained());
        }
        self.backlog()
    }
}

proof fn drained_step(queue: QueueView)
    requires
        queue.sound(),
        queue.pending.len() > 0,
    ensures
        ({
            let rest = QueueView {
                pending: queue.pending.drop_first(),
                admitted: queue.admitted.remove(queue.pending[0].key),
                ..queue
            };
            rest.sound() && rest.drained() == queue.drained()
        }),
{
    let first = queue.pending[0].key;
    let rest = QueueView {
        pending: queue.pending.drop_first(),
        admitted: queue.admitted.remove(first),
        ..queue
    };
    assert(queue.admitted.contains(first));
    assert forall|i: int| 0 <= i < rest.pending.len() implies rest.admitted.contains(
        (#[trigger] rest.pending[i]).key,
    ) by {
        assert(queue.admitted.contains(queue.pending[i + 1].key));
        assert(queue.pending[0].key != queue.pending[i + 1].key);
    }
    assert forall|i: int, j: int| 0 <= i < j < rest.pending.len() implies (
    #[trigger] rest.pending[i]).key != (#[trigger] rest.pending[j]).key by {
        assert(queue.pending[i + 1].key != queue.pending[j + 1].key);
    }
    assert forall|k: KeyView| rest.drained().admitted.contains(k)
        <==> queue.drained().admitted.contains(k) by {
        if rest.is_pending(k) {
            let i = choose|i: int|
                0 <= i < rest.pending.len() && (#[trigger] rest.pending[i]).key == k;
            assert(queue.pending[i + 1].key == k);
        }
        if queue.is_pending(k) {
            let i = choose|i: int|
                0 <= i < queue.pending.len() && (#[trigger] queue.pending[i]).key == k;
            if i > 0 {
                assert(rest.pending[i - 1].key == k);
            }
        }
        if k == first {
            assert(queue.pending[0].key == k);
        }
    }
    assert(rest.drained() =~= queue.drained());
}

/// How many offers of one batch ended each way.
#[derive(Clone, Copy, Debug, PartialEq, Eq, Structural)]
pub struct Admissions {
    /// Offers that took a slot.
    pub enqueued: usize,
    /// Offers that coalesced.
    pub duplicate: usize,
    /// Offers that were dropped.
    pub saturated: usize,
}

/// The counts after one more outcome.
pub open spec fn admissions_after(counts: Admissions, admission: FixupAdmission) -> Admissions {
    match admission {
        FixupAdmission::Enqueued => Admissions {
            enqueued: (counts.enqueued + 1) as usize,
            ..counts
        },
        FixupAdmission::Duplicate => Admissions {
            duplicate: (counts.duplicate + 1) as usize,
            ..counts
        },
        FixupAdmission::Saturated => Admissions {
            saturated: (counts.saturated + 1) as usize,
            ..counts
        },
    }
}

/// No outcome yet.
pub open spec fn no_admissions() -> Admissions {
    Admissions { enqueued: 0, duplicate: 0, saturated: 0 }
}

/// The queue and the counts after the first `n` of some offers.
pub open spec fn offered_all(
    queue: QueueView,
    offers: Seq<OfferView>,
    n: nat,
) -> (QueueView, Admissions)
    decreases n,
{
    if n == 0 {
        (queue, no_admissions())
    } else {
        let before = offered_all(queue, offers, (n - 1) as nat);
        let offer = offers[n - 1];
        (before.0.offered(offer), admissions_after(before.1, before.0.admission(offer.key)))
    }
}

proof fn admissions_are_counted(queue: QueueView, offers: Seq<OfferView>, n: nat)
    requires
        n <= offers.len() <= usize::MAX,
    ensures
        offered_all(queue, offers, n).1.enqueued + offered_all(queue, offers, n).1.duplicate
            + offered_all(queue, offers, n).1.saturated == n,
    decreases n,
{
    if n > 0 {
        admissions_are_counted(queue, offers, (n - 1) as nat);
    }
}

/// The offers of some keys by one handle.
pub open spec fn offers_of(keys: Seq<FixupKey>, handle: u64) -> Seq<OfferView> {
    Seq::new(keys.len(), |i: int| OfferView { key: keys[i]@, handle })
}

/// Offers a batch of discovered partitions, in order. Without workers, or once
/// the runtime stopped accepting work, the batch is dropped unseen.
pub fn offer_fixups(
    queue: &mut FixupQueue,
    workers: usize,
    accepting: bool,
    keys: &Vec<FixupKey>,
    handle: u64,
) -> (res: Option<Admissions>)
    requires
        old(queue).well_formed(),
    ensures
        final(queue).well_formed(),
        if workers == 0 || !accepting {
            res is None && final(queue)@ == old(queue)@
        } else {
            &&& res is Some
            &&& (final(queue)@, res->0) == offered_all(
                old(queue)@,
                offers_of(keys@, handle),
                keys@.len(),
            )
        },
{
    if workers == 0 || !accepting {
        return None;
    }
    let mut counts = Admissions { enqueued: 0, duplicate: 0, saturated: 0 };
    let mut at: usize = 0;
    let ghost offers = offers_of(keys@, handle);
    while at < keys.len()
        invariant
            at <= keys@.len(),
            offers == offers_of(keys@, handle),
            queue.well_formed(),
            (queue@, counts) == offered_all(old(queue)@, offers, at as nat),
        decreases keys@.len() - at,
    {
        proof {
            admissions_are_counted(old(queue)@, offers, at as nat);
            assert(offers[at as int] == OfferView { key: keys@[at as int]@, handle });
        }
        match queue.offer(keys[at].clone(), handle) {
            FixupAdmission::Enqueued => {
                counts.enqueued = counts.enqueued + 1;
            },
            FixupAdmission::Duplicate => {
                counts.duplicate = counts.duplicate + 1;
            },
            FixupAdmission::Saturated => {
                counts.saturated = counts.saturated + 1;
            },
        }
        at = at + 1;
    }
    Some(counts)
}

/// The partitions a completed split makes worth offering: both targets, then
/// the updated parent.
#[derive(Clone, Copy, Debug, PartialEq, Eq, Structural)]
pub struct SplitFollowups {
    /// The promoted left target.
    pub left: PartitionKey,
    /// The promoted right target.
    pub right: PartitionKey,
    /// The updated parent, if the split had one.
    pub parent: Option<PartitionKey>,
}

/// The offers of a completed split.
pub open spec fn followup_offers(offer: OfferView, followups: SplitFollowups) -> Seq<OfferView> {
    let of = |partition: PartitionKey|
        OfferView { key: KeyView { partition, ..offer.key }, handle: offer.handle };
    match followups.parent {
        Some(parent) => seq![of(followups.left), of(followups.right), of(parent)],
        None => seq![of(followups.left), of(followups.right)],
    }
}

/// What releasing a running Fixup leads to.
#[derive(Clone, Copy, Debug, PartialEq, Eq, Structural)]
pub struct Release {
    /// Whether the Fixup went back to the queue.
    pub yielded: bool,
    /// The backlog after the whole transition.
    pub backlog: usize,
    /// How the follow-up offers ended.
    pub admissions: Admissions,
    /// Whether waiting imports may go on.
    pub open_gate: bool,
    /// How many workers to wake.
    pub wake_workers: usize,
}

/// The queue and the follow-up counts after releasing a running Fixup.
pub open spec fn released(
    queue: QueueView,
    offer: OfferView,
    yield_back: bool,
    cancelled: bool,
    accepting: bool,
    followups: Option<SplitFollowups>,
) -> (QueueView, Admissions) {
    if yield_back && !cancelled {
        (queue.yielded(offer), no_admissions())
    } else if accepting && !cancelled && followups is Some {
        let offers = followup_offers(offer, followups->0);
        offered_all(queue.finished(offer.key), offers, offers.len())
    } else {
        (queue.finished(offer.key), no_admissions())
    }
}

/// Releases a running Fixup in one queue transition. Unfinished progress goes
/// back to the tail; otherwise the slot is freed, and a completed split's
/// follow-ups are offered before anyone sees the freed slot. Nothing is
/// re-offered once maintenance is cancelled or the runtime is closing.
pub fn release_running(
    queue: &mut FixupQueue,
    offer: &FixupOffer,
    yield_back: bool,
    cancelled: bool,
    accepting: bool,
    followups: Option<SplitFollowups>,
    watermark: usize,
) -> (res: Release)
    requires
        old(queue).well_formed(),
        old(queue)@.is_running(offer.key@),
    ensures
        final(queue).well_formed(),
        (final(queue)@, res.admissions) == released(
            old(queue)@,
            offer@,
            yield_back,
            cancelled,
            accepting,
            followups,
        ),
        res.yielded == (yield_back && !cancelled),
        res.backlog == final(queue)@.backlog(),
        res.open_gate == (!res.yielded && res.backlog < watermark),
        res.wake_workers == if res.yielded {
            1
        } else {
            res.admissions.enqueued as int
        },
{
    let none = Admissions { enqueued: 0, duplicate: 0, saturated: 0 };
    if yield_back && !cancelled {
        let backlog: usize = queue.yield_back(offer);
        return Release {
            yielded: true,
            backlog,
            admissions: none,
            open_gate: false,
            wake_workers: 1,
        };
    }
    let _ = queue.finish(&offer.key);
    let mut admissions = none;
    if accepting && !cancelled {
        if let Some(found) = followups {
            let mut keys: Vec<FixupKey> = Vec::new();
            keys.push(
                FixupKey {
                    index: offer.key.index,
                    tree_key: copy_bytes(&offer.key.tree_key),
                    partition: found.left,
                },
            );
            keys.push(
                FixupKey {
                    index: offer.key.index,
                    tree_key: copy_bytes(&offer.key.tree_key),
                    partition: found.right,
                },
            );
            if let Some(parent) = found.parent {
                keys.push(
                    FixupKey {
                        index: offer.key.index,
                        tree_key: copy_bytes(&offer.key.tree_key),
                        partition: parent,
                    },
                );
            }
            assert(offers_of(keys@, offer.handle) =~= followup_offers(offer@, found));
            if let Some(counts) = offer_fixups(queue, 1, true, &keys, offer.handle) {
                admissions = counts;
            }
        }
    }
    let backlog: usize = queue.backlog();
    Release {
        yielded: false,
        backlog,
        admissions,
        open_gate: backlog < watermark,
        wake_workers: admissions.enqueued,
    }
}

/// What a wait on the import backlog gate should do.
#[derive(Clone, Copy, Debug, PartialEq, Eq, Structural)]
pub enum BacklogGate {
    /// Go on.
    Open,
    /// Wait for the next released slot.
    Wait,
    /// Maintenance stopped.
    MaintenanceCancelled,
}

/// What an import batch finds at a backlog and its watermark.
pub open spec fn gate_state(backlog: nat, watermark: nat, cancelled: bool) -> BacklogGate {
    if backlog < watermark {
        BacklogGate::Open
    } else if cancelled {
        BacklogGate::MaintenanceCancelled
    } else {
        BacklogGate::Wait
    }
}

/// Checks the import backlog gate.
pub fn backlog_gate(queue: &FixupQueue, watermark: usize, cancelled: bool) -> (res: BacklogGate)
    requires
        queue.well_formed(),
    ensures
        res == gate_state(queue@.backlog(), watermark as nat, cancelled),
{
    if queue.backlog() < watermark {
        BacklogGate::Open
    } else if cancelled {
        BacklogGate::MaintenanceCancelled
    } else {
        BacklogGate::Wait
    }
}

/// Decides a new import batch by what it finds: cancelled maintenance fails it,
/// while a retry of admitted work would go on under its ordinary policy.
pub fn import_gate_result(gate: BacklogGate) -> (res: Result<bool>)
    ensures
        res == match gate {
            BacklogGate::Open => Ok::<bool, Error>(true),
            BacklogGate::Wait => Ok::<bool, Error>(false),
            BacklogGate::MaintenanceCancelled => Err::<bool, Error>(
                plain_error(ErrorKind::RuntimeClosed),
            ),
        },
{
    match gate {
        BacklogGate::Open => Ok(true),
        BacklogGate::Wait => Ok(false),
        BacklogGate::MaintenanceCancelled => Err(Error::new(ErrorKind::RuntimeClosed)),
    }
}

} // verus!
