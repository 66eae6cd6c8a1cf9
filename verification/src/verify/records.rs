//! Record Group membership and Leaf Entry projection agreement.
//!
//! Record Groups are scanned before every partition body. The audit gathers
//! what it learns of each Record ID, then joins each Leaf Entry against it. A
//! joined record is dropped at once, so a second entry of the same record is
//! found dangling; a record left over at the end names an entry that does not
//! exist.

use core::mem::size_of;

use vstd::prelude::*;

use crate::api::identifiers::PartitionKey;
use crate::api::record::{copy_bytes, same_bytes};
use crate::api::verify::VerifyIssueKind;
use crate::hashing::{entry_fingerprint, fingerprint};
use crate::ordering::bytes_less;
use crate::verify::by_key::{
    keys_ascend, lookup, nothing_to_vacate, placed, placing_fills_a_vacancy, placing_sets,
    same_lookup, taking_undoes_placing, vacated, vacating_keeps_others, ByKey, Slot,
};
use crate::verify::sink::{
    fed, fed_in_parts, fed_one, opt_bytes, stopped_sinks_stay, Finding, HashedTreeKey, Sink, SinkView,
};
use crate::verify::synopsis::saturated;

verus! {

/// Where a Record Location puts its record.
pub struct Location {
    /// The tree.
    pub tree: HashedTreeKey,
    /// The leaf.
    pub leaf: PartitionKey,
}

/// The mathematical content of a [`Location`].
pub ghost struct LocationView {
    /// The Tree Key.
    pub key: Seq<u8>,
    /// Its stable hash.
    pub hash: Seq<u8>,
    /// The leaf.
    pub leaf: PartitionKey,
}

impl Location {
    /// The content.
    pub open spec fn view(&self) -> LocationView {
        LocationView { key: self.tree.key@, hash: self.tree.hash@, leaf: self.leaf }
    }
}

/// What the audit learned of one record.
pub struct RecordFacts {
    /// The fingerprint of the record's canonical Leaf Entry, unless the record
    /// cannot be projected.
    pub expected: Option<Vec<u8>>,
    /// Where its Record Location puts it.
    pub location: Option<Location>,
    /// Whether its Vector Record was scanned.
    pub has_record: bool,
    /// Whether its Opaque Payload was scanned.
    pub has_payload: bool,
    /// The resident bytes it charges.
    pub charged: u64,
}

/// The mathematical content of some [`RecordFacts`].
pub ghost struct FactsView {
    /// The expected fingerprint.
    pub expected: Option<Seq<u8>>,
    /// The location.
    pub location: Option<LocationView>,
    /// Whether the Vector Record was scanned.
    pub has_record: bool,
    /// Whether the Opaque Payload was scanned.
    pub has_payload: bool,
    /// The resident bytes it charges.
    pub charged: u64,
}

/// The content of an optional location.
pub open spec fn opt_location(location: Option<Location>) -> Option<LocationView> {
    match location {
        Some(found) => Some(found@),
        None => None,
    }
}

impl RecordFacts {
    /// The content.
    pub open spec fn view(&self) -> FactsView {
        FactsView {
            expected: opt_bytes(self.expected),
            location: opt_location(self.location),
            has_record: self.has_record,
            has_payload: self.has_payload,
            charged: self.charged,
        }
    }
}

/// The resident bytes of one record without a location.
pub open spec fn record_bytes(id: Seq<u8>) -> int {
    saturated((vstd::layout::size_of::<Slot<RecordFacts>>() + id.len()) as int)
}

/// Nothing learned yet of one record.
pub open spec fn no_facts(id: Seq<u8>) -> FactsView {
    FactsView {
        expected: None,
        location: None,
        has_record: false,
        has_payload: false,
        charged: record_bytes(id) as u64,
    }
}

/// The content of the slots of a record table.
pub open spec fn facts_slots(slots: Seq<(Seq<u8>, RecordFacts)>) -> Seq<
    (Seq<u8>, FactsView),
> {
    Seq::new(
        slots.len(),
        |i: int| (slots[i].0, slots[i].1@),
    )
}

/// A finding about one record.
pub open spec fn record_finding(kind: VerifyIssueKind, id: Seq<u8>) -> Finding {
    Finding { kind, tree: None, partition: None, record_id: Some(id) }
}

/// A finding about one record at a position.
pub open spec fn placed_finding(
    kind: VerifyIssueKind,
    hash: Seq<u8>,
    leaf: PartitionKey,
    id: Seq<u8>,
) -> Finding {
    Finding { kind, tree: Some(hash), partition: Some(leaf), record_id: Some(id) }
}

impl FactsView {
    /// Whether the group is whole: a Vector Record with a Record Location.
    pub open spec fn whole(self) -> bool {
        self.has_record && self.location is Some
    }

    /// The findings within one Record Group: a Record Location or an Opaque
    /// Payload without a Vector Record, or a Vector Record without a Record
    /// Location.
    pub open spec fn group_findings(self, id: Seq<u8>) -> Seq<Finding> {
        if !self.has_record {
            let located = match self.location {
                Some(location) => seq![
                    placed_finding(
                        VerifyIssueKind::Membership,
                        location.hash,
                        location.leaf,
                        id,
                    ),
                ],
                None => Seq::empty(),
            };
            let paid = if self.has_payload {
                seq![record_finding(VerifyIssueKind::Membership, id)]
            } else {
                Seq::empty()
            };
            located + paid
        } else if self.location is None {
            seq![record_finding(VerifyIssueKind::Membership, id)]
        } else {
            Seq::empty()
        }
    }
}

/// The joining state of one audit.
#[verifier::ext_equal]
pub ghost struct RecordsView {
    /// What is known of each record, by Record ID.
    pub facts: Seq<(Seq<u8>, FactsView)>,
    /// Whether the Record Groups were checked already.
    pub groups_finalized: bool,
}

/// A sink and the joining state beside it.
#[verifier::ext_equal]
pub ghost struct Joined {
    /// The sink.
    pub sink: SinkView,
    /// The joining state.
    pub records: RecordsView,
}

impl RecordsView {
    /// With new facts of one record.
    pub open spec fn with(self, id: Seq<u8>, facts: FactsView) -> RecordsView {
        RecordsView { facts: placed(self.facts, id, facts), ..self }
    }

    /// Without the facts of one record.
    pub open spec fn without(self, id: Seq<u8>) -> RecordsView {
        RecordsView { facts: vacated(self.facts, id), ..self }
    }

    /// The facts of a record, charged for when it is new; none when the
    /// charge stops the audit.
    pub open spec fn facts_of(self, sink: SinkView, id: Seq<u8>) -> (SinkView, Option<FactsView>) {
        match lookup(self.facts, id) {
            Some(facts) => (sink, Some(facts)),
            None => {
                let charged = sink.memory_charged(record_bytes(id));
                if charged.truncated {
                    (charged, None)
                } else {
                    (charged, Some(no_facts(id)))
                }
            },
        }
    }

    /// The expected fingerprint of a record whose canonical Leaf Entry is
    /// given; a record that cannot be projected is a finding.
    pub open spec fn expectation(sink: SinkView, id: Seq<u8>, canonical: Option<Seq<u8>>) -> (
        SinkView,
        Option<Seq<u8>>,
    ) {
        match canonical {
            None => (
                sink.issued(record_finding(VerifyIssueKind::RecordProjectionMismatch, id)),
                None,
            ),
            Some(bytes) => {
                let charged = sink.memory_charged(bytes.len() as int);
                if charged.truncated {
                    (charged, None)
                } else {
                    (charged.memory_released(bytes.len() as int), Some(fingerprint(bytes)))
                }
            },
        }
    }

    /// After one Vector Record was scanned.
    pub open spec fn record_noted(
        self,
        sink: SinkView,
        id: Seq<u8>,
        canonical: Option<Seq<u8>>,
    ) -> Joined {
        let (projected, expected) = RecordsView::expectation(sink, id, canonical);
        match self.facts_of(projected, id) {
            (charged, Some(facts)) => Joined {
                sink: charged,
                records: self.with(id, FactsView { has_record: true, expected, ..facts }),
            },
            (charged, None) => Joined { sink: charged, records: self },
        }
    }

    /// After one Record Location was scanned. The first location of a record
    /// is charged for.
    pub open spec fn location_noted(
        self,
        sink: SinkView,
        id: Seq<u8>,
        location: LocationView,
    ) -> Joined {
        match self.facts_of(sink, id) {
            (charged, Some(facts)) => if facts.location is None {
                let located = charged.memory_charged(location.key.len() as int);
                let records = self.with(
                    id,
                    if located.truncated {
                        facts
                    } else {
                        FactsView {
                            location: Some(location),
                            charged: saturated(facts.charged + location.key.len()) as u64,
                            ..facts
                        }
                    },
                );
                Joined { sink: located, records }
            } else {
                Joined {
                    sink: charged,
                    records: self.with(id, FactsView { location: Some(location), ..facts }),
                }
            },
            (charged, None) => Joined { sink: charged, records: self },
        }
    }

    /// After one Opaque Payload was scanned.
    pub open spec fn payload_noted(self, sink: SinkView, id: Seq<u8>) -> Joined {
        match self.facts_of(sink, id) {
            (charged, Some(facts)) => Joined {
                sink: charged,
                records: self.with(id, FactsView { has_payload: true, ..facts }),
            },
            (charged, None) => Joined { sink: charged, records: self },
        }
    }

    /// The first `n` Record Groups after they were checked: every group that
    /// is not whole is reported, dropped and released, until the audit stops.
    pub open spec fn groups_checked(self, sink: SinkView, n: int) -> Joined
        decreases n,
    {
        if n <= 0 {
            Joined { sink, records: RecordsView { facts: Seq::empty(), ..self } }
        } else {
            let before = self.groups_checked(sink, n - 1);
            let (id, facts) = self.facts[n - 1];
            if before.sink.truncated || facts.whole() {
                Joined {
                    records: RecordsView {
                        facts: before.records.facts.push((id, facts)),
                        ..before.records
                    },
                    ..before
                }
            } else {
                Joined {
                    sink: fed(before.sink, facts.group_findings(id)).memory_released(
                        facts.charged as int,
                    ),
                    ..before
                }
            }
        }
    }

    /// After all Record Groups were checked, once.
    pub open spec fn groups_finished(self, sink: SinkView) -> Joined {
        if self.groups_finalized {
            Joined { sink, records: self }
        } else {
            let checked = self.groups_checked(sink, self.facts.len() as int);
            Joined {
                sink: checked.sink,
                records: RecordsView { groups_finalized: true, ..checked.records },
            }
        }
    }

    /// After one Leaf Entry was joined. An entry without a record, or at
    /// another position than its Record Location names, is a finding; an entry
    /// at its position drops the record, and is a finding when its bytes are
    /// not those expected.
    pub open spec fn entry_joined(
        self,
        sink: SinkView,
        key: Seq<u8>,
        hash: Seq<u8>,
        partition: PartitionKey,
        id: Seq<u8>,
        bytes: Seq<u8>,
    ) -> Joined {
        let dangling = Joined {
            sink: sink.issued(placed_finding(VerifyIssueKind::Membership, hash, partition, id)),
            records: self,
        };
        match lookup(self.facts, id) {
            None => dangling,
            Some(facts) => if facts.location matches Some(location) && location.key == key
                && location.leaf == partition {
                let checked = if facts.expected matches Some(expected) && expected != fingerprint(
                    bytes,
                ) {
                    sink.issued(
                        placed_finding(
                            VerifyIssueKind::RecordProjectionMismatch,
                            hash,
                            partition,
                            id,
                        ),
                    )
                } else {
                    sink
                };
                Joined {
                    sink: checked.memory_released(facts.charged as int),
                    records: self.without(id),
                }
            } else {
                dangling
            },
        }
    }

    /// The findings of the first `n` records that no Leaf Entry joined.
    pub open spec fn leftover_findings(self, n: int) -> Seq<Finding>
        decreases n,
    {
        if n <= 0 {
            Seq::empty()
        } else {
            let (id, facts) = self.facts[n - 1];
            self.leftover_findings(n - 1) + match facts.location {
                Some(location) => seq![
                    placed_finding(
                        VerifyIssueKind::Membership,
                        location.hash,
                        location.leaf,
                        id,
                    ),
                ],
                None => Seq::empty(),
            }
        }
    }
}

proof fn vacating_agrees(slots: Seq<(Seq<u8>, RecordFacts)>, id: Seq<u8>)
    ensures
        facts_slots(vacated(slots, id)) == vacated(facts_slots(slots), id),
    decreases slots.len(),
{
    let views = facts_slots(slots);
    if slots.len() == 0 {
        assert(views =~= Seq::empty());
        assert(facts_slots(vacated(slots, id)) =~= vacated(views, id));
    } else {
        vacating_agrees(slots.drop_last(), id);
        assert(facts_slots(slots.drop_last()) =~= views.drop_last());
        assert(views.last() == (slots.last().0, slots.last().1@));
        assert(facts_slots(vacated(slots, id)) =~= vacated(views, id));
    }
}

proof fn slots_agree(slots: Seq<(Seq<u8>, RecordFacts)>, id: Seq<u8>)
    requires
        keys_ascend(slots),
    ensures
        lookup(facts_slots(slots), id) == match lookup(slots, id) {
            Some(facts) => Some(facts@),
            None => None,
        },
        keys_ascend(facts_slots(slots)),
        facts_slots(vacated(slots, id)) == vacated(facts_slots(slots), id),
{
    let views = facts_slots(slots);
    assert forall|i: int, j: int| 0 <= i < j < views.len() implies bytes_less(
        views[i].0,
        views[j].0,
    ) by {
        assert(bytes_less(slots[i].0, slots[j].0));
    }
    same_lookup(slots, views, id);
    vacating_agrees(slots, id);
}

proof fn placing_agrees(slots: Seq<(Seq<u8>, RecordFacts)>, id: Seq<u8>, facts: RecordFacts)
    ensures
        facts_slots(placed(slots, id, facts)) == placed(facts_slots(slots), id, facts@),
    decreases slots.len(),
{
    let views = facts_slots(slots);
    if slots.len() == 0 || bytes_less(slots.last().0, id) {
        assert(facts_slots(slots.push((id, facts))) =~= views.push((id, facts@)));
    } else if slots.last().0 == id {
        assert(facts_slots(slots.drop_last().push((id, facts))) =~= views.drop_last().push(
            (id, facts@),
        ));
    } else {
        placing_agrees(slots.drop_last(), id, facts);
        assert(facts_slots(slots.drop_last()) =~= views.drop_last());
        assert(facts_slots(placed(slots.drop_last(), id, facts).push(slots.last())) =~= placed(
            views.drop_last(),
            id,
            facts@,
        ).push(views.last()));
    }
}

/// A Leaf Entry joins its record once: a second entry of the same record, at
/// any position, is reported as dangling.
pub proof fn entries_join_once(
    records: RecordsView,
    sink: SinkView,
    location: LocationView,
    id: Seq<u8>,
    bytes: Seq<u8>,
    other: LocationView,
    other_bytes: Seq<u8>,
)
    requires
        keys_ascend(records.facts),
        lookup(records.facts, id) matches Some(facts) && facts.location == Some(location),
    ensures
        ({
            let first = records.entry_joined(
                sink,
                location.key,
                location.hash,
                location.leaf,
                id,
                bytes,
            );
            let second = first.records.entry_joined(
                first.sink,
                other.key,
                other.hash,
                other.leaf,
                id,
                other_bytes,
            );
            &&& lookup(first.records.facts, id) is None
            &&& second.sink == first.sink.issued(
                placed_finding(VerifyIssueKind::Membership, other.hash, other.leaf, id),
            )
        }),
{
    vacating_keeps_others(records.facts, id, id);
}

/// A record whose Vector Record, Record Location and Leaf Entry agree causes
/// no finding and leaves nothing behind, neither facts nor charged memory.
pub proof fn agreeing_records_leave_no_trace(
    records: RecordsView,
    sink: SinkView,
    location: LocationView,
    id: Seq<u8>,
    bytes: Seq<u8>,
)
    requires
        keys_ascend(records.facts),
        lookup(records.facts, id) is None,
    ensures
        ({
            let noted = records.record_noted(sink, id, Some(bytes));
            let located = noted.records.location_noted(noted.sink, id, location);
            let joined = located.records.entry_joined(
                located.sink,
                location.key,
                location.hash,
                location.leaf,
                id,
                bytes,
            );
            !joined.sink.truncated ==> {
                &&& joined.sink == sink
                &&& joined.records == records
            }
        }),
{
    let noted = records.record_noted(sink, id, Some(bytes));
    let located = noted.records.location_noted(noted.sink, id, location);
    let (projected, expected) = RecordsView::expectation(sink, id, Some(bytes));
    let facts = FactsView { has_record: true, expected, ..no_facts(id) };
    placing_sets(records.facts, id, facts, id);
    if !noted.sink.truncated && !located.sink.truncated {
        let whole = FactsView {
            location: Some(location),
            charged: saturated(facts.charged + location.key.len()) as u64,
            ..facts
        };
        placing_sets(noted.records.facts, id, whole, id);
        placing_fills_a_vacancy(noted.records.facts, id, whole);
        taking_undoes_placing(records.facts, id, facts);
        taking_undoes_placing(records.facts, id, whole);
    }
    placing_sets(noted.records.facts, id, facts, id);
}

/// Checking the Record Groups a second time changes nothing.
pub proof fn groups_are_checked_once(records: RecordsView, sink: SinkView)
    ensures
        ({
            let once = records.groups_finished(sink);
            once.records.groups_finished(once.sink) == once
        }),
{
}

/// The joining state of one audit.
pub struct RecordLedger {
    facts: ByKey<RecordFacts>,
    groups_finalized: bool,
}

impl RecordLedger {
    /// What is known of each record.
    pub closed spec fn view(&self) -> RecordsView {
        RecordsView {
            facts: facts_slots(self.facts@),
            groups_finalized: self.groups_finalized,
        }
    }

    /// An audit that scanned nothing yet.
    pub fn new() -> (res: Self)
        ensures
            res@ == (RecordsView { facts: Seq::empty(), groups_finalized: false }),
    {
        let res = RecordLedger { facts: ByKey::new(), groups_finalized: false };
        assert(res@.facts =~= Seq::empty());
        res
    }

    fn take_facts(&mut self, sink: &mut Sink, id: &Vec<u8>) -> (res: Option<RecordFacts>)
        ensures
            ({
                let (charged, facts) = old(self)@.facts_of(old(sink)@, id@);
                &&& final(sink)@ == charged
                &&& match res {
                    Some(found) => facts == Some(found@),
                    None => facts is None && lookup(old(self)@.facts, id@) is None,
                }
            }),
            final(self)@ == old(self)@.without(id@),
            keys_ascend(old(self)@.facts),
    {
        let slots: usize = self.facts.len();
        proof {
            slots_agree(self.facts@, id@);
        }
        match self.facts.take(id) {
            Some(facts) => Some(facts),
            None => {
                let size: u64 = size_of::<Slot<RecordFacts>>() as u64;
                let charged: u64 = size.saturating_add(id.len() as u64);
                sink.charge_memory(charged);
                if sink.truncated() {
                    return None;
                }
                Some(
                    RecordFacts {
                        expected: None,
                        location: None,
                        has_record: false,
                        has_payload: false,
                        charged,
                    },
                )
            },
        }
    }

    fn put_facts(&mut self, id: &Vec<u8>, facts: RecordFacts)
        ensures
            final(self)@ == old(self)@.with(id@, facts@),
    {
        proof {
            placing_agrees(self.facts@, id@, facts);
        }
        self.facts.insert(copy_bytes(id), facts);
    }

    /// Notes one scanned Vector Record. `canonical` is the encoding of the
    /// Leaf Entry that a mutation would write for it, unless it cannot be
    /// projected.
    pub fn note_record(&mut self, sink: &mut Sink, id: &Vec<u8>, canonical: Option<&Vec<u8>>)
        ensures
            (Joined { sink: final(sink)@, records: final(self)@ }) == old(self)@.record_noted(
                old(sink)@,
                id@,
                match canonical {
                    Some(bytes) => Some(bytes@),
                    None => None,
                },
            ),
    {
        let ghost before = self@;
        let expected = Self::expected_entry(sink, id, canonical);
        if let Some(facts) = self.take_facts(sink, id) {
            let noted = RecordFacts { has_record: true, expected, ..facts };
            proof {
                placing_fills_a_vacancy(before.facts, id@, noted@);
            }
            self.put_facts(id, noted);
        } else {
            proof {
                nothing_to_vacate(before.facts, id@);
            }
        }
    }

    fn expected_entry(sink: &mut Sink, id: &Vec<u8>, canonical: Option<&Vec<u8>>) -> (res: Option<
        Vec<u8>,
    >)
        ensures
            (final(sink)@, opt_bytes(res)) == RecordsView::expectation(
                old(sink)@,
                id@,
                match canonical {
                    Some(bytes) => Some(bytes@),
                    None => None,
                },
            ),
    {
        let bytes = match canonical {
            Some(bytes) => bytes,
            None => {
                sink.issue(
                    VerifyIssueKind::RecordProjectionMismatch,
                    None,
                    None,
                    Some(id),
                );
                return None;
            },
        };
        let length: u64 = bytes.len() as u64;
        sink.charge_memory(length);
        if sink.truncated() {
            return None;
        }
        let expected = entry_fingerprint(bytes);
        sink.release_memory(length);
        Some(expected)
    }

    /// Notes one scanned Record Location.
    pub fn note_location(&mut self, sink: &mut Sink, id: &Vec<u8>, location: Location)
        ensures
            (Joined { sink: final(sink)@, records: final(self)@ }) == old(self)@.location_noted(
                old(sink)@,
                id@,
                location@,
            ),
    {
        let ghost before = self@;
        let facts = match self.take_facts(sink, id) {
            Some(facts) => facts,
            None => {
                proof {
                    nothing_to_vacate(before.facts, id@);
                }
                return;
            },
        };
        if facts.location.is_none() {
            let delta: u64 = location.tree.key.len() as u64;
            sink.charge_memory(delta);
            if sink.truncated() {
                proof {
                    placing_fills_a_vacancy(before.facts, id@, facts@);
                }
                self.put_facts(id, facts);
                return;
            }
            let charged: u64 = facts.charged.saturating_add(delta);
            let noted = RecordFacts { location: Some(location), charged, ..facts };
            proof {
                placing_fills_a_vacancy(before.facts, id@, noted@);
            }
            self.put_facts(id, noted);
        } else {
            let noted = RecordFacts { location: Some(location), ..facts };
            proof {
                placing_fills_a_vacancy(before.facts, id@, noted@);
            }
            self.put_facts(id, noted);
        }
    }

    /// Notes one scanned Opaque Payload.
    pub fn note_payload(&mut self, sink: &mut Sink, id: &Vec<u8>)
        ensures
            (Joined { sink: final(sink)@, records: final(self)@ }) == old(self)@.payload_noted(
                old(sink)@,
                id@,
            ),
    {
        let ghost before = self@;
        if let Some(facts) = self.take_facts(sink, id) {
            let noted = RecordFacts { has_payload: true, ..facts };
            proof {
                placing_fills_a_vacancy(before.facts, id@, noted@);
            }
            self.put_facts(id, noted);
        } else {
            proof {
                nothing_to_vacate(before.facts, id@);
            }
        }
    }

    fn report_group(sink: &mut Sink, id: &Vec<u8>, facts: &RecordFacts)
        ensures
            final(sink)@ == fed(old(sink)@, facts@.group_findings(id@)),
    {
        let ghost start = sink@;
        if !facts.has_record {
            let ghost alone = record_finding(VerifyIssueKind::Membership, id@);
            if let Some(location) = &facts.location {
                proof {
                    fed_one(
                        start,
                        placed_finding(
                            VerifyIssueKind::Membership,
                            location.tree.hash@,
                            location.leaf,
                            id@,
                        ),
                    );
                }
                sink.issue(
                    VerifyIssueKind::Membership,
                    Some(location.tree.hash),
                    Some(location.leaf),
                    Some(id),
                );
            }
            proof {
                fed_one(sink@, alone);
                let located = match facts@.location {
                    Some(location) => seq![
                        placed_finding(
                            VerifyIssueKind::Membership,
                            location.hash,
                            location.leaf,
                            id@,
                        ),
                    ],
                    None => Seq::empty(),
                };
                fed_in_parts(start, located, seq![alone]);
                fed_in_parts(start, located, Seq::empty());
            }
            if facts.has_payload {
                sink.issue(VerifyIssueKind::Membership, None, None, Some(id));
            }
        } else if facts.location.is_none() {
            proof {
                fed_one(start, record_finding(VerifyIssueKind::Membership, id@));
            }
            sink.issue(VerifyIssueKind::Membership, None, None, Some(id));
        }
    }

    /// Reports the findings within the Record Groups, once, and drops every
    /// group that cannot join.
    pub fn finalize_groups(&mut self, sink: &mut Sink)
        ensures
            (Joined { sink: final(sink)@, records: final(self)@ }) == old(self)@.groups_finished(
                old(sink)@,
            ),
    {
        if self.groups_finalized {
            return;
        }
        let ghost before = self@;
        let ghost start = sink@;
        let groups: usize = self.facts.len();
        let mut seen: usize = 0;
        let mut at: usize = 0;
        assert(self@.facts =~= before.groups_checked(start, 0).records.facts
            + before.facts.skip(0));
        while seen < groups
            invariant
                at <= seen <= groups,
                groups == before.facts.len(),
                !before.groups_finalized,
                !self.groups_finalized,
                sink@ == before.groups_checked(start, seen as int).sink,
                !before.groups_checked(start, seen as int).records.groups_finalized,
                at == before.groups_checked(start, seen as int).records.facts.len(),
                self@.facts == before.groups_checked(start, seen as int).records.facts
                    + before.facts.skip(seen as int),
            decreases groups - seen,
        {
            let ghost kept = before.groups_checked(start, seen as int).records.facts;
            let ghost raw = self.facts@;
            proof {
                assert(self@.facts.len() == kept.len() + groups - seen);
                assert(self@.facts[at as int] == before.facts[seen as int]);
            }
            let slot = self.facts.slot(at);
            let facts = &slot.value;
            if sink.truncated() || (facts.has_record && facts.location.is_some()) {
                proof {
                    assert(kept.push(before.facts[seen as int]) + before.facts.skip(seen + 1)
                        =~= kept + before.facts.skip(seen as int));
                }
                at = at + 1;
            } else {
                Self::report_group(sink, &slot.key, facts);
                sink.release_memory(facts.charged);
                let dropped = self.facts.take_at(at);
                proof {
                    assert(facts_slots(self.facts@) =~= facts_slots(raw).remove(at as int));
                    assert(facts_slots(raw).remove(at as int) =~= kept + before.facts.skip(
                        seen + 1,
                    ));
                }
            }
            seen = seen + 1;
        }
        proof {
            let kept = before.groups_checked(start, groups as int).records.facts;
            assert(kept + before.facts.skip(groups as int) =~= kept);
        }
        self.groups_finalized = true;
    }

    /// Joins one scanned Leaf Entry.
    pub fn join_leaf_entry(
        &mut self,
        sink: &mut Sink,
        tree: &HashedTreeKey,
        partition: PartitionKey,
        id: &Vec<u8>,
        bytes: &Vec<u8>,
    )
        ensures
            (Joined { sink: final(sink)@, records: final(self)@ }) == old(self)@.entry_joined(
                old(sink)@,
                tree.key@,
                tree.hash@,
                partition,
                id@,
                bytes@,
            ),
    {
        let slots: usize = self.facts.len();
        proof {
            slots_agree(self.facts@, id@);
        }
        let (named, mismatch) = match self.facts.get(id) {
            None => (false, false),
            Some(facts) => {
                let named = match &facts.location {
                    Some(location) => same_bytes(&location.tree.key, &tree.key) && location.leaf
                        == partition,
                    None => false,
                };
                let mismatch = match &facts.expected {
                    Some(expected) => !same_bytes(&entry_fingerprint(bytes), expected),
                    None => false,
                };
                (named, mismatch)
            },
        };
        if !named {
            sink.issue(VerifyIssueKind::Membership, Some(tree.hash), Some(partition), Some(id));
            return;
        }
        if mismatch {
            sink.issue(
                VerifyIssueKind::RecordProjectionMismatch,
                Some(tree.hash),
                Some(partition),
                Some(id),
            );
        }
        if let Some(facts) = self.facts.take(id) {
            sink.release_memory(facts.charged);
        }
    }

    /// Reports every record whose Leaf Entry never appeared.
    pub fn finish(&self, sink: &mut Sink)
        ensures
            final(sink)@ == fed(
                old(sink)@,
                self@.leftover_findings(self@.facts.len() as int),
            ),
    {
        let ghost start = sink@;
        let slots: usize = self.facts.len();
        let mut i: usize = 0;
        while i < slots
            invariant
                i <= slots,
                slots == self@.facts.len(),
                slots == self.facts@.len(),
                start == old(sink)@,
                sink@ == fed(start, self@.leftover_findings(i as int)),
            decreases slots - i,
        {
            if sink.truncated() {
                proof {
                    self@.leftovers_in_parts(start, i as int, slots as int);
                }
                return;
            }
            let slot = self.facts.slot(i);
            assert(self@.facts[i as int].0 == slot.key@);
            proof {
                let shorter = self@.leftover_findings(i as int);
                fed_in_parts(start, shorter, Seq::empty());
            }
            if let Some(location) = &slot.value.location {
                let ghost finding = placed_finding(
                    VerifyIssueKind::Membership,
                    location.tree.hash@,
                    location.leaf,
                    slot.key@,
                );
                proof {
                    fed_in_parts(start, self@.leftover_findings(i as int), seq![finding]);
                    fed_one(sink@, finding);
                }
                sink.issue(
                    VerifyIssueKind::Membership,
                    Some(location.tree.hash),
                    Some(location.leaf),
                    Some(&slot.key),
                );
            }
            i = i + 1;
        }
    }
}

impl RecordsView {
    proof fn leftovers_in_parts(self, sink: SinkView, i: int, n: int)
        requires
            0 <= i <= n,
            fed(sink, self.leftover_findings(i)).truncated,
        ensures
            fed(sink, self.leftover_findings(n)) == fed(sink, self.leftover_findings(i)),
        decreases n - i,
    {
        if i < n {
            self.leftovers_in_parts(sink, i, n - 1);
            let shorter = self.leftover_findings(n - 1);
            let more = self.leftover_findings(n).skip(shorter.len() as int);
            assert(self.leftover_findings(n) =~= shorter + more);
            fed_in_parts(sink, shorter, more);
            stopped_sinks_stay(fed(sink, shorter), more);
        }
    }
}

} // verus!
