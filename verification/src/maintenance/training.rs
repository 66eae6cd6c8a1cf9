//! Deterministic binary K-means split training.
//!
//! Training turns one consistent snapshot of a split source into the two
//! target centroids. The entries are put in canonical ID order first, so the
//! result depends on the entry set alone: farthest-pair seeding and every
//! assignment round break ties by that order, each round assigns exactly half
//! of the entries, rounded down, to the left cluster, and training stops when
//! an assignment repeats or after ten rounds.

use vstd::prelude::*;

use crate::api::error::{plain_error, Error, ErrorKind, Result};
use crate::api::identifiers::{partition_key_of_view, PartitionKey};
use crate::api::number::{all_finite, vector_is_finite, Distance, Float32};
use crate::api::search::lesser;
use crate::ordering::{
    bytes_less, bytes_less_is_total, bytes_less_is_transitive, comes_before_bytes,
};

verus! {

broadcast use partition_key_of_view;

/// The most assignment rounds.
pub const MAX_TRAINING_ROUNDS: usize = 10;

/// The most entries of one source scan page.
pub const ENTRY_SCAN_ITEMS: usize = 1_024;

/// The most bytes of one source scan page.
pub const ENTRY_SCAN_BYTES: usize = 1_048_576;

/// The number of Vector Records loaded by one point-read batch.
pub const RECORD_LOAD_BATCH: usize = 128;

/// The two target centroids trained from one source snapshot. The left one
/// leads the balanced cluster of half the entries, rounded down.
pub struct SplitCentroids {
    left: Vec<Float32>,
    right: Vec<Float32>,
}

impl SplitCentroids {
    /// The left centroid's components.
    pub closed spec fn spec_left(self) -> Seq<Float32> {
        self.left@
    }

    /// The right centroid's components.
    pub closed spec fn spec_right(self) -> Seq<Float32> {
        self.right@
    }

    /// Accepts two computed means; a component that is not finite is
    /// Corruption.
    pub fn new(left: Vec<Float32>, right: Vec<Float32>) -> (res: Result<Self>)
        ensures
            match res {
                Ok(centroids) => {
                    &&& all_finite(left@)
                    &&& all_finite(right@)
                    &&& centroids.spec_left() == left@
                    &&& centroids.spec_right() == right@
                },
                Err(error) => {
                    &&& !(all_finite(left@) && all_finite(right@))
                    &&& error == plain_error(ErrorKind::Corruption)
                },
            },
    {
        if !vector_is_finite(&left) || !vector_is_finite(&right) {
            return Err(Error::new(ErrorKind::Corruption));
        }
        Ok(SplitCentroids { left, right })
    }

    /// Returns the left target centroid.
    pub fn left(&self) -> (res: &Vec<Float32>)
        ensures
            res@ == self.spec_left(),
    {
        &self.left
    }

    /// Returns the right target centroid.
    pub fn right(&self) -> (res: &Vec<Float32>)
        ensures
            res@ == self.spec_right(),
    {
        &self.right
    }
}

/// The canonical identity of one training entry.
pub enum EntryId {
    /// A leaf entry's Record ID.
    Record(Vec<u8>),
    /// An internal entry's child.
    Child(PartitionKey),
}

/// The mathematical content of an [`EntryId`].
pub enum EntryIdView {
    /// A leaf entry's Record ID.
    Record(Seq<u8>),
    /// An internal entry's child.
    Child(u64),
}

impl View for EntryId {
    type V = EntryIdView;

    open spec fn view(&self) -> EntryIdView {
        match self {
            EntryId::Record(id) => EntryIdView::Record(id@),
            EntryId::Child(child) => EntryIdView::Child(child@),
        }
    }
}

/// The canonical order of identities: Record IDs by bytes, then children by
/// Partition Key.
pub open spec fn id_less(a: EntryIdView, b: EntryIdView) -> bool {
    match (a, b) {
        (EntryIdView::Record(x), EntryIdView::Record(y)) => bytes_less(x, y),
        (EntryIdView::Record(_), EntryIdView::Child(_)) => true,
        (EntryIdView::Child(_), EntryIdView::Record(_)) => false,
        (EntryIdView::Child(x), EntryIdView::Child(y)) => x < y,
    }
}

/// Of two identities exactly one comes first unless they are equal.
pub proof fn id_less_is_total(a: EntryIdView, b: EntryIdView)
    ensures
        id_less(a, b) || id_less(b, a) || a == b,
        !(id_less(a, b) && id_less(b, a)),
        a == b ==> !id_less(a, b),
{
    if a is Record && b is Record {
        bytes_less_is_total(a->Record_0, b->Record_0);
    }
}

/// The order of identities is transitive.
pub proof fn id_less_is_transitive(a: EntryIdView, b: EntryIdView, c: EntryIdView)
    requires
        id_less(a, b),
        id_less(b, c),
    ensures
        id_less(a, c),
{
    if a is Record && b is Record && c is Record {
        bytes_less_is_transitive(a->Record_0, b->Record_0, c->Record_0);
    }
}

impl EntryId {
    /// Returns whether this identity comes strictly before another.
    pub fn comes_before(&self, other: &EntryId) -> (res: bool)
        ensures
            res == id_less(self@, other@),
    {
        match (self, other) {
            (EntryId::Record(a), EntryId::Record(b)) => comes_before_bytes(a, b),
            (EntryId::Record(_), EntryId::Child(_)) => true,
            (EntryId::Child(_), EntryId::Record(_)) => false,
            (EntryId::Child(a), EntryId::Child(b)) => a.get() < b.get(),
        }
    }
}

/// One training entry: its identity and its routing-space vector.
pub struct TrainingEntry {
    /// The identity.
    pub id: EntryId,
    /// The vector.
    pub vector: Vec<Float32>,
}

/// The mathematical content of a [`TrainingEntry`].
pub struct TrainingEntryView {
    /// The identity.
    pub id: EntryIdView,
    /// The vector.
    pub vector: Seq<Float32>,
}

impl View for TrainingEntry {
    type V = TrainingEntryView;

    open spec fn view(&self) -> TrainingEntryView {
        TrainingEntryView { id: self.id@, vector: self.vector@ }
    }
}

/// The content of some entries.
pub open spec fn entry_views(entries: Seq<TrainingEntry>) -> Seq<TrainingEntryView> {
    Seq::new(entries.len(), |i: int| entries[i]@)
}

/// An ordered sequence with one more entry, behind its equals.
pub open spec fn entry_inserted(entries: Seq<TrainingEntryView>, one: TrainingEntryView) -> Seq<
    TrainingEntryView,
>
    decreases entries.len(),
{
    if entries.len() == 0 || !id_less(one.id, entries.last().id) {
        entries.push(one)
    } else {
        entry_inserted(entries.drop_last(), one).push(entries.last())
    }
}

/// Entries in canonical order; entries of one identity keep their order.
pub open spec fn canonical_entries(entries: Seq<TrainingEntryView>) -> Seq<TrainingEntryView>
    decreases entries.len(),
{
    if entries.len() == 0 {
        Seq::empty()
    } else {
        entry_inserted(canonical_entries(entries.drop_last()), entries.last())
    }
}

/// Whether no entry comes before an earlier one.
pub open spec fn in_canonical_order(entries: Seq<TrainingEntryView>) -> bool {
    forall|i: int, j: int|
        0 <= i < j < entries.len() ==> !id_less(
            (#[trigger] entries[j]).id,
            (#[trigger] entries[i]).id,
        )
}

proof fn entry_inserted_shape(entries: Seq<TrainingEntryView>, one: TrainingEntryView)
    requires
        in_canonical_order(entries),
    ensures
        in_canonical_order(entry_inserted(entries, one)),
        entry_inserted(entries, one).len() == entries.len() + 1,
        forall|e: TrainingEntryView| #[trigger]
            entry_inserted(entries, one).contains(e) <==> e == one || entries.contains(e),
    decreases entries.len(),
{
    let result = entry_inserted(entries, one);
    if entries.len() == 0 || !id_less(one.id, entries.last().id) {
        assert forall|i: int, j: int| 0 <= i < j < result.len() implies !id_less(
            (#[trigger] result[j]).id,
            (#[trigger] result[i]).id,
        ) by {
            if j == entries.len() {
                let last = entries.last().id;
                if i < entries.len() - 1 {
                    assert(!id_less(entries[entries.len() - 1].id, entries[i].id));
                }
                id_less_is_total(one.id, last);
                id_less_is_total(last, entries[i].id);
                id_less_is_total(one.id, entries[i].id);
                if id_less(one.id, entries[i].id) && id_less(entries[i].id, last) {
                    id_less_is_transitive(one.id, entries[i].id, last);
                }
            } else {
                assert(!id_less(entries[j].id, entries[i].id));
            }
        }
        assert forall|e: TrainingEntryView| #[trigger] result.contains(e) <==> e == one
            || entries.contains(e) by {
            entry_pushed(entries, one, e);
        }
    } else {
        let shorter = entries.drop_last();
        let last = entries.last();
        assert(in_canonical_order(shorter)) by {
            assert forall|i: int, j: int| 0 <= i < j < shorter.len() implies !id_less(
                (#[trigger] shorter[j]).id,
                (#[trigger] shorter[i]).id,
            ) by {
                assert(!id_less(entries[j].id, entries[i].id));
            }
        }
        entry_inserted_shape(shorter, one);
        let inner = entry_inserted(shorter, one);
        assert forall|i: int, j: int| 0 <= i < j < result.len() implies !id_less(
            (#[trigger] result[j]).id,
            (#[trigger] result[i]).id,
        ) by {
            if j == inner.len() {
                assert(inner.contains(inner[i]));
                id_less_is_total(one.id, last.id);
                if inner[i] != one {
                    let k = choose|k: int| 0 <= k < shorter.len() && shorter[k] == inner[i];
                    assert(!id_less(entries[entries.len() - 1].id, entries[k].id));
                }
            } else {
                assert(!id_less(inner[j].id, inner[i].id));
            }
        }
        assert(entries =~= shorter.push(last));
        assert forall|e: TrainingEntryView| #[trigger] result.contains(e) <==> e == one
            || entries.contains(e) by {
            entry_pushed(inner, last, e);
            entry_pushed(shorter, last, e);
            assert(inner.contains(e) <==> e == one || shorter.contains(e));
        }
    }
}

proof fn entry_pushed(
    entries: Seq<TrainingEntryView>,
    last: TrainingEntryView,
    e: TrainingEntryView,
)
    ensures
        entries.push(last).contains(e) <==> entries.contains(e) || e == last,
{
    let more = entries.push(last);
    if entries.contains(e) {
        let k = choose|k: int| 0 <= k < entries.len() && entries[k] == e;
        assert(more[k] == e);
    }
    if e == last {
        assert(more[entries.len() as int] == e);
    }
    if more.contains(e) {
        let k = choose|k: int| 0 <= k < more.len() && more[k] == e;
        if k < entries.len() {
            assert(entries[k] == e);
        }
    }
}

/// Canonical order keeps exactly the given entries.
pub proof fn canonical_entries_shape(entries: Seq<TrainingEntryView>)
    ensures
        in_canonical_order(canonical_entries(entries)),
        canonical_entries(entries).len() == entries.len(),
        forall|e: TrainingEntryView| #[trigger]
            canonical_entries(entries).contains(e) <==> entries.contains(e),
    decreases entries.len(),
{
    if entries.len() > 0 {
        let shorter = entries.drop_last();
        canonical_entries_shape(shorter);
        entry_inserted_shape(canonical_entries(shorter), entries.last());
        assert(entries =~= shorter.push(entries.last()));
        assert forall|e: TrainingEntryView| #[trigger]
            canonical_entries(entries).contains(e) <==> entries.contains(e) by {
            entry_pushed(shorter, entries.last(), e);
            assert(canonical_entries(shorter).contains(e) <==> shorter.contains(e));
        }
    } else {
        assert forall|e: TrainingEntryView| #[trigger]
            canonical_entries(entries).contains(e) <==> entries.contains(e) by {
            assert(!entries.contains(e));
        }
    }
}

/// Whether no two entries share an identity.
pub open spec fn distinct_ids(entries: Seq<TrainingEntryView>) -> bool {
    forall|i: int, j: int|
        0 <= i < j < entries.len() ==> (#[trigger] entries[i]).id != (#[trigger] entries[j]).id
}

/// Training is a function of the entry set: however the entries of a source
/// are read, their canonical order is the same.
pub proof fn training_depends_on_the_entry_set(
    a: Seq<TrainingEntryView>,
    b: Seq<TrainingEntryView>,
)
    requires
        distinct_ids(a),
        distinct_ids(b),
        forall|e: TrainingEntryView| #[trigger] a.contains(e) <==> b.contains(e),
    ensures
        canonical_entries(a) == canonical_entries(b),
{
    canonical_entries_shape(a);
    canonical_entries_shape(b);
    let x = canonical_entries(a);
    let y = canonical_entries(b);
    canonical_entries_distinct(a);
    canonical_entries_distinct(b);
    assert forall|e: TrainingEntryView| #[trigger] x.contains(e) <==> y.contains(e) by {
        assert(a.contains(e) <==> b.contains(e));
    }
    same_sets_order_alike(x, y);
}

proof fn canonical_entries_distinct(entries: Seq<TrainingEntryView>)
    requires
        distinct_ids(entries),
    ensures
        distinct_ids(canonical_entries(entries)),
    decreases entries.len(),
{
    if entries.len() > 0 {
        let shorter = entries.drop_last();
        let last = entries.last();
        assert forall|i: int, j: int| 0 <= i < j < shorter.len() implies (
        #[trigger] shorter[i]).id != (#[trigger] shorter[j]).id by {
            assert(entries[i].id != entries[j].id);
        }
        canonical_entries_distinct(shorter);
        canonical_entries_shape(shorter);
        let before = canonical_entries(shorter);
        assert forall|i: int| 0 <= i < before.len() implies (#[trigger] before[i]).id
            != last.id by {
            assert(before.contains(before[i]));
            let k = choose|k: int| 0 <= k < shorter.len() && shorter[k] == before[i];
            assert(entries[k].id != entries[entries.len() - 1].id);
        }
        entry_inserted_distinct(before, last);
    }
}

proof fn entry_inserted_distinct(entries: Seq<TrainingEntryView>, one: TrainingEntryView)
    requires
        distinct_ids(entries),
        forall|i: int| 0 <= i < entries.len() ==> (#[trigger] entries[i]).id != one.id,
    ensures
        distinct_ids(entry_inserted(entries, one)),
        entry_inserted(entries, one).len() == entries.len() + 1,
        forall|i: int|
            0 <= i <= entries.len() ==> (#[trigger] entry_inserted(entries, one)[i]) == one
                || entries.contains(entry_inserted(entries, one)[i]),
    decreases entries.len(),
{
    let result = entry_inserted(entries, one);
    if entries.len() == 0 || !id_less(one.id, entries.last().id) {
        assert forall|i: int| 0 <= i <= entries.len() implies (#[trigger] result[i]) == one
            || entries.contains(result[i]) by {
            if i < entries.len() {
                assert(entries[i] == result[i]);
            }
        }
    } else {
        let shorter = entries.drop_last();
        let last = entries.last();
        assert forall|i: int, j: int| 0 <= i < j < shorter.len() implies (
        #[trigger] shorter[i]).id != (#[trigger] shorter[j]).id by {
            assert(entries[i].id != entries[j].id);
        }
        assert forall|i: int| 0 <= i < shorter.len() implies (#[trigger] shorter[i]).id
            != one.id by {
            assert(entries[i].id != one.id);
        }
        entry_inserted_distinct(shorter, one);
        let inner = entry_inserted(shorter, one);
        assert(entries[entries.len() - 1] == last);
        assert forall|i: int, j: int| 0 <= i < j < result.len() implies (#[trigger] result[i]).id
            != (#[trigger] result[j]).id by {
            if j == inner.len() {
                assert(result[i] == inner[i]);
                if inner[i] != one {
                    let k = choose|k: int| 0 <= k < shorter.len() && shorter[k] == inner[i];
                    assert(entries[k].id != entries[entries.len() - 1].id);
                }
            } else {
                assert(inner[i].id != inner[j].id);
            }
        }
        assert forall|i: int| 0 <= i <= entries.len() implies (#[trigger] result[i]) == one
            || entries.contains(result[i]) by {
            if i < inner.len() {
                assert(result[i] == inner[i]);
                if inner[i] != one {
                    let k = choose|k: int| 0 <= k < shorter.len() && shorter[k] == inner[i];
                    assert(entries[k] == inner[i]);
                }
            } else {
                assert(entries[entries.len() - 1] == result[i]);
            }
        }
    }
}

proof fn same_sets_order_alike(x: Seq<TrainingEntryView>, y: Seq<TrainingEntryView>)
    requires
        in_canonical_order(x),
        in_canonical_order(y),
        distinct_ids(x),
        distinct_ids(y),
        forall|e: TrainingEntryView| #[trigger] x.contains(e) <==> y.contains(e),
    ensures
        x == y,
    decreases x.len(),
{
    if x.len() == 0 {
        if y.len() > 0 {
            assert(y.contains(y[0]));
            assert(x.contains(y[0]));
        }
        assert(x =~= y);
    } else {
        assert(x.contains(x.last())) by {
            assert(x[x.len() - 1] == x.last());
        }
        assert(y.contains(x.last()));
        let p = choose|p: int| 0 <= p < y.len() && y[p] == x.last();
        assert(y.contains(y.last())) by {
            assert(y[y.len() - 1] == y.last());
        }
        assert(x.contains(y.last()));
        let q = choose|q: int| 0 <= q < x.len() && x[q] == y.last();
        id_less_is_total(x.last().id, y.last().id);
        if p < y.len() - 1 {
            assert(!id_less(y[y.len() - 1].id, y[p].id));
            assert(y[p].id != y[y.len() - 1].id);
        }
        if q < x.len() - 1 {
            assert(!id_less(x[x.len() - 1].id, x[q].id));
            assert(x[q].id != x[x.len() - 1].id);
        }
        assert(x.last() == y.last());
        let u = x.drop_last();
        let v = y.drop_last();
        assert forall|i: int, j: int| 0 <= i < j < u.len() implies !id_less(
            (#[trigger] u[j]).id,
            (#[trigger] u[i]).id,
        ) && u[i].id != u[j].id by {
            assert(!id_less(x[j].id, x[i].id));
            assert(x[i].id != x[j].id);
        }
        assert forall|i: int, j: int| 0 <= i < j < v.len() implies !id_less(
            (#[trigger] v[j]).id,
            (#[trigger] v[i]).id,
        ) && v[i].id != v[j].id by {
            assert(!id_less(y[j].id, y[i].id));
            assert(y[i].id != y[j].id);
        }
        assert(x =~= u.push(x.last()));
        assert(y =~= v.push(y.last()));
        assert forall|e: TrainingEntryView| #[trigger] u.contains(e) <==> v.contains(e) by {
            entry_pushed(u, x.last(), e);
            entry_pushed(v, y.last(), e);
            assert(x.contains(e) <==> y.contains(e));
            if u.contains(e) {
                let k = choose|k: int| 0 <= k < u.len() && u[k] == e;
                assert(x[k].id != x[x.len() - 1].id);
            }
            if v.contains(e) {
                let k = choose|k: int| 0 <= k < v.len() && v[k] == e;
                assert(y[k].id != y[y.len() - 1].id);
            }
        }
        same_sets_order_alike(u, v);
    }
}

/// Whether entries can be trained: at least two, each of the given dimension
/// with finite components.
pub open spec fn trainable(entries: Seq<TrainingEntryView>, dimension: int) -> bool {
    &&& entries.len() >= 2
    &&& forall|i: int|
        0 <= i < entries.len() ==> sound_vector((#[trigger] entries[i]).vector, dimension)
}

/// Whether a vector has the given dimension and finite components.
pub open spec fn sound_vector(vector: Seq<Float32>, dimension: int) -> bool {
    vector.len() == dimension && all_finite(vector)
}

proof fn entry_inserted_at(
    entries: Seq<TrainingEntryView>,
    one: TrainingEntryView,
    position: int,
)
    requires
        0 <= position <= entries.len(),
        forall|i: int| position <= i < entries.len() ==> id_less(one.id, (#[trigger] entries[i]).id),
        position > 0 ==> !id_less(one.id, entries[position - 1].id),
    ensures
        entry_inserted(entries, one) == entries.insert(position, one),
    decreases entries.len(),
{
    if position == entries.len() {
        assert(entries.insert(position, one) =~= entries.push(one));
    } else {
        let shorter = entries.drop_last();
        assert(entries.last() == entries[entries.len() - 1]);
        assert forall|i: int| position <= i < shorter.len() implies id_less(
            one.id,
            (#[trigger] shorter[i]).id,
        ) by {
            assert(shorter[i] == entries[i]);
        }
        if position > 0 {
            assert(shorter[position - 1] == entries[position - 1]);
        }
        entry_inserted_at(shorter, one, position);
        assert(entries.insert(position, one) =~= shorter.insert(position, one).push(
            entries.last(),
        ));
    }
}

/// Accepts one loaded source for training and puts its entries in canonical
/// order. Fewer than two entries, or a malformed vector, is Corruption.
pub fn prepare_training(dimension: usize, entries: Vec<TrainingEntry>) -> (res: Result<
    Vec<TrainingEntry>,
>)
    ensures
        match res {
            Ok(ordered) => {
                &&& trainable(entry_views(entries@), dimension as int)
                &&& entry_views(ordered@) == canonical_entries(entry_views(entries@))
                &&& ordered@.len() == entries@.len()
            },
            Err(error) => {
                &&& !trainable(entry_views(entries@), dimension as int)
                &&& error == plain_error(ErrorKind::Corruption)
            },
        },
{
    let ghost views = entry_views(entries@);
    if entries.len() < 2 {
        return Err(Error::new(ErrorKind::Corruption));
    }
    let mut at: usize = 0;
    while at < entries.len()
        invariant
            at <= entries@.len(),
            views == entry_views(entries@),
            forall|i: int|
                0 <= i < at ==> sound_vector((#[trigger] views[i]).vector, dimension as int),
        decreases entries@.len() - at,
    {
        let vector = &entries[at].vector;
        if vector.len() != dimension || !vector_is_finite(vector) {
            assert(!sound_vector(views[at as int].vector, dimension as int));
            return Err(Error::new(ErrorKind::Corruption));
        }
        at = at + 1;
    }
    Ok(order_entries(entries))
}

fn order_entries(entries: Vec<TrainingEntry>) -> (res: Vec<TrainingEntry>)
    ensures
        entry_views(res@) == canonical_entries(entry_views(entries@)),
        res@.len() == entries@.len(),
{
    let ghost views = entry_views(entries@);
    let ghost total = entries@;
    let mut rest = entries;
    let mut reversed: Vec<TrainingEntry> = Vec::new();
    while rest.len() > 0
        invariant
            rest@.len() + reversed@.len() == total.len(),
            rest@ == total.take(rest@.len() as int),
            forall|i: int|
                0 <= i < reversed@.len() ==> #[trigger] reversed@[i] == total[total.len() - 1 - i],
        decreases rest@.len(),
    {
        let ghost before = rest@;
        if let Some(entry) = rest.pop() {
            reversed.push(entry);
            assert(rest@ =~= total.take(rest@.len() as int));
        }
    }
    let mut ordered: Vec<TrainingEntry> = Vec::new();
    proof {
        canonical_entries_shape(Seq::empty());
        assert(entry_views(ordered@) =~= canonical_entries(views.take(0)));
    }
    while reversed.len() > 0
        invariant
            ordered@.len() + reversed@.len() == total.len(),
            views == entry_views(total),
            forall|i: int|
                0 <= i < reversed@.len() ==> #[trigger] reversed@[i] == total[total.len() - 1 - i],
            entry_views(ordered@) == canonical_entries(views.take(ordered@.len() as int)),
        decreases reversed@.len(),
    {
        let ghost at = ordered@.len() as int;
        if let Some(entry) = reversed.pop() {
            assert(entry == total[at]);
            let ghost before = entry_views(ordered@);
            let mut position: usize = ordered.len();
            while position > 0 && entry.id.comes_before(&ordered[position - 1].id)
                invariant
                    position <= ordered@.len(),
                    before == entry_views(ordered@),
                    forall|i: int|
                        position <= i < before.len() ==> id_less(
                            entry@.id,
                            (#[trigger] before[i]).id,
                        ),
                decreases position,
            {
                position = position - 1;
            }
            let ghost one = entry@;
            proof {
                entry_inserted_at(before, one, position as int);
                assert(views.take(at + 1).drop_last() =~= views.take(at));
                assert(views.take(at + 1).last() == views[at]);
            }
            ordered.insert(position, entry);
            assert(entry_views(ordered@) =~= before.insert(position as int, one));
        }
    }
    assert(views.take(ordered@.len() as int) =~= views);
    ordered
}

/// Whether `at` is the first of the farthest.
pub open spec fn first_farthest(distances: Seq<Distance>, at: int) -> bool {
    &&& 0 <= at < distances.len()
    &&& forall|i: int|
        0 <= i < distances.len() ==> (#[trigger] distances[i]).rank <= distances[at].rank
    &&& forall|i: int| 0 <= i < at ==> (#[trigger] distances[i]).rank < distances[at].rank
}

/// Returns the position of the farthest entry; a tie keeps the smaller
/// identity.
pub fn farthest(distances: &Vec<Distance>) -> (res: usize)
    requires
        distances@.len() > 0,
    ensures
        first_farthest(distances@, res as int),
        res < distances@.len(),
        forall|i: int|
            0 <= i < distances@.len() ==> (#[trigger] distances@[i]).rank
                <= distances@[res as int].rank,
        forall|i: int|
            0 <= i < res ==> (#[trigger] distances@[i]).rank < distances@[res as int].rank,
{
    let mut farthest: usize = 0;
    let mut at: usize = 1;
    while at < distances.len()
        invariant
            farthest < at <= distances@.len(),
            forall|i: int|
                0 <= i < at ==> (#[trigger] distances@[i]).rank <= distances@[farthest as int].rank,
            forall|i: int|
                0 <= i < farthest ==> (#[trigger] distances@[i]).rank
                    < distances@[farthest as int].rank,
        decreases distances@.len() - at,
    {
        if distances[at].rank > distances[farthest].rank {
            farthest = at;
        }
        at = at + 1;
    }
    farthest
}

/// Whether one entry is assigned left before another: by the difference of its
/// distances to the left and right centroids, then by position.
pub open spec fn assigned_before(differences: Seq<Distance>, a: int, b: int) -> bool {
    differences[a].rank < differences[b].rank || (differences[a].rank == differences[b].rank && a
        < b)
}

/// The number of left members among the first `n` entries.
pub open spec fn lefts(assignment: Seq<bool>, n: nat) -> nat
    decreases n,
{
    if n == 0 {
        0
    } else {
        lefts(assignment, (n - 1) as nat) + if assignment[n - 1] {
            1nat
        } else {
            0nat
        }
    }
}

/// Whether an assignment is balanced: it has exactly `half` left members, and
/// each of them is assigned before every right member.
pub open spec fn balanced(differences: Seq<Distance>, assignment: Seq<bool>, half: nat) -> bool {
    &&& assignment.len() == differences.len()
    &&& lefts(assignment, assignment.len()) == half
    &&& forall|i: int, j: int|
        0 <= i < assignment.len() && 0 <= j < assignment.len() && #[trigger] assignment[i]
            && !#[trigger] assignment[j] ==> assigned_before(differences, i, j)
}

/// There is only one balanced assignment of given differences.
pub proof fn balanced_assignments_are_unique(
    differences: Seq<Distance>,
    a: Seq<bool>,
    b: Seq<bool>,
    half: nat,
)
    requires
        balanced(differences, a, half),
        balanced(differences, b, half),
    ensures
        a == b,
{
    if a != b {
        assert(!(a =~= b));
        let i = choose|i: int| 0 <= i < a.len() && a[i] != b[i];
        if a[i] {
            assert forall|j: int| 0 <= j < a.len() && #[trigger] b[j] implies a[j] by {
                if !a[j] {
                    assert(assigned_before(differences, i, j));
                    assert(assigned_before(differences, j, i));
                }
            }
            lefts_contained(b, a, i, a.len());
        } else {
            assert forall|j: int| 0 <= j < a.len() && #[trigger] a[j] implies b[j] by {
                if !b[j] {
                    assert(assigned_before(differences, i, j));
                    assert(assigned_before(differences, j, i));
                }
            }
            lefts_contained(a, b, i, a.len());
        }
    }
}

proof fn lefts_contained(inner: Seq<bool>, outer: Seq<bool>, extra: int, n: nat)
    requires
        inner.len() == outer.len(),
        n <= inner.len(),
        forall|j: int| 0 <= j < inner.len() && #[trigger] inner[j] ==> outer[j],
        0 <= extra < inner.len(),
        outer[extra],
        !inner[extra],
    ensures
        lefts(inner, n) <= lefts(outer, n),
        extra < n ==> lefts(inner, n) < lefts(outer, n),
    decreases n,
{
    if n > 0 {
        lefts_contained(inner, outer, extra, (n - 1) as nat);
    }
}

fn assignment_order(differences: &Vec<Distance>) -> (res: Vec<usize>)
    ensures
        res@.len() == differences@.len(),
        forall|k: int| 0 <= k < res@.len() ==> (#[trigger] res@[k]) < differences@.len(),
        forall|a: int, b: int|
            0 <= a < b < res@.len() ==> assigned_before(
                differences@,
                (#[trigger] res@[a]) as int,
                (#[trigger] res@[b]) as int,
            ),
        forall|p: usize| p < differences@.len() ==> #[trigger] res@.contains(p),
{
    let mut order: Vec<usize> = Vec::new();
    let mut at: usize = 0;
    while at < differences.len()
        invariant
            at <= differences@.len(),
            order@.len() == at,
            forall|k: int| 0 <= k < at ==> (#[trigger] order@[k]) < at,
            forall|a: int, b: int|
                0 <= a < b < at ==> assigned_before(
                    differences@,
                    (#[trigger] order@[a]) as int,
                    (#[trigger] order@[b]) as int,
                ),
            forall|p: usize| p < at ==> #[trigger] order@.contains(p),
        decreases differences@.len() - at,
    {
        let difference = differences[at];
        let ghost before = order@;
        let mut low: usize = 0;
        let mut high: usize = order.len();
        while low < high
            invariant
                order@ == before,
                before.len() == at,
                at < differences@.len(),
                difference == differences@[at as int],
                low <= high <= before.len(),
                forall|k: int| 0 <= k < at ==> (#[trigger] before[k]) < at,
                forall|a: int, b: int|
                    0 <= a < b < at ==> assigned_before(
                        differences@,
                        (#[trigger] before[a]) as int,
                        (#[trigger] before[b]) as int,
                    ),
                forall|k: int|
                    0 <= k < low ==> assigned_before(
                        differences@,
                        (#[trigger] before[k]) as int,
                        at as int,
                    ),
                forall|k: int|
                    high <= k < before.len() ==> assigned_before(
                        differences@,
                        at as int,
                        (#[trigger] before[k]) as int,
                    ),
            decreases high - low,
        {
            let middle: usize = low + (high - low) / 2;
            if differences[order[middle]].rank <= difference.rank {
                proof {
                    assert forall|k: int| 0 <= k < middle + 1 implies assigned_before(
                        differences@,
                        (#[trigger] before[k]) as int,
                        at as int,
                    ) by {
                        if k < middle {
                            assert(assigned_before(
                                differences@,
                                before[k] as int,
                                before[middle as int] as int,
                            ));
                        }
                    }
                }
                low = middle + 1;
            } else {
                proof {
                    assert forall|k: int| middle <= k < before.len() implies assigned_before(
                        differences@,
                        at as int,
                        (#[trigger] before[k]) as int,
                    ) by {
                        if k > middle {
                            assert(assigned_before(
                                differences@,
                                before[middle as int] as int,
                                before[k] as int,
                            ));
                        }
                    }
                }
                high = middle;
            }
        }
        order.insert(low, at);
        proof {
            let p = low as int;
            assert(order@ == before.insert(p, at));
            assert forall|k: int| 0 <= k < at + 1 implies (#[trigger] order@[k]) < at + 1 by {
                if k < p {
                    assert(order@[k] == before[k]);
                } else if k > p {
                    assert(order@[k] == before[k - 1]);
                }
            }
            assert forall|a: int, b: int| 0 <= a < b < at + 1 implies assigned_before(
                differences@,
                (#[trigger] order@[a]) as int,
                (#[trigger] order@[b]) as int,
            ) by {
                let x = if a < p {
                    a
                } else {
                    a - 1
                };
                let y = if b < p {
                    b
                } else {
                    b - 1
                };
                if a == p {
                    assert(order@[b] == before[b - 1]);
                } else if b == p {
                    assert(order@[a] == before[a]);
                } else {
                    assert(order@[a] == before[x]);
                    assert(order@[b] == before[y]);
                }
            }
            assert forall|q: usize| q < at + 1 implies #[trigger] order@.contains(q) by {
                if q == at {
                    assert(order@[p] == q);
                } else {
                    assert(before.contains(q));
                    let k = choose|k: int| 0 <= k < before.len() && before[k] == q;
                    assert(order@[if k < p {
                        k
                    } else {
                        k + 1
                    }] == q);
                }
            }
        }
        at = at + 1;
    }
    order
}

proof fn lefts_marked(assignment: Seq<bool>, at: int, n: nat)
    requires
        0 <= at < assignment.len(),
        n <= assignment.len(),
        !assignment[at],
    ensures
        lefts(assignment.update(at, true), n) == lefts(assignment, n) + if at < n {
            1nat
        } else {
            0nat
        },
    decreases n,
{
    if n > 0 {
        lefts_marked(assignment, at, (n - 1) as nat);
    }
}

proof fn lefts_of_none(assignment: Seq<bool>, n: nat)
    requires
        n <= assignment.len(),
        forall|i: int| 0 <= i < assignment.len() ==> !#[trigger] assignment[i],
    ensures
        lefts(assignment, n) == 0,
    decreases n,
{
    if n > 0 {
        lefts_of_none(assignment, (n - 1) as nat);
    }
}

proof fn lefts_of_all(assignment: Seq<bool>, n: nat)
    requires
        n <= assignment.len(),
        forall|i: int| 0 <= i < n ==> #[trigger] assignment[i],
    ensures
        lefts(assignment, n) == n,
    decreases n,
{
    if n > 0 {
        lefts_of_all(assignment, (n - 1) as nat);
    }
}

proof fn first_right(differences: Seq<Distance>, assignment: Seq<bool>, n: int, some: int) -> (at: int)
    requires
        0 <= some < n <= assignment.len(),
        !assignment[some],
    ensures
        0 <= at < n,
        !assignment[at],
        forall|j: int|
            0 <= j < n && !#[trigger] assignment[j] && j != at ==> assigned_before(
                differences,
                at,
                j,
            ),
    decreases n,
{
    let last = n - 1;
    if forall|j: int| 0 <= j < last ==> #[trigger] assignment[j] {
        last
    } else {
        let other = choose|j: int| 0 <= j < last && !#[trigger] assignment[j];
        let before = first_right(differences, assignment, last, other);
        if !assignment[last] && assigned_before(differences, last, before) {
            last
        } else {
            before
        }
    }
}

/// Every half has its balanced assignment.
pub proof fn balanced_assignments_exist(differences: Seq<Distance>, half: nat) -> (assignment: Seq<
    bool,
>)
    requires
        half <= differences.len(),
    ensures
        balanced(differences, assignment, half),
    decreases half,
{
    if half == 0 {
        let none = Seq::new(differences.len(), |i: int| false);
        lefts_of_none(none, none.len());
        none
    } else {
        let before = balanced_assignments_exist(differences, (half - 1) as nat);
        if forall|j: int| 0 <= j < before.len() ==> #[trigger] before[j] {
            lefts_of_all(before, before.len());
            before
        } else {
            let some = choose|j: int| 0 <= j < before.len() && !#[trigger] before[j];
            let at = first_right(differences, before, before.len() as int, some);
            let after = before.update(at, true);
            lefts_marked(before, at, before.len());
            assert forall|i: int, j: int|
                0 <= i < after.len() && 0 <= j < after.len() && #[trigger] after[i]
                    && !#[trigger] after[j] implies assigned_before(differences, i, j) by {
                assert(!before[j]);
                if i != at {
                    assert(before[i]);
                }
            }
            after
        }
    }
}

/// One of some entries is the farthest.
pub proof fn farthest_exists(distances: Seq<Distance>) -> (at: int)
    requires
        distances.len() > 0,
    ensures
        first_farthest(distances, at),
    decreases distances.len(),
{
    let last = distances.len() - 1;
    if last == 0 {
        0
    } else {
        let shorter = distances.drop_last();
        let before = farthest_exists(shorter);
        assert forall|i: int| 0 <= i < last implies (#[trigger] distances[i]).rank
            <= distances[before].rank by {
            assert(shorter[i].rank <= shorter[before].rank);
        }
        assert forall|i: int| 0 <= i < before implies (#[trigger] distances[i]).rank
            < distances[before].rank by {
            assert(shorter[i].rank < shorter[before].rank);
        }
        if distances[last].rank > distances[before].rank {
            last
        } else {
            before
        }
    }
}

/// Assigns exactly `half` of the entries to the left cluster: those nearest to
/// the left centroid relative to the right, a tie to the smaller identity.
/// The mask marks left membership per entry.
pub fn assign(differences: &Vec<Distance>, half: usize) -> (res: Vec<bool>)
    requires
        half <= differences@.len(),
    ensures
        balanced(differences@, res@, half as nat),
        res@.len() == differences@.len(),
        lefts(res@, res@.len()) == half,
        forall|i: int, j: int|
            0 <= i < res@.len() && 0 <= j < res@.len() && #[trigger] res@[i] && !#[trigger] res@[j]
                ==> differences@[i].rank <= differences@[j].rank,
        forall|i: int, j: int|
            0 <= i < res@.len() && 0 <= j < res@.len() && #[trigger] res@[i] && !#[trigger] res@[j]
                && differences@[i].rank == differences@[j].rank ==> i < j,
{
    let order = assignment_order(differences);
    let mut assignment: Vec<bool> = Vec::new();
    let mut at: usize = 0;
    while at < differences.len()
        invariant
            at <= differences@.len(),
            assignment@.len() == at,
            forall|i: int| 0 <= i < at ==> !#[trigger] assignment@[i],
        decreases differences@.len() - at,
    {
        assignment.push(false);
        at = at + 1;
    }
    proof {
        lefts_of_none(assignment@, assignment@.len());
    }
    let mut marked: usize = 0;
    while marked < half
        invariant
            marked <= half <= differences@.len(),
            assignment@.len() == differences@.len(),
            order@.len() == differences@.len(),
            forall|k: int| 0 <= k < order@.len() ==> (#[trigger] order@[k]) < differences@.len(),
            forall|a: int, b: int|
                0 <= a < b < order@.len() ==> assigned_before(
                    differences@,
                    (#[trigger] order@[a]) as int,
                    (#[trigger] order@[b]) as int,
                ),
            forall|k: int|
                0 <= k < order@.len() ==> assignment@[(#[trigger] order@[k]) as int] == (k
                    < marked),
            lefts(assignment@, assignment@.len()) == marked,
        decreases half - marked,
    {
        let member: usize = order[marked];
        let ghost before = assignment@;
        proof {
            lefts_marked(before, member as int, before.len());
        }
        assignment.set(member, true);
        proof {
            assert(assignment@ == before.update(member as int, true));
            assert forall|k: int| 0 <= k < order@.len() implies assignment@[(
            #[trigger] order@[k]) as int] == (k < marked + 1) by {
                if k != marked {
                    if k < marked {
                        assert(assigned_before(
                            differences@,
                            order@[k] as int,
                            order@[marked as int] as int,
                        ));
                    } else {
                        assert(assigned_before(
                            differences@,
                            order@[marked as int] as int,
                            order@[k] as int,
                        ));
                    }
                }
            }
        }
        marked = marked + 1;
    }
    proof {
        assert forall|i: int, j: int|
            0 <= i < assignment@.len() && 0 <= j < assignment@.len() && #[trigger] assignment@[i]
                && !#[trigger] assignment@[j] implies assigned_before(differences@, i, j) by {
            assert(order@.contains(i as usize));
            assert(order@.contains(j as usize));
            let a = choose|a: int| 0 <= a < order@.len() && order@[a] == i as usize;
            let b = choose|b: int| 0 <= b < order@.len() && order@[b] == j as usize;
            assert(a < half <= b);
            assert(assigned_before(differences@, order@[a] as int, order@[b] as int));
        }
    }
    assignment
}

/// The rounds of one training run.
pub struct Rounds {
    /// The number of left members per round.
    pub half: usize,
    /// The last assignment, if any round ran.
    pub previous: Option<Vec<bool>>,
    /// The number of rounds run.
    pub rounds: usize,
}

/// One finished round.
pub struct Round {
    /// The round's assignment; the next centroids are its clusters' means.
    pub assignment: Vec<bool>,
    /// Whether training is over.
    pub done: bool,
}

/// Whether an assignment repeats the previous one.
pub open spec fn repeats(previous: Option<Vec<bool>>, assignment: Seq<bool>) -> bool {
    previous matches Some(found) && found@ == assignment
}

fn same_assignment(a: &Vec<bool>, b: &Vec<bool>) -> (res: bool)
    ensures
        res == (a@ == b@),
{
    if a.len() != b.len() {
        return false;
    }
    let mut at: usize = 0;
    while at < a.len()
        invariant
            at <= a@.len(),
            a@.len() == b@.len(),
            forall|i: int| 0 <= i < at ==> a@[i] == b@[i],
        decreases a@.len() - at,
    {
        if a[at] != b[at] {
            return false;
        }
        at = at + 1;
    }
    assert(a@ =~= b@);
    true
}

fn copy_assignment(assignment: &Vec<bool>) -> (res: Vec<bool>)
    ensures
        res@ == assignment@,
{
    let mut copy: Vec<bool> = Vec::new();
    let mut at: usize = 0;
    while at < assignment.len()
        invariant
            at <= assignment@.len(),
            copy@.len() == at,
            forall|i: int| 0 <= i < at ==> copy@[i] == assignment@[i],
        decreases assignment@.len() - at,
    {
        copy.push(assignment[at]);
        at = at + 1;
    }
    assert(copy@ =~= assignment@);
    copy
}

impl Rounds {
    /// Starts the rounds over some entries.
    pub fn new(entries: usize) -> (res: Self)
        ensures
            res.half == entries / 2,
            res.previous is None,
            res.rounds == 0,
    {
        Rounds { half: entries / 2, previous: None, rounds: 0 }
    }

    /// Runs one round over the entries' differences to the current centroids.
    /// Training is over when the assignment repeats or this was the last
    /// allowed round.
    pub fn round(&mut self, differences: &Vec<Distance>) -> (res: Round)
        requires
            old(self).half <= differences@.len(),
            old(self).rounds < MAX_TRAINING_ROUNDS,
        ensures
            balanced(differences@, res.assignment@, old(self).half as nat),
            res.done == (repeats(old(self).previous, res.assignment@) || old(self).rounds + 1
                == MAX_TRAINING_ROUNDS),
            final(self).half == old(self).half,
            final(self).previous is Some,
            final(self).previous->0@ == res.assignment@,
            final(self).rounds == old(self).rounds + 1,
            !res.done ==> final(self).rounds < MAX_TRAINING_ROUNDS,
    {
        let assignment = assign(differences, self.half);
        let stable = match &self.previous {
            Some(previous) => same_assignment(previous, &assignment),
            None => false,
        };
        self.previous = Some(copy_assignment(&assignment));
        self.rounds = self.rounds + 1;
        let done = stable || self.rounds == MAX_TRAINING_ROUNDS;
        Round { assignment, done }
    }
}

/// Returns the number of members of one cluster.
pub fn cluster_size(assignment: &Vec<bool>, left: bool) -> (res: usize)
    ensures
        left ==> res == lefts(assignment@, assignment@.len()),
        !left ==> res == assignment@.len() - lefts(assignment@, assignment@.len()),
{
    let mut count: usize = 0;
    let mut at: usize = 0;
    while at < assignment.len()
        invariant
            at <= assignment@.len(),
            count <= at,
            left ==> count == lefts(assignment@, at as nat),
            !left ==> count == at - lefts(assignment@, at as nat),
        decreases assignment@.len() - at,
    {
        if assignment[at] == left {
            count = count + 1;
        }
        at = at + 1;
    }
    count
}

/// Neither cluster of a balanced assignment of a trainable source is empty,
/// and they differ in size by at most one.
pub proof fn clusters_are_balanced(differences: Seq<Distance>, assignment: Seq<bool>)
    requires
        differences.len() >= 2,
        balanced(differences, assignment, differences.len() / 2),
    ensures
        ({
            let left = lefts(assignment, assignment.len());
            let right = assignment.len() - left;
            1 <= left <= right <= left + 1
        }),
{
}

/// Returns the record-load batches of a leaf source: half-open position
/// ranges, each full but the last.
pub fn record_batches(records: usize) -> (res: Vec<(usize, usize)>)
    ensures
        res@.len() == (records + RECORD_LOAD_BATCH - 1) / RECORD_LOAD_BATCH as int,
        forall|i: int|
            0 <= i < res@.len() ==> (#[trigger] res@[i]).0 == i * RECORD_LOAD_BATCH && res@[i].1
                == lesser((i + 1) * RECORD_LOAD_BATCH, records as int),
        records == 0 ==> res@.len() == 0,
        records > 0 ==> res@.len() > 0 && res@[0].0 == 0 && res@.last().1 == records,
        forall|i: int|
            0 <= i < res@.len() ==> (#[trigger] res@[i]).0 < res@[i].1 <= res@[i].0 + 128,
        forall|i: int, j: int|
            0 <= i && j == i + 1 && j < res@.len() ==> (#[trigger] res@[i]).1 == (
            #[trigger] res@[j]).0,
{
    let mut batches: Vec<(usize, usize)> = Vec::new();
    let mut from: usize = 0;
    while from < records
        invariant
            from <= records,
            from == lesser(batches@.len() * RECORD_LOAD_BATCH, records as int),
            batches@.len() == (from + RECORD_LOAD_BATCH - 1) / RECORD_LOAD_BATCH as int,
            forall|i: int|
                0 <= i < batches@.len() ==> (#[trigger] batches@[i]).0 == i * RECORD_LOAD_BATCH
                    && batches@[i].1 == lesser((i + 1) * RECORD_LOAD_BATCH, records as int),
        decreases records - from,
    {
        let to: usize = if records - from <= RECORD_LOAD_BATCH {
            records
        } else {
            from + RECORD_LOAD_BATCH
        };
        batches.push((from, to));
        from = to;
    }
    batches
}

/// Joins loaded vectors with their Record IDs; a record that is absent or no
/// longer usable is Corruption.
pub fn join_records(ids: Vec<Vec<u8>>, vectors: Vec<Option<Vec<Float32>>>) -> (res: Result<
    Vec<TrainingEntry>,
>)
    requires
        ids@.len() == vectors@.len(),
    ensures
        match res {
            Ok(entries) => {
                &&& entries@.len() == ids@.len()
                &&& forall|i: int|
                    0 <= i < entries@.len() ==> vectors@[i] is Some && (#[trigger] entries@[i])@
                        == (TrainingEntryView {
                        id: EntryIdView::Record(ids@[i]@),
                        vector: vectors@[i]->0@,
                    })
            },
            Err(error) => {
                &&& exists|i: int| 0 <= i < vectors@.len() && #[trigger] vectors@[i] is None
                &&& error == plain_error(ErrorKind::Corruption)
            },
        },
{
    let ghost all_ids = ids@;
    let ghost all_vectors = vectors@;
    let mut rest_ids = ids;
    let mut rest_vectors = vectors;
    let mut reversed: Vec<TrainingEntry> = Vec::new();
    while rest_ids.len() > 0
        invariant
            all_ids.len() == all_vectors.len(),
            all_vectors == vectors@,
            rest_ids@ == all_ids.take(rest_ids@.len() as int),
            rest_vectors@ == all_vectors.take(rest_ids@.len() as int),
            rest_vectors@.len() == rest_ids@.len(),
            rest_ids@.len() + reversed@.len() == all_ids.len(),
            forall|i: int|
                0 <= i < reversed@.len() ==> all_vectors[all_ids.len() - 1 - i] is Some && (
                #[trigger] reversed@[i])@ == (TrainingEntryView {
                    id: EntryIdView::Record(all_ids[all_ids.len() - 1 - i]@),
                    vector: all_vectors[all_ids.len() - 1 - i]->0@,
                }),
        decreases rest_ids@.len(),
    {
        let ghost last = rest_ids@.len() - 1;
        match (rest_ids.pop(), rest_vectors.pop()) {
            (Some(id), Some(vector)) => {
                assert(id == all_ids[last]);
                assert(vector == all_vectors[last]);
                match vector {
                    Some(vector) => reversed.push(
                        TrainingEntry { id: EntryId::Record(id), vector },
                    ),
                    None => {
                        assert(vectors@[last] is None);
                        return Err(Error::new(ErrorKind::Corruption));
                    },
                }
                assert(rest_ids@ =~= all_ids.take(rest_ids@.len() as int));
                assert(rest_vectors@ =~= all_vectors.take(rest_ids@.len() as int));
            },
            _ => {},
        }
    }
    let mut entries: Vec<TrainingEntry> = Vec::new();
    let ghost turned = reversed@;
    while reversed.len() > 0
        invariant
            turned.len() == all_ids.len(),
            reversed@ == turned.take(reversed@.len() as int),
            reversed@.len() + entries@.len() == turned.len(),
            forall|i: int|
                0 <= i < entries@.len() ==> #[trigger] entries@[i] == turned[turned.len() - 1 - i],
        decreases reversed@.len(),
    {
        if let Some(entry) = reversed.pop() {
            entries.push(entry);
            assert(reversed@ =~= turned.take(reversed@.len() as int));
        }
    }
    proof {
        assert forall|i: int| 0 <= i < entries@.len() implies all_vectors[i] is Some && (
        #[trigger] entries@[i])@ == (TrainingEntryView {
            id: EntryIdView::Record(all_ids[i]@),
            vector: all_vectors[i]->0@,
        }) by {
            let k = turned.len() - 1 - i;
            assert(entries@[i] == turned[k]);
            assert(all_vectors[all_ids.len() - 1 - k] is Some);
        }
    }
    Ok(entries)
}

/// Entries train in the order of their ids: records before children, records by
/// their bytes, children by their keys.
pub proof fn records_train_before_children(x: Seq<u8>, y: Seq<u8>, a: u64, b: u64)
    ensures
        id_less(EntryIdView::Record(x), EntryIdView::Child(a)),
        !id_less(EntryIdView::Child(a), EntryIdView::Record(x)),
        id_less(EntryIdView::Child(a), EntryIdView::Child(b)) <==> a < b,
        id_less(EntryIdView::Record(x), EntryIdView::Record(y)) <==> bytes_less(x, y),
{
}

/// Preparing for training only orders the entries: none comes, none goes, and
/// none comes before one of a smaller id.
pub proof fn training_orders_its_entries(entries: Seq<TrainingEntryView>, i: int, j: int)
    ensures
        canonical_entries(entries).len() == entries.len(),
        0 <= i < j < entries.len() ==> !id_less(
            canonical_entries(entries)[j].id,
            canonical_entries(entries)[i].id,
        ),
        0 <= i < entries.len() ==> canonical_entries(entries).contains(entries[i])
            && entries.contains(canonical_entries(entries)[i]),
{
    canonical_entries_shape(entries);
    if 0 <= i < entries.len() {
        assert(entries.contains(entries[i]));
        assert(canonical_entries(entries).contains(canonical_entries(entries)[i]));
    }
}

/// Only two or more entries train, each of them of the dimension and finite.
pub proof fn training_needs_two_sound_entries(
    entries: Seq<TrainingEntryView>,
    dimension: int,
    i: int,
)
    ensures
        entries.len() < 2 ==> !trainable(entries, dimension),
        0 <= i < entries.len() && entries[i].vector.len() != dimension ==> !trainable(
            entries,
            dimension,
        ),
        0 <= i < entries.len() && !all_finite(entries[i].vector) ==> !trainable(entries, dimension),
        entries.len() >= 2 && (forall|k: int|
            0 <= k < entries.len() ==> (#[trigger] entries[k]).vector.len() == dimension
                && all_finite(entries[k].vector)) ==> trainable(entries, dimension),
{
    if 0 <= i < entries.len() && trainable(entries, dimension) {
        assert(sound_vector(entries[i].vector, dimension));
    }
}

/// The left entries are counted one by one.
pub proof fn lefts_are_counted_one_by_one(assignment: Seq<bool>, n: nat)
    requires
        n < assignment.len(),
    ensures
        lefts(assignment, 0) == 0,
        assignment[n as int] ==> lefts(assignment, n + 1) == lefts(assignment, n) + 1,
        !assignment[n as int] ==> lefts(assignment, n + 1) == lefts(assignment, n),
{
}

} // verus!
