//! An ordered table of values by byte string.

use vstd::prelude::*;

use crate::api::record::same_bytes;
use crate::ordering::{
    bytes_less, bytes_less_is_total, bytes_less_is_transitive, comes_before_bytes,
};

verus! {

/// One slot of a table.
pub struct Slot<V> {
    /// The key.
    pub key: Vec<u8>,
    /// The value.
    pub value: V,
}

/// Whether the keys are in strictly ascending order.
pub open spec fn keys_ascend<V>(slots: Seq<(Seq<u8>, V)>) -> bool {
    forall|i: int, j: int| 0 <= i < j < slots.len() ==> bytes_less(slots[i].0, slots[j].0)
}

/// Whether a key stands in a slot.
pub open spec fn keyed_at<V>(slots: Seq<(Seq<u8>, V)>, key: Seq<u8>, i: int) -> bool {
    0 <= i < slots.len() && slots[i].0 == key
}

/// The value of a key.
pub open spec fn lookup<V>(slots: Seq<(Seq<u8>, V)>, key: Seq<u8>) -> Option<V> {
    if exists|i: int| keyed_at(slots, key, i) {
        Some(slots[choose|i: int| keyed_at(slots, key, i)].1)
    } else {
        None
    }
}

/// The slots after a key was taken out.
pub open spec fn vacated<V>(slots: Seq<(Seq<u8>, V)>, key: Seq<u8>) -> Seq<(Seq<u8>, V)>
    decreases slots.len(),
{
    if slots.len() == 0 {
        slots
    } else if slots.last().0 == key {
        vacated(slots.drop_last(), key)
    } else {
        vacated(slots.drop_last(), key).push(slots.last())
    }
}

/// The slots after a value was put under a key, in key order.
pub open spec fn placed<V>(slots: Seq<(Seq<u8>, V)>, key: Seq<u8>, value: V) -> Seq<
    (Seq<u8>, V),
>
    decreases slots.len(),
{
    if slots.len() == 0 || bytes_less(slots.last().0, key) {
        slots.push((key, value))
    } else if slots.last().0 == key {
        slots.drop_last().push((key, value))
    } else {
        placed(slots.drop_last(), key, value).push(slots.last())
    }
}

proof fn placed_at<V>(slots: Seq<(Seq<u8>, V)>, key: Seq<u8>, value: V, at: int)
    requires
        keys_ascend(slots),
        0 <= at <= slots.len(),
        forall|i: int| 0 <= i < at ==> bytes_less((#[trigger] slots[i]).0, key),
        forall|i: int| at <= i < slots.len() ==> !bytes_less((#[trigger] slots[i]).0, key),
    ensures
        placed(slots, key, value) == if at < slots.len() && slots[at].0 == key {
            slots.update(at, (key, value))
        } else {
            slots.insert(at, (key, value))
        },
    decreases slots.len(),
{
    let entry = (key, value);
    if at < slots.len() {
        let last = slots.last();
        let shorter = slots.drop_last();
        assert(last == slots[slots.len() - 1]);
        if last.0 == key {
            if at < slots.len() - 1 {
                assert(bytes_less(slots[at].0, slots[slots.len() - 1].0));
            }
            assert(shorter.push(entry) =~= slots.update(at, entry));
        } else {
            assert forall|i: int| 0 <= i < at implies bytes_less(
                (#[trigger] shorter[i]).0,
                key,
            ) by {
                assert(shorter[i] == slots[i]);
            }
            assert forall|i: int| at <= i < shorter.len() implies !bytes_less(
                (#[trigger] shorter[i]).0,
                key,
            ) by {
                assert(shorter[i] == slots[i]);
            }
            assert(keys_ascend(shorter)) by {
                assert forall|i: int, j: int| 0 <= i < j < shorter.len() implies bytes_less(
                    shorter[i].0,
                    shorter[j].0,
                ) by {
                    assert(bytes_less(slots[i].0, slots[j].0));
                }
            }
            placed_at(shorter, key, value, at);
            if at < shorter.len() && slots[at].0 == key {
                assert(shorter[at] == slots[at]);
                assert(shorter.update(at, entry).push(last) =~= slots.update(at, entry));
            } else {
                if at < shorter.len() {
                    assert(shorter[at] == slots[at]);
                }
                assert(shorter.insert(at, entry).push(last) =~= slots.insert(at, entry));
            }
        }
    } else {
        assert(slots.push(entry) =~= slots.insert(at, entry));
        if slots.len() > 0 {
            assert(bytes_less(slots[slots.len() - 1].0, key));
        }
    }
}

proof fn lookup_at<V>(slots: Seq<(Seq<u8>, V)>, i: int)
    requires
        keys_ascend(slots),
        0 <= i < slots.len(),
    ensures
        lookup(slots, slots[i].0) == Some(slots[i].1),
{
    let key = slots[i].0;
    assert(keyed_at(slots, key, i));
    let j = choose|j: int| keyed_at(slots, key, j);
    assert(keyed_at(slots, key, j));
    bytes_less_is_total(key, key);
    if i < j {
        assert(bytes_less(slots[i].0, slots[j].0));
    } else if j < i {
        assert(bytes_less(slots[j].0, slots[i].0));
    }
}

proof fn key_place<V>(slots: Seq<(Seq<u8>, V)>, key: Seq<u8>) -> (at: int)
    requires
        keys_ascend(slots),
    ensures
        0 <= at <= slots.len(),
        forall|i: int| 0 <= i < at ==> bytes_less((#[trigger] slots[i]).0, key),
        forall|i: int| at <= i < slots.len() ==> !bytes_less((#[trigger] slots[i]).0, key),
    decreases slots.len(),
{
    if slots.len() == 0 {
        0
    } else {
        let last = slots.last();
        let shorter = slots.drop_last();
        assert forall|i: int, j: int| 0 <= i < j < shorter.len() implies bytes_less(
            shorter[i].0,
            shorter[j].0,
        ) by {
            assert(bytes_less(slots[i].0, slots[j].0));
        }
        if bytes_less(last.0, key) {
            assert forall|i: int| 0 <= i < slots.len() implies bytes_less(
                (#[trigger] slots[i]).0,
                key,
            ) by {
                if i < shorter.len() {
                    assert(bytes_less(slots[i].0, slots[slots.len() - 1].0));
                    bytes_less_is_transitive(slots[i].0, last.0, key);
                }
            }
            slots.len() as int
        } else {
            let at = key_place(shorter, key);
            assert forall|i: int| 0 <= i < at implies bytes_less((#[trigger] slots[i]).0, key) by {
                assert(shorter[i] == slots[i]);
            }
            assert forall|i: int| at <= i < slots.len() implies !bytes_less(
                (#[trigger] slots[i]).0,
                key,
            ) by {
                if i < shorter.len() {
                    assert(shorter[i] == slots[i]);
                }
            }
            at
        }
    }
}

/// Putting a value under a key keeps the key order, and changes the value of
/// that key and of no other.
pub proof fn placing_sets<V>(
    slots: Seq<(Seq<u8>, V)>,
    key: Seq<u8>,
    value: V,
    other: Seq<u8>,
)
    requires
        keys_ascend(slots),
    ensures
        keys_ascend(placed(slots, key, value)),
        lookup(placed(slots, key, value), other) == if other == key {
            Some(value)
        } else {
            lookup(slots, other)
        },
{
    let at = key_place(slots, key);
    placed_at(slots, key, value, at);
    let after = placed(slots, key, value);
    let found = at < slots.len() && slots[at].0 == key;
    if found {
        assert forall|i: int, j: int| 0 <= i < j < after.len() implies bytes_less(
            after[i].0,
            after[j].0,
        ) by {
            assert(bytes_less(slots[i].0, slots[j].0));
        }
    } else {
        assert forall|i: int| at <= i < slots.len() implies bytes_less(
            key,
            (#[trigger] slots[i]).0,
        ) by {
            bytes_less_is_total(key, slots[at].0);
            if i > at {
                bytes_less_is_transitive(key, slots[at].0, slots[i].0);
            }
        }
        assert forall|i: int, j: int| 0 <= i < j < after.len() implies bytes_less(
            after[i].0,
            after[j].0,
        ) by {
            let x = if i < at {
                i
            } else {
                i - 1
            };
            let y = if j < at {
                j
            } else {
                j - 1
            };
            if i == at {
                assert(after[j] == slots[y]);
            } else if j == at {
                assert(after[i] == slots[x]);
            } else {
                assert(after[i] == slots[x]);
                assert(after[j] == slots[y]);
                assert(bytes_less(slots[x].0, slots[y].0));
            }
        }
    }
    lookup_at(after, at);
    if other != key {
        if exists|i: int| keyed_at(slots, other, i) {
            let i = choose|i: int| keyed_at(slots, other, i);
            lookup_at(slots, i);
            if found || i < at {
                assert(after[i] == slots[i]);
                lookup_at(after, i);
            } else {
                assert(after[i + 1] == slots[i]);
                lookup_at(after, i + 1);
            }
        } else {
            assert forall|i: int| !keyed_at(after, other, i) by {
                if keyed_at(after, other, i) {
                    if found || i < at {
                        assert(keyed_at(slots, other, i));
                    } else {
                        assert(keyed_at(slots, other, i - 1));
                    }
                }
            }
        }
    }
}

/// Two tables with the same keys find a key at the same place.
pub proof fn same_lookup<V, W>(
    a: Seq<(Seq<u8>, V)>,
    b: Seq<(Seq<u8>, W)>,
    key: Seq<u8>,
)
    requires
        keys_ascend(a),
        keys_ascend(b),
        a.len() == b.len(),
        forall|i: int| 0 <= i < a.len() ==> (#[trigger] a[i]).0 == b[i].0,
    ensures
        (exists|i: int| keyed_at(a, key, i)) == (exists|i: int| keyed_at(b, key, i)),
        forall|i: int| #[trigger]
            keyed_at(a, key, i) ==> lookup(a, key) == Some(a[i].1) && lookup(b, key) == Some(b[i].1),
{
    assert forall|i: int| #[trigger] keyed_at(a, key, i) implies {
        &&& keyed_at(b, key, i)
        &&& lookup(a, key) == Some(a[i].1)
        &&& lookup(b, key) == Some(b[i].1)
    } by {
        lookup_at(a, i);
        lookup_at(b, i);
    }
    if exists|i: int| keyed_at(b, key, i) {
        let i = choose|i: int| keyed_at(b, key, i);
        assert(a[i].0 == b[i].0);
        assert(keyed_at(a, key, i));
    }
}

proof fn vacated_absent<V>(slots: Seq<(Seq<u8>, V)>, key: Seq<u8>)
    requires
        forall|i: int| 0 <= i < slots.len() ==> (#[trigger] slots[i]).0 != key,
    ensures
        vacated(slots, key) == slots,
    decreases slots.len(),
{
    if slots.len() > 0 {
        let shorter = slots.drop_last();
        assert forall|i: int| 0 <= i < shorter.len() implies (#[trigger] shorter[i]).0 != key by {
            assert(shorter[i] == slots[i]);
        }
        vacated_absent(shorter, key);
        assert(slots.last() == slots[slots.len() - 1]);
        assert(shorter.push(slots.last()) =~= slots);
    }
}

proof fn vacated_at<V>(slots: Seq<(Seq<u8>, V)>, key: Seq<u8>, at: int)
    requires
        keys_ascend(slots),
        0 <= at < slots.len(),
        slots[at].0 == key,
    ensures
        vacated(slots, key) == slots.remove(at),
        keys_ascend(slots.remove(at)),
        forall|i: int| 0 <= i < slots.remove(at).len() ==> (#[trigger] slots.remove(at)[i]).0
            != key,
    decreases slots.len(),
{
    let shorter = slots.drop_last();
    let last = slots.last();
    let after = slots.remove(at);
    assert forall|i: int| 0 <= i < slots.len() && i != at implies (#[trigger] slots[i]).0
        != key by {
        bytes_less_is_total(key, key);
        if i < at {
            assert(bytes_less(slots[i].0, slots[at].0));
        } else {
            assert(bytes_less(slots[at].0, slots[i].0));
        }
    }
    assert forall|i: int| 0 <= i < after.len() implies (#[trigger] after[i]).0 != key by {
        if i < at {
            assert(after[i] == slots[i]);
        } else {
            assert(after[i] == slots[i + 1]);
        }
    }
    assert forall|i: int, j: int| 0 <= i < j < after.len() implies bytes_less(
        after[i].0,
        after[j].0,
    ) by {
        let x = if i < at {
            i
        } else {
            i + 1
        };
        let y = if j < at {
            j
        } else {
            j + 1
        };
        assert(after[i] == slots[x]);
        assert(after[j] == slots[y]);
        assert(bytes_less(slots[x].0, slots[y].0));
    }
    if at == slots.len() - 1 {
        assert forall|i: int| 0 <= i < shorter.len() implies (#[trigger] shorter[i]).0 != key by {
            assert(shorter[i] == slots[i]);
        }
        vacated_absent(shorter, key);
        assert(after =~= shorter);
    } else {
        assert(last == slots[slots.len() - 1]);
        assert(keys_ascend(shorter)) by {
            assert forall|i: int, j: int| 0 <= i < j < shorter.len() implies bytes_less(
                shorter[i].0,
                shorter[j].0,
            ) by {
                assert(bytes_less(slots[i].0, slots[j].0));
            }
        }
        assert(shorter[at] == slots[at]);
        vacated_at(shorter, key, at);
        assert(shorter.remove(at).push(last) =~= after);
    }
}

/// Nothing is taken of a key that has no slot.
pub proof fn nothing_to_vacate<V>(slots: Seq<(Seq<u8>, V)>, key: Seq<u8>)
    requires
        keys_ascend(slots),
        lookup(slots, key) is None,
    ensures
        vacated(slots, key) == slots,
{
    assert forall|i: int| 0 <= i < slots.len() implies (#[trigger] slots[i]).0 != key by {
        lookup_at(slots, i);
    }
    vacated_absent(slots, key);
}

/// A value put under a key is the same whether the key was taken out first.
pub proof fn placing_fills_a_vacancy<V>(slots: Seq<(Seq<u8>, V)>, key: Seq<u8>, value: V)
    requires
        keys_ascend(slots),
    ensures
        placed(vacated(slots, key), key, value) == placed(slots, key, value),
{
    if lookup(slots, key) is None {
        nothing_to_vacate(slots, key);
    } else {
        let at = key_place(slots, key);
        let i = choose|i: int| keyed_at(slots, key, i);
        bytes_less_is_total(key, key);
        if at < i {
            assert(bytes_less(slots[at].0, slots[i].0));
        }
        assert(at == i);
        vacated_at(slots, key, at);
        let without = slots.remove(at);
        assert forall|j: int| 0 <= j < at implies bytes_less(
            (#[trigger] without[j]).0,
            key,
        ) by {
            assert(without[j] == slots[j]);
        }
        assert forall|j: int| at <= j < without.len() implies !bytes_less(
            (#[trigger] without[j]).0,
            key,
        ) by {
            assert(without[j] == slots[j + 1]);
        }
        placed_at(slots, key, value, at);
        placed_at(without, key, value, at);
        assert(without.insert(at, (key, value)) =~= slots.update(at, (key, value)));
    }
}

/// Taking a key out undoes putting a new one in.
pub proof fn taking_undoes_placing<V>(slots: Seq<(Seq<u8>, V)>, key: Seq<u8>, value: V)
    requires
        keys_ascend(slots),
        lookup(slots, key) is None,
    ensures
        vacated(placed(slots, key, value), key) == slots,
{
    let at = key_place(slots, key);
    if at < slots.len() {
        lookup_at(slots, at);
    }
    placed_at(slots, key, value, at);
    placing_sets(slots, key, value, key);
    let after = slots.insert(at, (key, value));
    vacated_at(after, key, at);
    assert(after.remove(at) =~= slots);
}

/// Taking a key out keeps the key order and every other key as it was.
pub proof fn vacating_keeps_others<V>(slots: Seq<(Seq<u8>, V)>, key: Seq<u8>, other: Seq<u8>)
    requires
        keys_ascend(slots),
    ensures
        keys_ascend(vacated(slots, key)),
        lookup(vacated(slots, key), other) == if other == key {
            None
        } else {
            lookup(slots, other)
        },
{
    if lookup(slots, key) is None {
        nothing_to_vacate(slots, key);
    } else {
        let at = choose|i: int| keyed_at(slots, key, i);
        vacated_at(slots, key, at);
        let after = slots.remove(at);
        if other != key && exists|i: int| keyed_at(slots, other, i) {
            let i = choose|i: int| keyed_at(slots, other, i);
            lookup_at(slots, i);
            if i < at {
                assert(after[i] == slots[i]);
                lookup_at(after, i);
            } else {
                assert(after[i - 1] == slots[i]);
                lookup_at(after, i - 1);
            }
        } else {
            assert forall|i: int| !keyed_at(after, other, i) by {
                if keyed_at(after, other, i) {
                    if other == key {
                        assert(after[i].0 != key);
                    } else if i < at {
                        assert(keyed_at(slots, other, i));
                    } else {
                        assert(keyed_at(slots, other, i + 1));
                    }
                }
            }
        }
    }
}

/// A table of values by byte string, in key order.
pub struct ByKey<V> {
    slots: Vec<Slot<V>>,
}

impl<V> ByKey<V> {
    /// The slots in key order.
    pub closed spec fn view(&self) -> Seq<(Seq<u8>, V)> {
        Seq::new(self.slots@.len(), |i: int| (self.slots@[i].key@, self.slots@[i].value))
    }

    #[verifier::type_invariant]
    spec fn ordered(self) -> bool {
        keys_ascend(self.view())
    }

    /// An empty table.
    pub fn new() -> (res: Self)
        ensures
            res@ == Seq::<(Seq<u8>, V)>::empty(),
    {
        let res = ByKey { slots: Vec::new() };
        assert(res@ =~= Seq::empty());
        res
    }

    /// Returns the number of slots.
    pub fn len(&self) -> (res: usize)
        ensures
            res == self@.len(),
            keys_ascend(self@),
    {
        proof {
            use_type_invariant(self);
        }
        self.slots.len()
    }

    /// Returns one slot.
    pub fn slot(&self, i: usize) -> (res: &Slot<V>)
        requires
            i < self@.len(),
        ensures
            res.key@ == self@[i as int].0,
            res.value == self@[i as int].1,
    {
        &self.slots[i]
    }

    fn position(&self, key: &Vec<u8>) -> (res: usize)
        ensures
            res <= self@.len(),
            keys_ascend(self@),
            forall|i: int| 0 <= i < res ==> bytes_less((#[trigger] self@[i]).0, key@),
            forall|i: int|
                res <= i < self@.len() ==> !bytes_less((#[trigger] self@[i]).0, key@),
    {
        proof {
            use_type_invariant(self);
        }
        let mut low: usize = 0;
        let mut high: usize = self.slots.len();
        while low < high
            invariant
                low <= high <= self@.len(),
                self@.len() == self.slots@.len(),
                keys_ascend(self@),
                forall|i: int| 0 <= i < low ==> bytes_less((#[trigger] self@[i]).0, key@),
                forall|i: int|
                    high <= i < self@.len() ==> !bytes_less((#[trigger] self@[i]).0, key@),
            decreases high - low,
        {
            let middle: usize = low + (high - low) / 2;
            let ghost here = self@[middle as int].0;
            assert(here == self.slots@[middle as int].key@);
            if comes_before_bytes(&self.slots[middle].key, key) {
                assert forall|i: int| 0 <= i < middle + 1 implies bytes_less(
                    (#[trigger] self@[i]).0,
                    key@,
                ) by {
                    if i < middle {
                        bytes_less_is_transitive(self@[i].0, here, key@);
                    }
                }
                low = middle + 1;
            } else {
                assert forall|i: int| middle <= i < self@.len() implies !bytes_less(
                    (#[trigger] self@[i]).0,
                    key@,
                ) by {
                    if i > middle && bytes_less(self@[i].0, key@) {
                        bytes_less_is_transitive(here, self@[i].0, key@);
                    }
                }
                high = middle;
            }
        }
        low
    }

    /// Returns the value of a key.
    pub fn get(&self, key: &Vec<u8>) -> (res: Option<&V>)
        ensures
            match res {
                Some(value) => lookup(self@, key@) == Some(*value),
                None => lookup(self@, key@) is None,
            },
    {
        let at: usize = self.position(key);
        if at < self.slots.len() && same_bytes(&self.slots[at].key, key) {
            proof {
                assert(self@[at as int].0 == key@);
                lookup_at(self@, at as int);
            }
            Some(&self.slots[at].value)
        } else {
            proof {
                self.absent_at(key@, at as int);
            }
            None
        }
    }

    proof fn absent_at(&self, key: Seq<u8>, at: int)
        requires
            keys_ascend(self@),
            0 <= at <= self@.len(),
            forall|i: int| 0 <= i < at ==> bytes_less((#[trigger] self@[i]).0, key),
            forall|i: int| at <= i < self@.len() ==> !bytes_less((#[trigger] self@[i]).0, key),
            at < self@.len() ==> self@[at].0 != key,
        ensures
            forall|i: int| !keyed_at(self@, key, i),
            forall|i: int| at <= i < self@.len() ==> bytes_less(key, (#[trigger] self@[i]).0),
    {
        assert forall|i: int| at <= i < self@.len() implies bytes_less(
            key,
            (#[trigger] self@[i]).0,
        ) by {
            bytes_less_is_total(key, self@[at].0);
            if i > at {
                bytes_less_is_transitive(key, self@[at].0, self@[i].0);
            }
        }
        assert forall|i: int| !keyed_at(self@, key, i) by {
            bytes_less_is_total(key, key);
            if keyed_at(self@, key, i) {
                assert(self@[i].0 == key);
            }
        }
    }

    /// Takes a key and its value out of the table.
    pub fn take(&mut self, key: &Vec<u8>) -> (res: Option<V>)
        ensures
            res == lookup(old(self)@, key@),
            final(self)@ == vacated(old(self)@, key@),
            keys_ascend(final(self)@),
    {
        let at: usize = self.position(key);
        let ghost before = self@;
        if at < self.slots.len() && same_bytes(&self.slots[at].key, key) {
            proof {
                assert(before[at as int].0 == key@);
                lookup_at(before, at as int);
                vacated_at(before, key@, at as int);
            }
            Some(self.take_at(at))
        } else {
            proof {
                self.absent_at(key@, at as int);
                assert forall|i: int| 0 <= i < before.len() implies (#[trigger] before[i]).0
                    != key@ by {
                    assert(!keyed_at(before, key@, i));
                }
                vacated_absent(before, key@);
            }
            None
        }
    }

    /// Takes one slot out of the table and returns its value.
    pub fn take_at(&mut self, at: usize) -> (res: V)
        requires
            at < old(self)@.len(),
        ensures
            res == old(self)@[at as int].1,
            final(self)@ == old(self)@.remove(at as int),
            keys_ascend(final(self)@),
    {
        proof {
            use_type_invariant(&*self);
        }
        let ghost before = self@;
        let mut slots: Vec<Slot<V>> = Vec::new();
        core::mem::swap(&mut slots, &mut self.slots);
        let taken = slots.remove(at);
        let ghost after = Seq::new(slots@.len(), |i: int| (slots@[i].key@, slots@[i].value));
        proof {
            assert(after =~= before.remove(at as int));
            vacated_at(before, before[at as int].0, at as int);
        }
        let mut restored = ByKey { slots };
        core::mem::swap(self, &mut restored);
        taken.value
    }

    /// Sets the value of a key.
    pub fn insert(&mut self, key: Vec<u8>, value: V)
        ensures
            final(self)@ == placed(old(self)@, key@, value),
            keys_ascend(old(self)@),
            keys_ascend(final(self)@),
    {
        let at: usize = self.position(&key);
        let ghost before = self@;
        let found = at < self.slots.len() && same_bytes(&self.slots[at].key, &key);
        let ghost name = key@;
        proof {
            placed_at(before, name, value, at as int);
            placing_sets(before, name, value, name);
        }
        let mut slots: Vec<Slot<V>> = Vec::new();
        core::mem::swap(&mut slots, &mut self.slots);
        if found {
            slots.set(at, Slot { key, value });
        } else {
            slots.insert(at, Slot { key, value });
        }
        proof {
            let after = Seq::new(slots@.len(), |i: int| (slots@[i].key@, slots@[i].value));
            if found {
                assert(after =~= before.update(at as int, (name, value)));
            } else {
                assert(after =~= before.insert(at as int, (name, value)));
            }
        }
        let mut restored = ByKey { slots };
        core::mem::swap(self, &mut restored);
    }
}

} // verus!
