//! Beam members waiting at partitions, in the order in which a wave visits
//! them.

use vstd::prelude::*;

use crate::api::identifiers::{partition_key_of_view, PartitionKey};
use crate::api::number::Distance;

verus! {

broadcast use partition_key_of_view;

/// One vector of a batch waiting at one partition.
#[derive(Clone, Copy, Debug, PartialEq, Eq, Structural)]
pub struct Member {
    /// The vector's position within the batch.
    pub member: usize,
    /// The observed parent of the partition.
    pub parent: Option<PartitionKey>,
    /// The distance of the edge that reached the partition.
    pub distance: Distance,
}

/// Where members wait: a partition and the level it must sit at.
#[derive(Clone, Copy, Debug, PartialEq, Eq, Structural)]
pub struct WaveKey {
    /// The partition.
    pub partition: PartitionKey,
    /// The level the partition must sit at.
    pub level: Option<u32>,
}

/// The visiting order: by partition, then by level, no level first.
pub open spec fn key_less(a: WaveKey, b: WaveKey) -> bool {
    ||| a.partition@ < b.partition@
    ||| (a.partition@ == b.partition@ && match (a.level, b.level) {
        (None, Some(_)) => true,
        (Some(x), Some(y)) => x < y,
        _ => false,
    })
}

fn less(a: WaveKey, b: WaveKey) -> (res: bool)
    ensures
        res == key_less(a, b),
{
    if a.partition.get() != b.partition.get() {
        a.partition.get() < b.partition.get()
    } else {
        match (a.level, b.level) {
            (None, Some(_)) => true,
            (Some(x), Some(y)) => x < y,
            _ => false,
        }
    }
}

proof fn key_less_total(a: WaveKey, b: WaveKey)
    ensures
        key_less(a, b) || key_less(b, a) || a == b,
        !(key_less(a, b) && key_less(b, a)),
        !key_less(a, a),
{
    assert(PartitionKey::of(a.partition@) == a.partition);
    assert(PartitionKey::of(b.partition@) == b.partition);
}

/// The members waiting at one place.
pub struct Group {
    /// The place.
    pub key: WaveKey,
    /// The members, in arrival order.
    pub members: Vec<Member>,
}

/// Members by the place they wait at.
pub struct Waiting {
    groups: Vec<Group>,
}

/// The places of groups are in strictly ascending order.
pub open spec fn ascending_keys(groups: Seq<Group>) -> bool {
    forall|i: int, j: int|
        0 <= i < j < groups.len() ==> key_less((#[trigger] groups[i]).key, (
        #[trigger] groups[j]).key)
}

/// Whether some group waits at a place.
pub open spec fn has_key(groups: Seq<Group>, key: WaveKey) -> bool {
    exists|i: int| 0 <= i < groups.len() && (#[trigger] groups[i]).key == key
}

/// The members of the group waiting at a place.
pub open spec fn members_at(groups: Seq<Group>, key: WaveKey) -> Seq<Member> {
    groups[choose|i: int| 0 <= i < groups.len() && (#[trigger] groups[i]).key == key].members@
}

/// The groups as a map from places to members.
pub open spec fn as_map(groups: Seq<Group>) -> Map<WaveKey, Seq<Member>> {
    Map::new(|key: WaveKey| has_key(groups, key), |key: WaveKey| members_at(groups, key))
}

/// The members a map holds at a place, if any.
pub open spec fn waiting_at(map: Map<WaveKey, Seq<Member>>, key: WaveKey) -> Seq<Member> {
    if map.dom().contains(key) {
        map[key]
    } else {
        Seq::empty()
    }
}

proof fn group_of(groups: Seq<Group>, at: int)
    requires
        ascending_keys(groups),
        0 <= at < groups.len(),
    ensures
        as_map(groups).dom().contains(groups[at].key),
        as_map(groups)[groups[at].key] == groups[at].members@,
{
    let key = groups[at].key;
    assert(has_key(groups, key));
    let i = choose|i: int| 0 <= i < groups.len() && (#[trigger] groups[i]).key == key;
    key_less_total(key, key);
    if i < at {
        assert(key_less(groups[i].key, groups[at].key));
    } else if at < i {
        assert(key_less(groups[at].key, groups[i].key));
    }
}

impl View for Waiting {
    type V = Map<WaveKey, Seq<Member>>;

    closed spec fn view(&self) -> Map<WaveKey, Seq<Member>> {
        as_map(self.groups@)
    }
}

impl Waiting {
    /// Whether the groups are in visiting order.
    pub closed spec fn well_formed(self) -> bool {
        ascending_keys(self.groups@)
    }

    /// The groups in visiting order.
    pub closed spec fn ordered(self) -> Seq<Group> {
        self.groups@
    }

    /// The map is what the ordered groups say.
    pub proof fn view_is_ordered(&self)
        ensures
            self@ == as_map(self.ordered()),
            self.well_formed() == ascending_keys(self.ordered()),
    {
    }

    /// The ordered group at a position is the map's entry at its place.
    pub proof fn ordered_entry(&self, at: int)
        requires
            self.well_formed(),
            0 <= at < self.ordered().len(),
        ensures
            self@.dom().contains(self.ordered()[at].key),
            self@[self.ordered()[at].key] == self.ordered()[at].members@,
    {
        group_of(self.groups@, at);
    }

    /// Nobody waits.
    pub fn new() -> (res: Self)
        ensures
            res.well_formed(),
            res@ == Map::<WaveKey, Seq<Member>>::empty(),
            res.ordered().len() == 0,
    {
        let res = Waiting { groups: Vec::new() };
        assert(res@ =~= Map::<WaveKey, Seq<Member>>::empty());
        res
    }

    /// Returns whether nobody waits.
    pub fn is_empty(&self) -> (res: bool)
        ensures
            res == (self.ordered().len() == 0),
            res == (self@.dom() == Set::<WaveKey>::empty()),
    {
        proof {
            if self.groups@.len() > 0 {
                assert(has_key(self.groups@, self.groups@[0].key));
                assert(self@.dom().contains(self.groups@[0].key));
            } else {
                assert(self@.dom() =~= Set::<WaveKey>::empty());
            }
        }
        self.groups.len() == 0
    }

    /// Returns the number of places.
    pub fn len(&self) -> (res: usize)
        ensures
            res == self.ordered().len(),
    {
        self.groups.len()
    }

    /// Returns the group at a position in visiting order.
    pub fn group(&self, at: usize) -> (res: &Group)
        requires
            at < self.ordered().len(),
        ensures
            *res == self.ordered()[at as int],
    {
        &self.groups[at]
    }

    /// Adds members behind those already waiting at a place.
    pub fn add_all(&mut self, key: WaveKey, members: Vec<Member>)
        requires
            old(self).well_formed(),
        ensures
            final(self).well_formed(),
            final(self)@ == old(self)@.insert(key, waiting_at(old(self)@, key) + members@),
    {
        let ghost before = self.groups@;
        let ghost map = self@;
        let mut position: usize = 0;
        while position < self.groups.len() && less(self.groups[position].key, key)
            invariant
                self.groups@ == before,
                position <= before.len(),
                forall|i: int| 0 <= i < position ==> key_less((#[trigger] before[i]).key, key),
            decreases before.len() - position,
        {
            position = position + 1;
        }
        if position < self.groups.len() && !less(key, self.groups[position].key) {
            proof {
                key_less_total(before[position as int].key, key);
                group_of(before, position as int);
            }
            let mut more = members;
            let ghost added = more@;
            let group = &mut self.groups[position];
            group.members.append(&mut more);
            proof {
                let after = self.groups@;
                assert(after.len() == before.len());
                assert(forall|i: int|
                    0 <= i < after.len() && i != position ==> after[i] == before[i]);
                assert(after[position as int].key == key);
                assert(after[position as int].members@ == before[position as int].members@
                    + added);
                assert(ascending_keys(after));
                let expected = map.insert(key, waiting_at(map, key) + added);
                assert forall|k: WaveKey| expected.dom().contains(k) <==> as_map(
                    after,
                ).dom().contains(k) by {
                    if has_key(before, k) {
                        let i = choose|i: int|
                            0 <= i < before.len() && (#[trigger] before[i]).key == k;
                        assert(after[i].key == k);
                    }
                    if has_key(after, k) {
                        let i = choose|i: int|
                            0 <= i < after.len() && (#[trigger] after[i]).key == k;
                        assert(before[i].key == k);
                    }
                    if k == key {
                        assert(after[position as int].key == k);
                    }
                }
                assert forall|k: WaveKey| expected.dom().contains(k) implies expected[k] == as_map(
                    after,
                )[k] by {
                    if k == key {
                        group_of(after, position as int);
                    } else {
                        let i = choose|i: int|
                            0 <= i < before.len() && (#[trigger] before[i]).key == k;
                        group_of(before, i);
                        group_of(after, i);
                    }
                }
                assert(as_map(after) =~= expected);
            }
        } else {
            let ghost added = members@;
            proof {
                if position < before.len() {
                    assert(key_less(key, before[position as int].key));
                }
                assert forall|i: int| position <= i < before.len() implies key_less(
                    key,
                    (#[trigger] before[i]).key,
                ) by {
                    if i > position {
                        assert(key_less(before[position as int].key, before[i].key));
                    }
                }
                assert(!has_key(before, key)) by {
                    if has_key(before, key) {
                        let i = choose|i: int|
                            0 <= i < before.len() && (#[trigger] before[i]).key == key;
                        key_less_total(key, key);
                        if i < position {
                            assert(key_less(before[i].key, key));
                        } else {
                            assert(key_less(key, before[i].key));
                        }
                    }
                }
            }
            self.groups.insert(position, Group { key, members });
            proof {
                let after = self.groups@;
                let p = position as int;
                assert(after =~= before.insert(p, after[p]));
                assert forall|i: int, j: int| 0 <= i < j < after.len() implies key_less(
                    (#[trigger] after[i]).key,
                    (#[trigger] after[j]).key,
                ) by {
                    let a = if i < p {
                        i
                    } else {
                        i - 1
                    };
                    let b = if j < p {
                        j
                    } else {
                        j - 1
                    };
                    if i == p {
                        assert(after[j] == before[b]);
                    } else if j == p {
                        assert(after[i] == before[a]);
                    } else {
                        assert(after[i] == before[a]);
                        assert(after[j] == before[b]);
                        assert(key_less(before[a].key, before[b].key));
                    }
                }
                assert(Seq::<Member>::empty() + added =~= added);
                let expected = map.insert(key, waiting_at(map, key) + added);
                assert forall|k: WaveKey| expected.dom().contains(k) <==> as_map(
                    after,
                ).dom().contains(k) by {
                    if has_key(before, k) {
                        let i = choose|i: int|
                            0 <= i < before.len() && (#[trigger] before[i]).key == k;
                        if i < p {
                            assert(after[i].key == k);
                        } else {
                            assert(after[i + 1].key == k);
                        }
                    }
                    if has_key(after, k) {
                        let i = choose|i: int|
                            0 <= i < after.len() && (#[trigger] after[i]).key == k;
                        if i < p {
                            assert(before[i].key == k);
                        } else if i > p {
                            assert(before[i - 1].key == k);
                        }
                    }
                    if k == key {
                        assert(after[p].key == k);
                    }
                }
                assert forall|k: WaveKey| expected.dom().contains(k) implies expected[k] == as_map(
                    after,
                )[k] by {
                    if k == key {
                        group_of(after, p);
                    } else {
                        let i = choose|i: int|
                            0 <= i < before.len() && (#[trigger] before[i]).key == k;
                        group_of(before, i);
                        if i < p {
                            group_of(after, i);
                        } else {
                            group_of(after, i + 1);
                        }
                    }
                }
                assert(as_map(after) =~= expected);
            }
        }
    }

    /// Adds one member behind those already waiting at a place.
    pub fn add_one(&mut self, key: WaveKey, member: Member)
        requires
            old(self).well_formed(),
        ensures
            final(self).well_formed(),
            final(self)@ == old(self)@.insert(key, waiting_at(old(self)@, key).push(member)),
    {
        let mut members: Vec<Member> = Vec::new();
        members.push(member);
        let ghost at = waiting_at(self@, key);
        assert(at + members@ =~= at.push(member));
        self.add_all(key, members);
    }

    /// Takes the first group in visiting order.
    pub fn pop_first(&mut self) -> (res: Option<Group>)
        requires
            old(self).well_formed(),
        ensures
            final(self).well_formed(),
            match res {
                Some(group) => {
                    &&& old(self)@.dom().contains(group.key)
                    &&& old(self)@[group.key] == group.members@
                    &&& forall|key: WaveKey| #[trigger]
                        old(self)@.dom().contains(key) ==> key == group.key || key_less(
                            group.key,
                            key,
                        )
                    &&& final(self)@ == old(self)@.remove(group.key)
                    &&& old(self).ordered().len() > 0
                    &&& final(self).ordered() == old(self).ordered().remove(0)
                },
                None => old(self)@.dom() == Set::<WaveKey>::empty() && *final(self) == *old(self),
            },
    {
        let ghost before = self.groups@;
        let ghost map = self@;
        if self.groups.len() == 0 {
            assert(self@.dom() =~= Set::<WaveKey>::empty());
            return None;
        }
        let group = self.groups.remove(0);
        proof {
            let after = self.groups@;
            assert(after =~= before.remove(0));
            group_of(before, 0);
            assert forall|i: int, j: int| 0 <= i < j < after.len() implies key_less(
                (#[trigger] after[i]).key,
                (#[trigger] after[j]).key,
            ) by {
                assert(after[i] == before[i + 1]);
                assert(after[j] == before[j + 1]);
            }
            assert forall|key: WaveKey| #[trigger] map.dom().contains(key) implies key == group.key
                || key_less(group.key, key) by {
                let i = choose|i: int| 0 <= i < before.len() && (#[trigger] before[i]).key == key;
                if i > 0 {
                    assert(key_less(before[0].key, before[i].key));
                }
            }
            let expected = map.remove(group.key);
            assert forall|k: WaveKey| expected.dom().contains(k) <==> as_map(after).dom().contains(
                k,
            ) by {
                if has_key(before, k) && k != group.key {
                    let i = choose|i: int| 0 <= i < before.len() && (#[trigger] before[i]).key == k;
                    assert(after[i - 1].key == k);
                }
                if has_key(after, k) {
                    let i = choose|i: int| 0 <= i < after.len() && (#[trigger] after[i]).key == k;
                    assert(before[i + 1].key == k);
                    key_less_total(k, k);
                    assert(key_less(before[0].key, before[i + 1].key));
                }
            }
            assert forall|k: WaveKey| expected.dom().contains(k) implies expected[k] == as_map(
                after,
            )[k] by {
                let i = choose|i: int| 0 <= i < before.len() && (#[trigger] before[i]).key == k;
                group_of(before, i);
                group_of(after, i - 1);
            }
            assert(as_map(after) =~= expected);
        }
        Some(group)
    }

    /// Splits off the groups waiting at one level.
    pub fn take_level(&mut self, level: Option<u32>) -> (res: Waiting)
        requires
            old(self).well_formed(),
        ensures
            res.well_formed(),
            final(self).well_formed(),
            res@ == old(self)@.restrict(
                old(self)@.dom().filter(|key: WaveKey| key.level == level),
            ),
            final(self)@ == old(self)@.restrict(
                old(self)@.dom().filter(|key: WaveKey| key.level != level),
            ),
    {
        let ghost whole = self@;
        let mut source = Waiting::new();
        core::mem::swap(&mut source, self);
        let mut taken = Waiting::new();
        let mut rest = Waiting::new();
        loop
            invariant
                source.well_formed(),
                taken.well_formed(),
                rest.well_formed(),
                forall|key: WaveKey| #[trigger]
                    source@.dom().contains(key) ==> whole.dom().contains(key) && source@[key]
                        == whole[key],
                forall|key: WaveKey| #[trigger]
                    taken@.dom().contains(key) ==> whole.dom().contains(key) && key.level == level
                        && taken@[key] == whole[key] && !source@.dom().contains(key),
                forall|key: WaveKey| #[trigger]
                    rest@.dom().contains(key) ==> whole.dom().contains(key) && key.level != level
                        && rest@[key] == whole[key] && !source@.dom().contains(key),
                forall|key: WaveKey| #[trigger]
                    whole.dom().contains(key) ==> source@.dom().contains(key)
                        || taken@.dom().contains(key) || rest@.dom().contains(key),
            ensures
                taken.well_formed(),
                rest.well_formed(),
                forall|key: WaveKey| #[trigger]
                    taken@.dom().contains(key) ==> whole.dom().contains(key) && key.level == level
                        && taken@[key] == whole[key],
                forall|key: WaveKey| #[trigger]
                    rest@.dom().contains(key) ==> whole.dom().contains(key) && key.level != level
                        && rest@[key] == whole[key],
                forall|key: WaveKey| #[trigger]
                    whole.dom().contains(key) ==> taken@.dom().contains(key)
                        || rest@.dom().contains(key),
            decreases source.ordered().len(),
        {
            let ghost before = source@;
            match source.pop_first() {
                None => {
                    assert(before.dom() =~= Set::<WaveKey>::empty());
                    break;
                },
                Some(group) => {
                    let ghost key = group.key;
                    let ghost members = group.members@;
                    assert(Seq::<Member>::empty() + members =~= members);
                    if group.key.level == level {
                        taken.add_all(group.key, group.members);
                    } else {
                        rest.add_all(group.key, group.members);
                    }
                },
            }
        }
        proof {
            let at_level = whole.restrict(whole.dom().filter(|key: WaveKey| key.level == level));
            let others = whole.restrict(whole.dom().filter(|key: WaveKey| key.level != level));
            assert(taken@ =~= at_level);
            assert(rest@ =~= others);
        }
        core::mem::swap(&mut rest, self);
        taken
    }
}

/// Waves visit partitions by their key and, at one partition, the unknown level
/// before the known ones and those in their order.
pub proof fn waves_visit_by_partition_and_level(a: WaveKey, b: WaveKey)
    ensures
        a.partition@ < b.partition@ ==> key_less(a, b) && !key_less(b, a),
        a.partition@ == b.partition@ && a.level is None && b.level is Some ==> key_less(a, b)
            && !key_less(b, a),
        a.partition@ == b.partition@ && a.level is Some && b.level is Some && a.level->0
            < b.level->0 ==> key_less(a, b) && !key_less(b, a),
        a == b ==> !key_less(a, b),
{
}

} // verus!
