//! Foreground mutation planning: routing groups, per-item application, and the
//! maintenance a committed batch discovers.
//!
//! One batch is one atomic operation. Items are routed together per Tree Key,
//! applied in input order, and fail as a whole with the input position of the
//! item to blame.

use vstd::prelude::*;

use crate::api::config::IndexConfig;
use crate::api::error::{plain_error, Error, ErrorKind, ErrorView, Result};
use crate::api::identifiers::{partition_key_of_view, FieldId, PartitionKey};
use crate::api::operation::{batch_view, Mutation, MutationOutcome, MutationView};
use crate::api::record::{copy_bytes, same_bytes, values_view, Record};
use crate::api::schema::{Value, ValueView};
use crate::maintenance::fixup::{is_actionable, selected_action};
use crate::maintenance::routing::{Incoming, Route};
use crate::ordering::{
    bytes_less, bytes_less_is_total, bytes_less_is_transitive, comes_before_bytes,
};
use crate::topology::PartitionHeader;

verus! {

broadcast use partition_key_of_view;

/// Where one record is stored: its Tree Key and its leaf.
pub struct RecordLocation {
    /// The encoded Tree Key.
    pub tree_key: Vec<u8>,
    /// The leaf.
    pub leaf: PartitionKey,
}

/// The mathematical content of a [`RecordLocation`].
pub struct LocationView {
    /// The encoded Tree Key.
    pub tree_key: Seq<u8>,
    /// The leaf.
    pub leaf: PartitionKey,
}

impl View for RecordLocation {
    type V = LocationView;

    open spec fn view(&self) -> LocationView {
        LocationView { tree_key: self.tree_key@, leaf: self.leaf }
    }
}

impl Clone for RecordLocation {
    fn clone(&self) -> (res: Self)
        ensures
            res@ == self@,
    {
        RecordLocation { tree_key: copy_bytes(&self.tree_key), leaf: self.leaf }
    }
}

/// The order of locations: Tree Key bytes, then Partition Key.
pub open spec fn location_less(a: LocationView, b: LocationView) -> bool {
    bytes_less(a.tree_key, b.tree_key) || (a.tree_key == b.tree_key && a.leaf@ < b.leaf@)
}

/// Of two locations exactly one comes first unless they are equal.
pub proof fn location_less_is_total(a: LocationView, b: LocationView)
    ensures
        location_less(a, b) || location_less(b, a) || a == b,
        !(location_less(a, b) && location_less(b, a)),
        a == b ==> !location_less(a, b),
{
    bytes_less_is_total(a.tree_key, b.tree_key);
    assert(PartitionKey::of(a.leaf@) == a.leaf);
    assert(PartitionKey::of(b.leaf@) == b.leaf);
}

/// The order of locations is transitive.
pub proof fn location_less_is_transitive(a: LocationView, b: LocationView, c: LocationView)
    requires
        location_less(a, b),
        location_less(b, c),
    ensures
        location_less(a, c),
{
    if bytes_less(a.tree_key, b.tree_key) && bytes_less(b.tree_key, c.tree_key) {
        bytes_less_is_transitive(a.tree_key, b.tree_key, c.tree_key);
    }
}

impl RecordLocation {
    fn comes_before(&self, other: &RecordLocation) -> (res: bool)
        ensures
            res == location_less(self@, other@),
    {
        if comes_before_bytes(&self.tree_key, &other.tree_key) {
            return true;
        }
        same_bytes(&self.tree_key, &other.tree_key) && self.leaf.get() < other.leaf.get()
    }

    fn same(&self, other: &RecordLocation) -> (res: bool)
        ensures
            res == (self@ == other@),
    {
        same_bytes(&self.tree_key, &other.tree_key) && self.leaf == other.leaf
    }
}

/// The content of some locations.
pub open spec fn location_views(locations: Seq<RecordLocation>) -> Seq<LocationView> {
    Seq::new(locations.len(), |i: int| locations[i]@)
}

/// Whether locations are in strictly ascending order.
pub open spec fn ascending_locations(locations: Seq<LocationView>) -> bool {
    forall|i: int, j: int|
        0 <= i < j < locations.len() ==> location_less(
            #[trigger] locations[i],
            #[trigger] locations[j],
        )
}

/// Distinct locations in ascending order.
pub struct LocationSet {
    sorted: Vec<RecordLocation>,
}

impl LocationSet {
    /// The locations, ascending.
    pub closed spec fn items(self) -> Seq<LocationView> {
        location_views(self.sorted@)
    }

    /// Whether the locations are distinct and in order.
    pub open spec fn well_formed(self) -> bool {
        ascending_locations(self.items())
    }

    /// The empty set.
    pub fn new() -> (res: Self)
        ensures
            res.well_formed(),
            res.items() == Seq::<LocationView>::empty(),
    {
        let res = LocationSet { sorted: Vec::new() };
        assert(res.items() =~= Seq::empty());
        res
    }

    /// Adds one location.
    pub fn insert(&mut self, location: RecordLocation)
        requires
            old(self).well_formed(),
        ensures
            final(self).well_formed(),
            forall|l: LocationView| #[trigger]
                final(self).items().contains(l) <==> old(self).items().contains(l) || l
                    == location@,
    {
        let ghost before = self.items();
        let mut position: usize = self.sorted.len();
        while position > 0 && !self.sorted[position - 1].comes_before(&location)
            invariant
                *self == *old(self),
                before == location_views(self.sorted@),
                position <= before.len(),
                forall|i: int|
                    position <= i < before.len() ==> !location_less(
                        #[trigger] before[i],
                        location@,
                    ),
            decreases position,
        {
            position = position - 1;
        }
        let ghost p = position as int;
        proof {
            if position > 0 {
                assert(location_less(before[p - 1], location@));
                assert forall|i: int| 0 <= i < p implies location_less(
                    #[trigger] before[i],
                    location@,
                ) by {
                    if i < p - 1 {
                        assert(location_less(before[i], before[p - 1]));
                        location_less_is_transitive(before[i], before[p - 1], location@);
                    }
                }
            }
        }
        if position < self.sorted.len() && self.sorted[position].same(&location) {
            assert(before[p] == location@);
            assert(before.contains(location@));
            return;
        }
        let ghost one = location@;
        self.sorted.insert(position, location);
        proof {
            let after = self.items();
            assert(after =~= before.insert(p, one));
            assert forall|i: int, j: int| 0 <= i < j < after.len() implies location_less(
                #[trigger] after[i],
                #[trigger] after[j],
            ) by {
                let x = if i < p {
                    i
                } else {
                    i - 1
                };
                let y = if j < p {
                    j
                } else {
                    j - 1
                };
                if i == p {
                    assert(after[j] == before[j - 1]);
                    location_less_is_total(before[p], one);
                    if j - 1 > p {
                        assert(location_less(before[p], before[j - 1]));
                        location_less_is_transitive(one, before[p], before[j - 1]);
                    }
                } else if j == p {
                    assert(after[i] == before[i]);
                } else {
                    assert(after[i] == before[x]);
                    assert(after[j] == before[y]);
                    assert(location_less(before[x], before[y]));
                }
            }
            assert forall|l: LocationView| #[trigger] after.contains(l) <==> before.contains(l)
                || l == one by {
                if before.contains(l) {
                    let k = choose|k: int| 0 <= k < before.len() && before[k] == l;
                    assert(after[if k < p {
                        k
                    } else {
                        k + 1
                    }] == l);
                }
                if l == one {
                    assert(after[p] == l);
                }
                if after.contains(l) {
                    let k = choose|k: int| 0 <= k < after.len() && after[k] == l;
                    if k < p {
                        assert(before[k] == l);
                    } else if k > p {
                        assert(before[k - 1] == l);
                    }
                }
            }
        }
    }

    /// Returns the locations, ascending.
    pub fn into_items(self) -> (res: Vec<RecordLocation>)
        ensures
            location_views(res@) == self.items(),
    {
        self.sorted
    }
}

/// One Tree Key's routing group: the items routed together in one descent.
pub struct RouteGroup {
    /// The encoded Tree Key.
    pub tree_key: Vec<u8>,
    /// The group's first input position, to which its failures are attributed.
    pub first_position: usize,
    /// The input positions of the group, ascending.
    pub members: Vec<usize>,
}

/// The mathematical content of a [`RouteGroup`].
pub struct RouteGroupView {
    /// The encoded Tree Key.
    pub tree_key: Seq<u8>,
    /// The group's first input position.
    pub first_position: usize,
    /// The input positions of the group.
    pub members: Seq<usize>,
}

impl View for RouteGroup {
    type V = RouteGroupView;

    open spec fn view(&self) -> RouteGroupView {
        RouteGroupView {
            tree_key: self.tree_key@,
            first_position: self.first_position,
            members: self.members@,
        }
    }
}

/// The content of some groups.
pub open spec fn group_views(groups: Seq<RouteGroup>) -> Seq<RouteGroupView> {
    Seq::new(groups.len(), |i: int| groups[i]@)
}

/// The position of the group of a Tree Key, from `at` on.
pub open spec fn group_position(groups: Seq<RouteGroupView>, tree_key: Seq<u8>, at: int) -> int
    decreases groups.len() - at,
{
    if at >= groups.len() || groups[at].tree_key == tree_key {
        at
    } else {
        group_position(groups, tree_key, at + 1)
    }
}

/// The groups with one more item: it joins the group of its Tree Key or opens
/// a new one behind the others.
pub open spec fn group_joined(
    groups: Seq<RouteGroupView>,
    tree_key: Seq<u8>,
    position: usize,
) -> Seq<RouteGroupView> {
    let at = group_position(groups, tree_key, 0);
    if 0 <= at < groups.len() {
        let group = groups[at];
        groups.update(
            at,
            RouteGroupView { members: group.members.push(position), ..group },
        )
    } else {
        groups.push(
            RouteGroupView { tree_key, first_position: position, members: seq![position] },
        )
    }
}

/// The content of an optional Tree Key.
pub open spec fn key_view(key: Option<Vec<u8>>) -> Option<Seq<u8>> {
    match key {
        Some(bytes) => Some(bytes@),
        None => None,
    }
}

/// The routing groups of the first `n` items, in order of first appearance.
/// Items without a Tree Key are not routed.
pub open spec fn grouped(keys: Seq<Option<Vec<u8>>>, n: nat) -> Seq<RouteGroupView>
    decreases n,
{
    if n == 0 {
        Seq::empty()
    } else {
        let rest = grouped(keys, (n - 1) as nat);
        match key_view(keys[n - 1]) {
            Some(tree_key) => group_joined(rest, tree_key, (n - 1) as usize),
            None => rest,
        }
    }
}

/// Groups the routed items of a batch by Tree Key, in order of first
/// appearance.
pub fn route_groups(keys: &Vec<Option<Vec<u8>>>) -> (res: Vec<RouteGroup>)
    ensures
        group_views(res@) == grouped(keys@, keys@.len()),
{
    let mut groups: Vec<RouteGroup> = Vec::new();
    let mut position: usize = 0;
    assert(group_views(groups@) =~= grouped(keys@, 0));
    while position < keys.len()
        invariant
            position <= keys@.len(),
            group_views(groups@) == grouped(keys@, position as nat),
        decreases keys@.len() - position,
    {
        if let Some(tree_key) = &keys[position] {
            let ghost views = group_views(groups@);
            let mut at: usize = 0;
            while at < groups.len() && !same_bytes(&groups[at].tree_key, tree_key)
                invariant
                    at <= groups@.len(),
                    views == group_views(groups@),
                    group_position(views, tree_key@, 0) == group_position(
                        views,
                        tree_key@,
                        at as int,
                    ),
                decreases groups@.len() - at,
            {
                at = at + 1;
            }
            if at < groups.len() {
                groups[at].members.push(position);
                assert(group_views(groups@) =~= group_joined(views, tree_key@, position));
            } else {
                let mut members: Vec<usize> = Vec::new();
                members.push(position);
                groups.push(
                    RouteGroup {
                        tree_key: copy_bytes(tree_key),
                        first_position: position,
                        members,
                    },
                );
                assert(members@ =~= seq![position]);
                assert(group_views(groups@) =~= group_joined(views, tree_key@, position));
            }
        }
        position = position + 1;
    }
    groups
}

/// Whether some groups have distinct Tree Keys and start with their first
/// member.
pub open spec fn sound_groups(groups: Seq<RouteGroupView>) -> bool {
    &&& forall|i: int, j: int|
        0 <= i < j < groups.len() ==> (#[trigger] groups[i]).tree_key != (
        #[trigger] groups[j]).tree_key
    &&& forall|i: int|
        0 <= i < groups.len() ==> (#[trigger] groups[i]).members.len() > 0
            && groups[i].first_position == groups[i].members[0]
}

/// Whether a group holds an item.
pub open spec fn group_holds(group: RouteGroupView, position: usize) -> bool {
    group.members.contains(position)
}

proof fn group_position_finds(groups: Seq<RouteGroupView>, tree_key: Seq<u8>, at: int)
    requires
        0 <= at <= groups.len(),
    ensures
        at <= group_position(groups, tree_key, at) <= groups.len(),
        group_position(groups, tree_key, at) < groups.len() ==> groups[group_position(
            groups,
            tree_key,
            at,
        )].tree_key == tree_key,
        forall|i: int|
            at <= i < group_position(groups, tree_key, at) ==> (#[trigger] groups[i]).tree_key
                != tree_key,
    decreases groups.len() - at,
{
    if at < groups.len() && groups[at].tree_key != tree_key {
        group_position_finds(groups, tree_key, at + 1);
    }
}

/// Grouping covers every routed item exactly: groups have distinct Tree Keys,
/// and a group holds an item if and only if the item has the group's Tree Key.
pub proof fn groups_partition_the_batch(keys: Seq<Option<Vec<u8>>>, n: nat)
    requires
        n <= keys.len() <= usize::MAX,
    ensures
        sound_groups(grouped(keys, n)),
        forall|g: int, p: usize|
            0 <= g < grouped(keys, n).len() ==> (#[trigger] group_holds(grouped(keys, n)[g], p)
                <==> p < n && key_view(keys[p as int]) == Some(grouped(keys, n)[g].tree_key)),
        forall|p: int|
            0 <= p < n && (#[trigger] keys[p]) is Some ==> exists|g: int|
                0 <= g < grouped(keys, n).len() && group_holds(
                    #[trigger] grouped(keys, n)[g],
                    p as usize,
                ),
    decreases n,
{
    if n > 0 {
        groups_partition_the_batch(keys, (n - 1) as nat);
        let rest = grouped(keys, (n - 1) as nat);
        let all = grouped(keys, n);
        let last = (n - 1) as usize;
        let key = key_view(keys[n - 1]);
        if key is Some {
            let tree_key = key->0;
            group_position_finds(rest, tree_key, 0);
            let at = group_position(rest, tree_key, 0);
            assert forall|i: int, j: int| 0 <= i < j < all.len() implies (
            #[trigger] all[i]).tree_key != (#[trigger] all[j]).tree_key by {
                if j < rest.len() {
                    assert(rest[i].tree_key != rest[j].tree_key);
                } else {
                    assert(rest[i].tree_key != tree_key);
                }
            }
            assert forall|g: int, p: usize| 0 <= g < all.len() implies (#[trigger] group_holds(
                all[g],
                p,
            ) <==> p < n && key_view(keys[p as int]) == Some(all[g].tree_key)) by {
                if g < rest.len() {
                    assert(group_holds(rest[g], p) <==> p < n - 1 && key_view(keys[p as int])
                        == Some(rest[g].tree_key));
                    if g == at {
                        member_pushed(rest[g].members, last, p);
                    } else {
                        assert(all[g] == rest[g]);
                        if p == last && rest[g].tree_key == tree_key {
                            if g < at {
                            } else if at < rest.len() {
                                assert(rest[at].tree_key != rest[g].tree_key);
                            }
                        }
                    }
                } else {
                    assert(all[g].members == seq![last]);
                    if p == last {
                        assert(all[g].members[0] == p);
                    }
                    if p < n - 1 && key_view(keys[p as int]) == Some(tree_key) {
                        assert(keys[p as int] is Some);
                        let h = choose|h: int|
                            0 <= h < rest.len() && group_holds(#[trigger] rest[h], p);
                        assert(group_holds(rest[h], p));
                        assert(rest[h].tree_key == tree_key);
                    }
                }
            }
            assert forall|p: int| 0 <= p < n && (#[trigger] keys[p]) is Some implies exists|g: int|
                0 <= g < all.len() && group_holds(#[trigger] all[g], p as usize) by {
                if p == n - 1 {
                    let g = if at < rest.len() {
                        at
                    } else {
                        rest.len() as int
                    };
                    assert(group_holds(all[g], p as usize) <==> p < n && key_view(keys[p])
                        == Some(all[g].tree_key));
                    assert(group_holds(all[g], p as usize));
                } else {
                    let h = choose|h: int|
                        0 <= h < rest.len() && group_holds(#[trigger] rest[h], p as usize);
                    assert(group_holds(rest[h], p as usize));
                    assert(group_holds(all[h], p as usize) <==> p < n && key_view(keys[p])
                        == Some(all[h].tree_key));
                    assert(group_holds(all[h], p as usize));
                }
            }
            assert(sound_groups(all)) by {
                assert forall|i: int| 0 <= i < all.len() implies (#[trigger] all[i]).members.len()
                    > 0 && all[i].first_position == all[i].members[0] by {
                    if i < rest.len() {
                        assert(rest[i].members.len() > 0);
                    }
                }
            }
        } else {
            assert forall|g: int, p: usize| 0 <= g < all.len() implies (#[trigger] group_holds(
                all[g],
                p,
            ) <==> p < n && key_view(keys[p as int]) == Some(all[g].tree_key)) by {
                assert(group_holds(rest[g], p) <==> p < n - 1 && key_view(keys[p as int]) == Some(
                    rest[g].tree_key,
                ));
            }
        }
    }
}

proof fn member_pushed(members: Seq<usize>, last: usize, p: usize)
    ensures
        members.push(last).contains(p) <==> members.contains(p) || p == last,
{
    let more = members.push(last);
    if members.contains(p) {
        let k = choose|k: int| 0 <= k < members.len() && members[k] == p;
        assert(more[k] == p);
    }
    if p == last {
        assert(more[members.len() as int] == p);
    }
    if more.contains(p) {
        let k = choose|k: int| 0 <= k < more.len() && more[k] == p;
        if k < members.len() {
            assert(members[k] == p);
        }
    }
}

/// The routed targets of a batch and the draining split sources that descents
/// were rerouted around.
pub struct RouteTable {
    /// The target of each input position, `None` while unrouted.
    pub targets: Vec<Option<RecordLocation>>,
    /// The discovered draining sources.
    pub draining: LocationSet,
}

/// Whether some routes were rerouted around a source.
pub open spec fn drains(routes: Seq<Route>, source: PartitionKey) -> bool {
    exists|i: int| 0 <= i < routes.len() && (#[trigger] routes[i]).incoming == Incoming::SourceSlot(source)
}

/// The content of an optional location.
pub open spec fn opt_location(location: Option<RecordLocation>) -> Option<LocationView> {
    match location {
        Some(found) => Some(found@),
        None => None,
    }
}

/// The content of optional locations.
pub open spec fn opt_locations(locations: Seq<Option<RecordLocation>>) -> Seq<
    Option<LocationView>,
> {
    Seq::new(locations.len(), |i: int| opt_location(locations[i]))
}

/// The targets after the first `n` members of a group were placed.
pub open spec fn placed(
    targets: Seq<Option<LocationView>>,
    group: RouteGroupView,
    routes: Seq<Route>,
    n: nat,
) -> Seq<Option<LocationView>>
    decreases n,
{
    if n == 0 {
        targets
    } else {
        placed(targets, group, routes, (n - 1) as nat).update(
            group.members[n - 1] as int,
            Some(LocationView { tree_key: group.tree_key, leaf: routes[n - 1].leaf }),
        )
    }
}

impl RouteTable {
    /// Whether the draining sources are in order.
    pub open spec fn well_formed(self) -> bool {
        self.draining.well_formed()
    }

    /// A table without targets for a batch.
    pub fn new(batch: usize) -> (res: Self)
        ensures
            res.well_formed(),
            res.targets@.len() == batch,
            forall|i: int| 0 <= i < batch ==> #[trigger] res.targets@[i] is None,
            res.draining.items() == Seq::<LocationView>::empty(),
    {
        let mut targets: Vec<Option<RecordLocation>> = Vec::new();
        let mut at: usize = 0;
        while at < batch
            invariant
                at <= batch,
                targets@.len() == at,
                forall|i: int| 0 <= i < at ==> #[trigger] targets@[i] is None,
            decreases batch - at,
        {
            targets.push(None);
            at = at + 1;
        }
        RouteTable { targets, draining: LocationSet::new() }
    }

    /// Places the routes of one group: each member's target is its route's
    /// leaf, and every source a route was rerouted around is worth resuming.
    pub fn place(&mut self, group: &RouteGroup, routes: &Vec<Route>)
        requires
            old(self).well_formed(),
            routes@.len() == group.members@.len(),
            forall|i: int|
                0 <= i < group.members@.len() ==> (#[trigger] group.members@[i])
                    < old(self).targets@.len(),
        ensures
            final(self).well_formed(),
            opt_locations(final(self).targets@) == placed(
                opt_locations(old(self).targets@),
                group@,
                routes@,
                group.members@.len(),
            ),
            forall|l: LocationView| #[trigger]
                final(self).draining.items().contains(l) <==> old(self).draining.items().contains(l)
                    || (l.tree_key == group.tree_key@ && drains(routes@, l.leaf)),
    {
        let ghost before = self.draining.items();
        let mut at: usize = 0;
        while at < routes.len()
            invariant
                at <= routes@.len(),
                routes@.len() == group.members@.len(),
                self.well_formed(),
                self.targets@.len() == old(self).targets@.len(),
                forall|i: int|
                    0 <= i < group.members@.len() ==> (#[trigger] group.members@[i])
                        < old(self).targets@.len(),
                opt_locations(self.targets@) == placed(
                    opt_locations(old(self).targets@),
                    group@,
                    routes@,
                    at as nat,
                ),
                forall|l: LocationView| #[trigger]
                    self.draining.items().contains(l) <==> before.contains(l) || (l.tree_key
                        == group.tree_key@ && drains(routes@.take(at as int), l.leaf)),
                before == old(self).draining.items(),
            decreases routes@.len() - at,
        {
            let route = routes[at];
            let position: usize = group.members[at];
            let ghost earlier = opt_locations(self.targets@);
            self.targets.set(
                position,
                Some(RecordLocation { tree_key: copy_bytes(&group.tree_key), leaf: route.leaf }),
            );
            assert(opt_locations(self.targets@) =~= earlier.update(
                position as int,
                Some(LocationView { tree_key: group.tree_key@, leaf: route.leaf }),
            ));
            let ghost known = self.draining.items();
            if let Some(source) = route.draining_source() {
                self.draining.insert(
                    RecordLocation { tree_key: copy_bytes(&group.tree_key), leaf: source },
                );
            }
            proof {
                let less = routes@.take(at as int);
                let more = routes@.take(at + 1);
                assert forall|l: LocationView| #[trigger]
                    self.draining.items().contains(l) <==> before.contains(l) || (l.tree_key
                        == group.tree_key@ && drains(more, l.leaf)) by {
                    if drains(less, l.leaf) {
                        let k = choose|k: int|
                            0 <= k < less.len() && (#[trigger] less[k]).incoming == Incoming::SourceSlot(l.leaf);
                        assert(more[k].incoming == Incoming::SourceSlot(l.leaf));
                    }
                    if drains(more, l.leaf) {
                        let k = choose|k: int|
                            0 <= k < more.len() && (#[trigger] more[k]).incoming == Incoming::SourceSlot(l.leaf);
                        if k < at {
                            assert(less[k].incoming == Incoming::SourceSlot(l.leaf));
                        }
                    }
                    if route.incoming == Incoming::SourceSlot(l.leaf) {
                        assert(more[at as int].incoming == Incoming::SourceSlot(l.leaf));
                    }
                    assert(known.contains(l) <==> before.contains(l) || (l.tree_key
                        == group.tree_key@ && drains(less, l.leaf)));
                }
            }
            at = at + 1;
        }
        assert(routes@.take(at as int) =~= routes@);
    }
}

/// The upsert positions among the first `n` mutations.
pub open spec fn upserts_of(mutations: Seq<MutationView>, n: nat) -> Seq<usize>
    decreases n,
{
    if n == 0 {
        Seq::empty()
    } else {
        let rest = upserts_of(mutations, (n - 1) as nat);
        if mutations[n - 1] is Upsert {
            rest.push((n - 1) as usize)
        } else {
            rest
        }
    }
}

/// Returns the input positions of a batch's upserts; their stored locations
/// are read together.
pub fn upsert_positions(mutations: &Vec<Mutation>) -> (res: Vec<usize>)
    ensures
        res@ == upserts_of(batch_view(mutations@), mutations@.len()),
        forall|i: int| 0 <= i < res@.len() ==> (#[trigger] res@[i]) < mutations@.len(),
{
    let mut positions: Vec<usize> = Vec::new();
    let mut at: usize = 0;
    while at < mutations.len()
        invariant
            at <= mutations@.len(),
            positions@ == upserts_of(batch_view(mutations@), at as nat),
            forall|i: int| 0 <= i < positions@.len() ==> (#[trigger] positions@[i]) < at,
        decreases mutations@.len() - at,
    {
        assert(batch_view(mutations@)[at as int] == mutations@[at as int]@);
        if let Mutation::Upsert(_) = &mutations[at] {
            positions.push(at);
        }
        at = at + 1;
    }
    positions
}

/// Attributes an upsert-read failure to the input position of its upsert.
pub fn attribute_upsert_failure(error: Error, positions: &Vec<usize>) -> (res: Error)
    requires
        error@.position matches Some(subset) ==> subset < positions@.len(),
    ensures
        res@ == match error@.position {
            Some(subset) => (ErrorView { position: Some(positions@[subset as int]), ..error@ }),
            None => error@,
        },
{
    match error.position() {
        Some(subset) => error.at_position(positions[subset]),
        None => error,
    }
}

/// The stored location of each input position after the first `n` upserts.
pub open spec fn expected_of(
    batch: nat,
    positions: Seq<usize>,
    locations: Seq<Option<RecordLocation>>,
    n: nat,
) -> Seq<Option<LocationView>>
    decreases n,
{
    if n == 0 {
        Seq::new(batch, |i: int| None)
    } else {
        expected_of(batch, positions, locations, (n - 1) as nat).update(
            positions[n - 1] as int,
            opt_location(locations[n - 1]),
        )
    }
}

/// Aligns the stored locations of a batch's upserts to the input positions.
pub fn place_expected(
    batch: usize,
    positions: &Vec<usize>,
    locations: &Vec<Option<RecordLocation>>,
) -> (res: Vec<Option<RecordLocation>>)
    requires
        positions@.len() == locations@.len(),
        forall|i: int| 0 <= i < positions@.len() ==> (#[trigger] positions@[i]) < batch,
    ensures
        opt_locations(res@) == expected_of(
            batch as nat,
            positions@,
            locations@,
            positions@.len(),
        ),
{
    let mut expected: Vec<Option<RecordLocation>> = Vec::new();
    let mut at: usize = 0;
    while at < batch
        invariant
            at <= batch,
            expected@.len() == at,
            forall|i: int| 0 <= i < at ==> #[trigger] expected@[i] is None,
        decreases batch - at,
    {
        expected.push(None);
        at = at + 1;
    }
    assert(opt_locations(expected@) =~= expected_of(batch as nat, positions@, locations@, 0));
    at = 0;
    while at < positions.len()
        invariant
            at <= positions@.len(),
            positions@.len() == locations@.len(),
            expected@.len() == batch,
            forall|i: int| 0 <= i < positions@.len() ==> (#[trigger] positions@[i]) < batch,
            opt_locations(expected@) == expected_of(
                batch as nat,
                positions@,
                locations@,
                at as nat,
            ),
        decreases positions@.len() - at,
    {
        let ghost before = opt_locations(expected@);
        let location = match &locations[at] {
            Some(location) => Some(location.clone()),
            None => None,
        };
        expected.set(positions[at], location);
        assert(opt_locations(expected@) =~= before.update(
            positions@[at as int] as int,
            opt_location(locations@[at as int]),
        ));
        at = at + 1;
    }
    expected
}

/// How one item is applied.
#[derive(Clone, Copy, Debug, PartialEq, Eq, Structural)]
pub enum ItemPlan {
    /// Insert the record at its target.
    Insert {
        /// Whether the item is an upsert that found nothing to replace.
        upsert: bool,
    },
    /// Replace the record at its stored location, moving it to its target.
    Replace,
    /// Delete the record at its stored location.
    Delete,
}

/// How an item is applied; `None` when it should have been routed and was not.
pub open spec fn item_plan(
    mutation: MutationView,
    routed: bool,
    stored: bool,
) -> Option<ItemPlan> {
    match mutation {
        MutationView::Insert(_) => if routed {
            Some(ItemPlan::Insert { upsert: false })
        } else {
            None
        },
        MutationView::Upsert(_) => if !routed {
            None
        } else if stored {
            Some(ItemPlan::Replace)
        } else {
            Some(ItemPlan::Insert { upsert: true })
        },
        MutationView::Delete(_) => Some(ItemPlan::Delete),
    }
}

/// Decides how one item is applied. An insert or upsert without a routed
/// target breaks this module's own contract and is a Backend failure.
pub fn plan_item(mutation: &Mutation, routed: bool, stored: bool) -> (res: Result<ItemPlan>)
    ensures
        res == match item_plan(mutation@, routed, stored) {
            Some(plan) => Ok::<ItemPlan, Error>(plan),
            None => Err::<ItemPlan, Error>(plain_error(ErrorKind::Backend)),
        },
{
    match mutation {
        Mutation::Insert(_) => {
            if !routed {
                return Err(Error::new(ErrorKind::Backend));
            }
            Ok(ItemPlan::Insert { upsert: false })
        },
        Mutation::Upsert(_) => {
            if !routed {
                return Err(Error::new(ErrorKind::Backend));
            }
            if stored {
                Ok(ItemPlan::Replace)
            } else {
                Ok(ItemPlan::Insert { upsert: true })
            }
        },
        Mutation::Delete(_) => Ok(ItemPlan::Delete),
    }
}

/// What applying one item changed: the Headers of the partitions it touched.
pub struct ItemReport {
    /// The routed target, for an insert or a replacement.
    pub target: Option<(RecordLocation, PartitionHeader)>,
    /// The stored location, when its partition changed: the source of a
    /// replacement that moved, or the location of a deleted record.
    pub source: Option<(RecordLocation, PartitionHeader)>,
}

/// The outcome of one applied item.
pub open spec fn item_outcome(plan: ItemPlan, report: ItemReport) -> MutationOutcome {
    match plan {
        ItemPlan::Insert { upsert: false } => MutationOutcome::Inserted,
        ItemPlan::Insert { upsert: true } => MutationOutcome::Upserted { replaced: false },
        ItemPlan::Replace => MutationOutcome::Upserted { replaced: true },
        ItemPlan::Delete => MutationOutcome::Deleted { existed: report.source is Some },
    }
}

/// The last Header observed for each partition a batch changed.
pub struct ChangedHeaders {
    entries: Vec<(RecordLocation, PartitionHeader)>,
}

/// The Headers after one more observation.
pub open spec fn header_recorded(
    headers: Map<LocationView, PartitionHeader>,
    observation: Option<(RecordLocation, PartitionHeader)>,
) -> Map<LocationView, PartitionHeader> {
    match observation {
        Some((location, header)) => headers.insert(location@, header),
        None => headers,
    }
}

spec fn has_location(entries: Seq<(RecordLocation, PartitionHeader)>, key: LocationView) -> bool {
    exists|i: int| 0 <= i < entries.len() && (#[trigger] entries[i]).0@ == key
}

spec fn index_of_location(
    entries: Seq<(RecordLocation, PartitionHeader)>,
    key: LocationView,
) -> int {
    choose|i: int| 0 <= i < entries.len() && (#[trigger] entries[i]).0@ == key
}

impl ChangedHeaders {
    /// The last Header of each changed partition.
    pub closed spec fn headers(self) -> Map<LocationView, PartitionHeader> {
        Map::new(
            |key: LocationView| has_location(self.entries@, key),
            |key: LocationView| self.entries@[index_of_location(self.entries@, key)].1,
        )
    }

    /// Whether each partition is held once.
    pub closed spec fn well_formed(self) -> bool {
        forall|i: int, j: int|
            0 <= i < j < self.entries@.len() ==> (#[trigger] self.entries@[i]).0@ != (
            #[trigger] self.entries@[j]).0@
    }

    /// No changed partition.
    pub fn new() -> (res: Self)
        ensures
            res.well_formed(),
            res.headers() == Map::<LocationView, PartitionHeader>::empty(),
    {
        let res = ChangedHeaders { entries: Vec::new() };
        assert(res.headers() =~= Map::empty());
        res
    }

    fn record_header(&mut self, location: &RecordLocation, header: PartitionHeader)
        requires
            old(self).well_formed(),
        ensures
            final(self).well_formed(),
            final(self).headers() == old(self).headers().insert(location@, header),
    {
        let ghost before = self.entries@;
        let mut at: usize = 0;
        while at < self.entries.len() && !self.entries[at].0.same(location)
            invariant
                *self == *old(self),
                before == self.entries@,
                at <= before.len(),
                forall|i: int| 0 <= i < at ==> (#[trigger] before[i]).0@ != location@,
            decreases before.len() - at,
        {
            at = at + 1;
        }
        if at < self.entries.len() {
            self.entries[at].1 = header;
        } else {
            self.entries.push((location.clone(), header));
        }
        proof {
            let after = self.entries@;
            let key = location@;
            assert(after[at as int].0@ == key);
            assert(after[at as int].1 == header);
            assert forall|i: int| 0 <= i < before.len() implies (#[trigger] after[i]).0@
                == before[i].0@ by {}
            assert forall|i: int, j: int| 0 <= i < j < after.len() implies (
            #[trigger] after[i]).0@ != (#[trigger] after[j]).0@ by {
                if j < before.len() {
                    assert(before[i].0@ != before[j].0@);
                } else {
                    assert(before[i].0@ != key);
                }
            }
            assert forall|k: LocationView| has_location(after, k) <==> #[trigger] has_location(
                before,
                k,
            ) || k == key by {
                if has_location(before, k) {
                    let i = choose|i: int| 0 <= i < before.len() && (#[trigger] before[i]).0@ == k;
                    assert(after[i].0@ == k);
                }
                if has_location(after, k) {
                    let i = choose|i: int| 0 <= i < after.len() && (#[trigger] after[i]).0@ == k;
                    if i < before.len() {
                        assert(before[i].0@ == k);
                    }
                }
            }
            let expected = old(self).headers().insert(key, header);
            assert forall|k: LocationView| #[trigger] expected.dom().contains(k) implies self.headers()[k]
                == expected[k] by {
                assert(has_location(before, k) || k == key);
                assert(has_location(after, k));
                let i = index_of_location(after, k);
                assert(0 <= i < after.len() && after[i].0@ == k);
                if k == key {
                    if i != at {
                        if i < at {
                            assert(after[i].0@ != after[at as int].0@);
                        } else {
                            assert(after[at as int].0@ != after[i].0@);
                        }
                    }
                } else {
                    let b = index_of_location(before, k);
                    assert(0 <= b < before.len() && before[b].0@ == k);
                    assert(after[b].0@ == k);
                    if i != b {
                        if i < b {
                            assert(after[i].0@ != after[b].0@);
                        } else {
                            assert(after[b].0@ != after[i].0@);
                        }
                    }
                }
            }
            assert(self.headers() =~= expected);
        }
    }

    /// Records what one applied item changed: the source first, then the
    /// target, so the target's Header is the last one observed when both are
    /// the same partition.
    pub fn record(&mut self, report: &ItemReport)
        requires
            old(self).well_formed(),
        ensures
            final(self).well_formed(),
            final(self).headers() == header_recorded(
                header_recorded(old(self).headers(), report.source),
                report.target,
            ),
    {
        if let Some(source) = &report.source {
            self.record_header(&source.0, source.1);
        }
        if let Some(target) = &report.target {
            self.record_header(&target.0, target.1);
        }
    }

    /// Returns the partitions worth offering to maintenance, ascending: the
    /// draining sources that descents were rerouted around, and every changed
    /// partition whose last Header is actionable.
    pub fn maintenance(&self, config: &IndexConfig, draining: LocationSet) -> (res: Vec<
        RecordLocation,
    >)
        requires
            self.well_formed(),
            draining.well_formed(),
        ensures
            ascending_locations(location_views(res@)),
            forall|l: LocationView| #[trigger]
                location_views(res@).contains(l) <==> draining.items().contains(l) || (
                self.headers().contains_key(l) && selected_action(
                    config@.min_partition_entries,
                    config@.max_partition_entries,
                    l.leaf,
                    self.headers()[l],
                ) is Some),
    {
        let mut offered = draining;
        let mut at: usize = 0;
        let ghost entries = self.entries@;
        let ghost known = draining.items();
        while at < self.entries.len()
            invariant
                self.well_formed(),
                entries == self.entries@,
                at <= entries.len(),
                offered.well_formed(),
                forall|l: LocationView| #[trigger]
                    offered.items().contains(l) <==> known.contains(l) || offers_within(
                        entries,
                        config@.min_partition_entries,
                        config@.max_partition_entries,
                        at as int,
                        l,
                    ),
            decreases entries.len() - at,
        {
            let entry = &self.entries[at];
            let ghost before = offered.items();
            let actionable = is_actionable(config, entry.0.leaf, entry.1);
            if actionable {
                offered.insert(entry.0.clone());
            }
            proof {
                let low = config@.min_partition_entries;
                let high = config@.max_partition_entries;
                assert forall|l: LocationView| #[trigger]
                    offered.items().contains(l) <==> known.contains(l) || offers_within(
                        entries,
                        low,
                        high,
                        at + 1,
                        l,
                    ) by {
                    assert(before.contains(l) <==> known.contains(l) || offers_within(
                        entries,
                        low,
                        high,
                        at as int,
                        l,
                    ));
                    if offers_within(entries, low, high, at as int, l) {
                        let k = choose|k: int|
                            0 <= k < at && #[trigger] offers(entries[k], low, high, l);
                        assert(offers(entries[k], low, high, l));
                    }
                    if offers_within(entries, low, high, at + 1, l) {
                        let k = choose|k: int|
                            0 <= k < at + 1 && #[trigger] offers(entries[k], low, high, l);
                        assert(offers(entries[k], low, high, l));
                    }
                    if actionable && l == entry.0@ {
                        assert(offers(entries[at as int], low, high, l));
                    }
                }
            }
            at = at + 1;
        }
        proof {
            let low = config@.min_partition_entries;
            let high = config@.max_partition_entries;
            assert forall|l: LocationView| #[trigger] offered.items().contains(l) <==> known.contains(
                l,
            ) || (self.headers().contains_key(l) && selected_action(
                low,
                high,
                l.leaf,
                self.headers()[l],
            ) is Some) by {
                if has_location(entries, l) {
                    let i = index_of_location(entries, l);
                    assert(0 <= i < entries.len() && entries[i].0@ == l);
                    assert(self.headers()[l] == entries[i].1);
                    if selected_action(low, high, l.leaf, entries[i].1) is Some {
                        assert(offers(entries[i], low, high, l));
                    }
                    if offers_within(entries, low, high, entries.len() as int, l) {
                        let k = choose|k: int|
                            0 <= k < entries.len() && #[trigger] offers(entries[k], low, high, l);
                        if k != i {
                            if k < i {
                                assert(entries[k].0@ != entries[i].0@);
                            } else {
                                assert(entries[i].0@ != entries[k].0@);
                            }
                        }
                    }
                } else if offers_within(entries, low, high, entries.len() as int, l) {
                    let k = choose|k: int|
                        0 <= k < entries.len() && #[trigger] offers(entries[k], low, high, l);
                    assert(entries[k].0@ == l);
                }
            }
        }
        offered.into_items()
    }
}

spec fn offers(
    entry: (RecordLocation, PartitionHeader),
    minimum: u32,
    maximum: u32,
    l: LocationView,
) -> bool {
    entry.0@ == l && selected_action(minimum, maximum, l.leaf, entry.1) is Some
}

spec fn offers_within(
    entries: Seq<(RecordLocation, PartitionHeader)>,
    minimum: u32,
    maximum: u32,
    n: int,
    l: LocationView,
) -> bool {
    exists|i: int| 0 <= i < n && #[trigger] offers(entries[i], minimum, maximum, l)
}

/// Returns the outcome of one applied item and records what it changed.
pub fn finish_item(plan: ItemPlan, report: &ItemReport, changed: &mut ChangedHeaders) -> (res:
    MutationOutcome)
    requires
        old(changed).well_formed(),
    ensures
        final(changed).well_formed(),
        final(changed).headers() == header_recorded(
            header_recorded(old(changed).headers(), report.source),
            report.target,
        ),
        res == item_outcome(plan, *report),
{
    changed.record(report);
    match plan {
        ItemPlan::Insert { upsert } => {
            if upsert {
                MutationOutcome::Upserted { replaced: false }
            } else {
                MutationOutcome::Inserted
            }
        },
        ItemPlan::Replace => MutationOutcome::Upserted { replaced: true },
        ItemPlan::Delete => MutationOutcome::Deleted { existed: report.source.is_some() },
    }
}

/// The field values that make up a record's Tree Key.
pub open spec fn tree_values(fields: Seq<ValueView>, keys: Seq<FieldId>) -> Seq<ValueView> {
    Seq::new(keys.len(), |i: int| fields[keys[i].0 as int])
}

/// The Tree Key fields alone select a record's tree: records that agree on
/// them have the same Tree Key values, and records that differ in one of them
/// have different ones.
pub proof fn tree_key_fields_select_the_tree(
    a: Seq<ValueView>,
    b: Seq<ValueView>,
    keys: Seq<FieldId>,
)
    ensures
        tree_values(a, keys).len() == keys.len(),
        forall|i: int|
            0 <= i < keys.len() ==> #[trigger] tree_values(a, keys)[i] == a[keys[i].0 as int],
        (forall|i: int|
            0 <= i < keys.len() ==> a[(#[trigger] keys[i]).0 as int] == b[keys[i].0 as int])
            <==> tree_values(a, keys) == tree_values(b, keys),
{
    if forall|i: int|
        0 <= i < keys.len() ==> a[(#[trigger] keys[i]).0 as int] == b[keys[i].0 as int] {
        assert forall|i: int| 0 <= i < keys.len() implies #[trigger] tree_values(a, keys)[i]
            == tree_values(b, keys)[i] by {
            assert(a[keys[i].0 as int] == b[keys[i].0 as int]);
        }
        assert(tree_values(a, keys) =~= tree_values(b, keys));
    }
    if tree_values(a, keys) == tree_values(b, keys) {
        assert forall|i: int| 0 <= i < keys.len() implies a[(#[trigger] keys[i]).0 as int]
            == b[keys[i].0 as int] by {
            assert(tree_values(a, keys)[i] == tree_values(b, keys)[i]);
        }
    }
}

/// Whether a record holds every field of the Tree Key.
pub open spec fn holds_tree_key(fields: Seq<ValueView>, keys: Seq<FieldId>) -> bool {
    forall|i: int| 0 <= i < keys.len() ==> ((#[trigger] keys[i]).0 as int) < fields.len()
}

/// Returns the field values that make up a record's Tree Key, in key order. A
/// record that lacks one is an invalid argument.
pub fn tree_key_values(config: &IndexConfig, record: &Record) -> (res: Result<Vec<Value>>)
    ensures
        match res {
            Ok(values) => {
                &&& holds_tree_key(record@.fields, config@.tree_key_fields)
                &&& values_view(values@) == tree_values(
                    record@.fields,
                    config@.tree_key_fields,
                )
                &&& values@.len() == config@.tree_key_fields.len()
                &&& forall|i: int|
                    0 <= i < values@.len() ==> config@.tree_key_fields[i].0 < record@.fields.len()
                        && (#[trigger] values@[i])@
                        == record@.fields[config@.tree_key_fields[i].0 as int]
            },
            Err(error) => {
                &&& !holds_tree_key(record@.fields, config@.tree_key_fields)
                &&& exists|i: int|
                    0 <= i < config@.tree_key_fields.len() && (
                    #[trigger] config@.tree_key_fields[i]).0 >= record@.fields.len()
                &&& error == plain_error(ErrorKind::InvalidArgument)
            },
        },
{
    let keys = config.tree_key_fields();
    let fields = record.fields();
    let mut values: Vec<Value> = Vec::new();
    let mut at: usize = 0;
    while at < keys.len()
        invariant
            at <= keys@.len(),
            keys@ == config@.tree_key_fields,
            values_view(fields@) == record@.fields,
            values@.len() == at,
            forall|i: int|
                0 <= i < at ==> ((#[trigger] keys@[i]).0 as int) < record@.fields.len(),
            forall|i: int|
                0 <= i < at ==> (#[trigger] values@[i])@ == record@.fields[keys@[i].0 as int],
        decreases keys@.len() - at,
    {
        let position: usize = keys[at].0 as usize;
        if position >= fields.len() {
            assert(!((keys@[at as int].0 as int) < record@.fields.len()));
            return Err(Error::invalid_argument());
        }
        assert(values_view(fields@)[position as int] == fields@[position as int]@);
        values.push(fields[position].clone());
        at = at + 1;
    }
    assert(values_view(values@) =~= tree_values(record@.fields, config@.tree_key_fields));
    Ok(values)
}

} // verus!
