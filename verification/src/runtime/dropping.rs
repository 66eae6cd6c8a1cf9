//! What a drop does to the stored index, over all of its attempts.
//!
//! The decisions of one attempt stand in [`crate::runtime::index`]. This module
//! models the store they act on, and states what any number of attempts
//! leaves behind: pages that come from anywhere in the range, commits that
//! abort, and commits whose outcome nobody learns.

use vstd::prelude::*;

use crate::api::identifiers::LogicalIndexId;
use crate::runtime::index::{
    data_positions, dropping, planned_deletion, DropResume, DropStepView, IndexLifecycle,
    ManifestView,
};

verus! {

/// The stored content that lifecycles are about.
#[verifier::ext_equal]
pub ghost struct StoreView {
    /// The identity each Index Name maps to.
    pub names: Map<Seq<char>, LogicalIndexId>,
    /// The Index Manifests.
    pub manifests: Map<LogicalIndexId, ManifestView>,
    /// Every other key of an index-owned range, with its value.
    pub data: Map<(LogicalIndexId, Seq<u8>), Seq<u8>>,
    /// The highest identity reserved so far.
    pub allocator: u64,
}

/// One scanned page of an index-owned range.
pub ghost struct KeyPage {
    /// The keys on the page.
    pub keys: Seq<Seq<u8>>,
    /// Which of them is the Index Manifest's.
    pub is_manifest: Seq<bool>,
    /// Whether the scan can go on.
    pub more: bool,
    /// The keys that the cursor behind the page has passed.
    pub behind: Set<Seq<u8>>,
}

/// How the commit of one attempt ended.
pub ghost enum DropOutcome {
    /// It happened.
    Committed,
    /// It definitely did not happen.
    Aborted,
    /// Nobody knows, and it happened.
    Applied,
    /// Nobody knows, and it did not happen.
    Lost,
}

/// One attempt of a drop.
pub ghost struct DropTurn {
    /// The page it scans.
    pub page: KeyPage,
    /// How its commit ends.
    pub outcome: DropOutcome,
}

/// A drop between two attempts.
#[verifier::ext_equal]
pub ghost struct DropRun {
    /// The store.
    pub store: StoreView,
    /// The keys that the page cursor has passed.
    pub passed: Set<Seq<u8>>,
}

/// The keys of one index-owned range, the manifest's aside.
pub open spec fn owned_by(id: LogicalIndexId) -> Set<(LogicalIndexId, Seq<u8>)> {
    Set::new(|key: (LogicalIndexId, Seq<u8>)| key.0 == id)
}

/// Whether a key of a page is to be deleted.
pub open spec fn deletes_key(page: KeyPage, deletes: Seq<usize>, key: Seq<u8>) -> bool {
    exists|i: int| 0 <= i < deletes.len() && page.keys[#[trigger] deletes[i] as int] == key
}

impl DropOutcome {
    /// Whether the commit happened.
    pub open spec fn happened(self) -> bool {
        self is Committed || self is Applied
    }

    /// Where the next attempt scans from.
    pub open spec fn resume(self) -> DropResume {
        match self {
            DropOutcome::Committed => DropResume::Next,
            DropOutcome::Aborted => DropResume::Again,
            _ => DropResume::Start,
        }
    }
}

impl StoreView {
    /// The content of every other index-owned range.
    pub open spec fn other_data(self, id: LogicalIndexId) -> Map<
        (LogicalIndexId, Seq<u8>),
        Seq<u8>,
    > {
        self.data.remove_keys(owned_by(id))
    }

    /// Whether nothing of an index is stored any more.
    pub open spec fn holds_nothing_of(self, id: LogicalIndexId) -> bool {
        &&& !self.manifests.contains_key(id)
        &&& forall|key: Seq<u8>| !#[trigger] self.data.contains_key((id, key))
    }

    /// Whether a drop of a name goes on to delete.
    pub open spec fn deletes_now(self, name: Seq<char>) -> bool {
        let id = self.names[name];
        &&& self.names.contains_key(name)
        &&& self.manifests.contains_key(id)
        &&& self.manifests[id].lifecycle == IndexLifecycle::Dropping
        &&& self.manifests[id].logical_index_id == id
    }

    /// Whether a drop of a name first marks its index.
    pub open spec fn marks_now(self, name: Seq<char>) -> bool {
        let id = self.names[name];
        &&& self.names.contains_key(name)
        &&& self.manifests.contains_key(id)
        &&& self.manifests[id].lifecycle == IndexLifecycle::Active
    }

    /// The store after some deletions.
    pub open spec fn deleted(self, name: Seq<char>, page: KeyPage, step: DropStepView) -> StoreView {
        let id = self.names[name];
        match step {
            DropStepView::Advance => self,
            DropStepView::Commit { clear_range, deletes, delete_manifest, complete } => StoreView {
                names: if complete {
                    self.names.remove(name)
                } else {
                    self.names
                },
                manifests: if clear_range || delete_manifest {
                    self.manifests.remove(id)
                } else {
                    self.manifests
                },
                data: self.data.remove_keys(
                    Set::new(
                        |key: (LogicalIndexId, Seq<u8>)|
                            key.0 == id && (clear_range || deletes_key(page, deletes, key.1)),
                    ),
                ),
                allocator: self.allocator,
            },
        }
    }

    /// The store once the writes of one attempt happened. An absent name, a
    /// missing manifest, and a manifest of another identity leave it as it is.
    pub open spec fn written(self, name: Seq<char>, clears_ranges: bool, page: KeyPage) -> StoreView {
        let id = self.names[name];
        if self.marks_now(name) {
            StoreView {
                manifests: self.manifests.insert(id, dropping(self.manifests[id])),
                ..self
            }
        } else if self.deletes_now(name) {
            self.deleted(
                name,
                page,
                planned_deletion(clears_ranges, page.is_manifest, page.more),
            )
        } else {
            self
        }
    }
}

impl DropRun {
    /// Whether a page is what a scan from the cursor shows: every key on it is
    /// stored, no key that its cursor passes is missing, and a page that ends
    /// the scan passes all keys.
    pub open spec fn lists(self, name: Seq<char>, page: KeyPage) -> bool {
        let id = self.store.names[name];
        &&& page.keys.len() == page.is_manifest.len()
        &&& page.keys.len() <= usize::MAX
        &&& forall|i: int|
            0 <= i < page.keys.len() && !page.is_manifest[i] ==> self.store.data.contains_key(
                (id, #[trigger] page.keys[i]),
            )
        &&& forall|key: Seq<u8>| #[trigger]
            self.store.data.contains_key((id, key)) && page.behind.contains(key)
                && !self.passed.contains(key) ==> exists|i: int|
                0 <= i < page.keys.len() && !page.is_manifest[i] && #[trigger] page.keys[i] == key
        &&& !page.more ==> forall|key: Seq<u8>| #[trigger]
            self.store.data.contains_key((id, key)) ==> page.behind.contains(key)
    }

    /// The cursor after an attempt. A page without deletions is passed without
    /// a commit.
    pub open spec fn cursor_after(self, name: Seq<char>, clears_ranges: bool, turn: DropTurn) -> Set<
        Seq<u8>,
    > {
        let deletes = self.store.deletes_now(name);
        let step = planned_deletion(clears_ranges, turn.page.is_manifest, turn.page.more);
        if deletes && step is Advance {
            turn.page.behind
        } else {
            match turn.outcome.resume() {
                DropResume::Next => if deletes {
                    turn.page.behind
                } else {
                    self.passed
                },
                DropResume::Again => self.passed,
                DropResume::Start => Set::empty(),
            }
        }
    }

    /// The drop after one more attempt.
    pub open spec fn after(self, name: Seq<char>, clears_ranges: bool, turn: DropTurn) -> DropRun {
        DropRun {
            store: if turn.outcome.happened() {
                self.store.written(name, clears_ranges, turn.page)
            } else {
                self.store
            },
            passed: self.cursor_after(name, clears_ranges, turn),
        }
    }

    /// Whether the drop succeeds with this attempt: the name is gone, or its
    /// removal is known to have happened.
    pub open spec fn succeeds(self, name: Seq<char>, clears_ranges: bool, turn: DropTurn) -> bool {
        let step = planned_deletion(clears_ranges, turn.page.is_manifest, turn.page.more);
        ||| !self.store.names.contains_key(name)
        ||| {
            &&& self.store.deletes_now(name)
            &&& turn.outcome is Committed
            &&& step matches DropStepView::Commit { complete, .. }
            &&& complete
        }
    }
}

/// A drop after some attempts.
pub open spec fn dropped(
    store: StoreView,
    name: Seq<char>,
    clears_ranges: bool,
    turns: Seq<DropTurn>,
) -> DropRun
    decreases turns.len(),
{
    if turns.len() == 0 {
        DropRun { store, passed: Set::empty() }
    } else {
        dropped(store, name, clears_ranges, turns.drop_last()).after(
            name,
            clears_ranges,
            turns.last(),
        )
    }
}

/// Whether every attempt that scans shows the store as it then is.
pub open spec fn all_listed(
    store: StoreView,
    name: Seq<char>,
    clears_ranges: bool,
    turns: Seq<DropTurn>,
) -> bool {
    forall|i: int|
        0 <= i < turns.len() && !clears_ranges ==> {
            let run = dropped(store, name, clears_ranges, #[trigger] turns.take(i));
            run.store.deletes_now(name) ==> run.lists(name, turns[i].page)
        }
}

proof fn positions_are_data(is_manifest: Seq<bool>, n: nat, at: int)
    requires
        n <= is_manifest.len() <= usize::MAX,
        0 <= at < n,
        !is_manifest[at],
    ensures
        exists|i: int|
            0 <= i < data_positions(is_manifest, n).len() && #[trigger] data_positions(
                is_manifest,
                n,
            )[i] == at,
    decreases n,
{
    let all = data_positions(is_manifest, n);
    let rest = data_positions(is_manifest, (n - 1) as nat);
    if at == n - 1 {
        assert(all[all.len() - 1] == at);
    } else {
        positions_are_data(is_manifest, (n - 1) as nat, at);
        let i = choose|i: int| 0 <= i < rest.len() && #[trigger] rest[i] == at;
        assert(all[i] == at);
    }
}

proof fn listed_before(
    store: StoreView,
    name: Seq<char>,
    clears_ranges: bool,
    turns: Seq<DropTurn>,
)
    requires
        turns.len() > 0,
        all_listed(store, name, clears_ranges, turns),
    ensures
        all_listed(store, name, clears_ranges, turns.drop_last()),
        ({
            let run = dropped(store, name, clears_ranges, turns.drop_last());
            !clears_ranges && run.store.deletes_now(name) ==> run.lists(name, turns.last().page)
        }),
{
    let shorter = turns.drop_last();
    assert(turns.take(turns.len() - 1) =~= shorter);
    assert forall|i: int| 0 <= i < shorter.len() && !clears_ranges implies {
        let run = dropped(store, name, clears_ranges, #[trigger] shorter.take(i));
        run.store.deletes_now(name) ==> run.lists(name, shorter[i].page)
    } by {
        assert(shorter.take(i) =~= turns.take(i));
    }
}

/// Whether a drop of one name has done nothing but what a drop may do: other
/// names, manifests, ranges and the allocator are untouched; while the name is
/// mapped nothing is missing unless the index is marked; once it is not,
/// nothing of the index is left.
pub open spec fn in_order(before: StoreView, after: StoreView, name: Seq<char>) -> bool {
    let id = before.names[name];
    &&& after.allocator == before.allocator
    &&& after.names.remove(name) == before.names.remove(name)
    &&& after.manifests.remove(id) == before.manifests.remove(id)
    &&& after.other_data(id) == before.other_data(id)
    &&& after.names.contains_key(name) ==> {
        &&& after.names == before.names
        &&& after.data == before.data || (after.manifests.contains_key(id)
            && after.manifests[id].lifecycle == IndexLifecycle::Dropping)
    }
    &&& !after.names.contains_key(name) ==> after.holds_nothing_of(id)
}

proof fn deletions_stay_in_order(
    store: StoreView,
    run: DropRun,
    name: Seq<char>,
    clears_ranges: bool,
    page: KeyPage,
)
    requires
        store.names.contains_key(name),
        in_order(store, run.store, name),
        run.store.deletes_now(name),
        !clears_ranges ==> run.lists(name, page),
        forall|key: Seq<u8>| #[trigger]
            run.passed.contains(key) ==> !run.store.data.contains_key((store.names[name], key)),
    ensures
        in_order(store, run.store.written(name, clears_ranges, page), name),
        !clears_ranges ==> forall|key: Seq<u8>| #[trigger]
            page.behind.contains(key) ==> !run.store.written(
                name,
                clears_ranges,
                page,
            ).data.contains_key((store.names[name], key)),
{
    let id = store.names[name];
    let now = run.store;
    let after = now.written(name, clears_ranges, page);
    let data = data_positions(page.is_manifest, page.is_manifest.len());
    assert(now.names[name] == id);
    assert(after.other_data(id) =~= now.other_data(id));
    assert(after.manifests.remove(id) =~= now.manifests.remove(id));
    assert(after.names.remove(name) =~= now.names.remove(name));
    if !clears_ranges {
        assert forall|key: Seq<u8>| #[trigger] page.behind.contains(key) implies !after.data.contains_key(
            (id, key),
        ) by {
            if now.data.contains_key((id, key)) {
                assert(!run.passed.contains(key));
                let at = choose|i: int|
                    0 <= i < page.keys.len() && !page.is_manifest[i] && #[trigger] page.keys[i]
                        == key;
                positions_are_data(page.is_manifest, page.is_manifest.len(), at);
                let i = choose|i: int| 0 <= i < data.len() && #[trigger] data[i] == at;
                assert(deletes_key(page, data, key));
            }
        }
    }
    if !after.names.contains_key(name) {
        assert forall|key: Seq<u8>| !#[trigger] after.data.contains_key((id, key)) by {
            if !clears_ranges && after.data.contains_key((id, key)) {
                assert(now.data.contains_key((id, key)));
                assert(page.behind.contains(key));
            }
        }
    }
}

proof fn drops_stay_in_order(
    store: StoreView,
    name: Seq<char>,
    clears_ranges: bool,
    turns: Seq<DropTurn>,
)
    requires
        store.names.contains_key(name),
        all_listed(store, name, clears_ranges, turns),
    ensures
        ({
            let run = dropped(store, name, clears_ranges, turns);
            &&& in_order(store, run.store, name)
            &&& run.store.names.contains_key(name) && !clears_ranges ==> forall|key: Seq<u8>|
                #[trigger]
                run.passed.contains(key) ==> !run.store.data.contains_key(
                    (store.names[name], key),
                )
        }),
    decreases turns.len(),
{
    if turns.len() > 0 {
        let shorter = turns.drop_last();
        let turn = turns.last();
        let id = store.names[name];
        let run = dropped(store, name, clears_ranges, shorter);
        let after = run.after(name, clears_ranges, turn);
        listed_before(store, name, clears_ranges, turns);
        drops_stay_in_order(store, name, clears_ranges, shorter);
        if run.store.marks_now(name) {
            let marked = run.store.written(name, clears_ranges, turn.page);
            assert(marked.manifests.remove(id) =~= run.store.manifests.remove(id));
        } else if run.store.deletes_now(name) {
            let open = DropRun {
                store: run.store,
                passed: if clears_ranges {
                    Set::empty()
                } else {
                    run.passed
                },
            };
            deletions_stay_in_order(store, open, name, clears_ranges, turn.page);
            let step = planned_deletion(clears_ranges, turn.page.is_manifest, turn.page.more);
            if step is Advance {
                assert(run.store.written(name, clears_ranges, turn.page) == run.store);
            }
        }
    }
}

/// A drop keeps its order over any number of attempts, whatever their pages
/// and however their commits end: nothing outside the index changes, no key of
/// its range goes before its Dropping manifest is stored, and its name goes
/// last, with nothing of the index left. A drop that succeeds has removed the
/// name.
pub proof fn drops_keep_their_order(
    store: StoreView,
    name: Seq<char>,
    clears_ranges: bool,
    turns: Seq<DropTurn>,
    turn: DropTurn,
)
    requires
        store.names.contains_key(name),
        all_listed(store, name, clears_ranges, turns.push(turn)),
    ensures
        ({
            let run = dropped(store, name, clears_ranges, turns);
            let after = run.after(name, clears_ranges, turn);
            &&& in_order(store, run.store, name)
            &&& in_order(store, after.store, name)
            &&& run.succeeds(name, clears_ranges, turn) ==> {
                &&& !after.store.names.contains_key(name)
                &&& after.store.holds_nothing_of(store.names[name])
            }
            &&& run.store.marks_now(name) ==> after.store.data == run.store.data
                && after.store.names == run.store.names
        }),
{
    let all = turns.push(turn);
    assert(all.drop_last() =~= turns);
    listed_before(store, name, clears_ranges, all);
    drops_stay_in_order(store, name, clears_ranges, turns);
    drops_stay_in_order(store, name, clears_ranges, all);
}

/// Dropping an absent name succeeds and writes nothing, so a finished drop may
/// be repeated.
pub proof fn dropping_again_writes_nothing(
    run: DropRun,
    name: Seq<char>,
    clears_ranges: bool,
    turn: DropTurn,
)
    requires
        !run.store.names.contains_key(name),
    ensures
        run.store.written(name, clears_ranges, turn.page) == run.store,
        run.after(name, clears_ranges, turn).store == run.store,
        run.succeeds(name, clears_ranges, turn),
{
}

} // verus!
