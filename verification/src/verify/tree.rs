//! The checks of one whole tree.
//!
//! When every partition of a tree has been scanned, its summaries and Child
//! Entry edges are checked together: the allocator high-water mark, the unique
//! incoming reference of every partition below the root, the references of the
//! durable states, and root-down reachability.

use std::collections::{BTreeMap, BTreeSet};

use vstd::prelude::*;

use crate::api::identifiers::{partition_key_of_view, PartitionKey};
use crate::api::verify::VerifyIssueKind;
use crate::topology::{split_targets, PartitionTransition};
use crate::verify::sink::{
    fed, fed_in_parts, fed_one, stopped_sinks_stay, Finding, Sink, SinkView,
};

verus! {

broadcast use partition_key_of_view;

/// The Tree Manifest of one tree.
#[derive(Clone, Copy, Debug, PartialEq, Eq, Structural)]
pub struct TreeManifest {
    /// The root partition.
    pub root: PartitionKey,
    /// The largest Partition Key allocated so far.
    pub high_water: PartitionKey,
}

/// What one scanned partition leaves behind for the checks of its tree.
#[derive(Clone, Copy, Debug, PartialEq, Eq, Structural)]
pub struct PartitionSummary {
    /// The level of the Header, unless the Header is missing.
    pub level: Option<u32>,
    /// The durable transition, unless the State is missing.
    pub transition: Option<PartitionTransition>,
}

/// One scanned partition of a tree.
#[derive(Clone, Copy, Debug, PartialEq, Eq, Structural)]
pub struct ScannedPartition {
    /// The partition.
    pub partition: PartitionKey,
    /// What it left behind.
    pub summary: PartitionSummary,
}

/// One Child Entry.
#[derive(Clone, Copy, Debug, PartialEq, Eq, Structural)]
pub struct Edge {
    /// The partition that holds the entry.
    pub parent: PartitionKey,
    /// The partition that the entry names.
    pub child: PartitionKey,
}

/// Whether the partitions are in strictly ascending key order.
pub open spec fn ascending(table: Seq<ScannedPartition>) -> bool {
    forall|i: int, j: int|
        0 <= i < j < table.len() ==> table[i].partition@ < table[j].partition@
}

/// Whether a partition was scanned at a position.
pub open spec fn scanned_at(table: Seq<ScannedPartition>, partition: PartitionKey, i: int) -> bool {
    0 <= i < table.len() && table[i].partition == partition
}

/// What a partition left behind, if it was scanned.
pub open spec fn find(table: Seq<ScannedPartition>, partition: PartitionKey) -> Option<
    PartitionSummary,
> {
    if exists|i: int| scanned_at(table, partition, i) {
        Some(table[choose|i: int| scanned_at(table, partition, i)].summary)
    } else {
        None
    }
}

proof fn find_at(table: Seq<ScannedPartition>, i: int)
    requires
        ascending(table),
        0 <= i < table.len(),
    ensures
        find(table, table[i].partition) == Some(table[i].summary),
{
    let partition = table[i].partition;
    assert(scanned_at(table, partition, i));
    let j = choose|j: int| scanned_at(table, partition, j);
    assert(scanned_at(table, partition, j));
    if i < j {
        assert(table[i].partition@ < table[j].partition@);
    } else if j < i {
        assert(table[j].partition@ < table[i].partition@);
    }
}

/// The partitions with one more, in key order; a partition scanned again
/// replaces what it left behind before.
pub open spec fn recorded(table: Seq<ScannedPartition>, entry: ScannedPartition) -> Seq<
    ScannedPartition,
>
    decreases table.len(),
{
    if table.len() == 0 || table.last().partition@ < entry.partition@ {
        table.push(entry)
    } else if table.last().partition == entry.partition {
        table.drop_last().push(entry)
    } else {
        recorded(table.drop_last(), entry).push(table.last())
    }
}

proof fn recorded_at(table: Seq<ScannedPartition>, entry: ScannedPartition, at: int)
    requires
        ascending(table),
        0 <= at <= table.len(),
        forall|i: int| 0 <= i < at ==> table[i].partition@ < entry.partition@,
        forall|i: int| at <= i < table.len() ==> entry.partition@ <= table[i].partition@,
    ensures
        recorded(table, entry) == if at < table.len() && table[at].partition == entry.partition {
            table.update(at, entry)
        } else {
            table.insert(at, entry)
        },
    decreases table.len(),
{
    if at < table.len() {
        let last = table.last();
        let shorter = table.drop_last();
        assert(last == table[table.len() - 1]);
        if last.partition == entry.partition {
            if at < table.len() - 1 {
                assert(table[at].partition@ < table[table.len() - 1].partition@);
            }
            assert(table.drop_last().push(entry) =~= table.update(at, entry));
        } else {
            assert(last.partition@ > entry.partition@);
            recorded_at(shorter, entry, at);
            if at < table.len() - 1 {
                assert(shorter[at] == table[at]);
                if table[at].partition == entry.partition {
                    assert(shorter.update(at, entry).push(last) =~= table.update(at, entry));
                } else {
                    assert(shorter.insert(at, entry).push(last) =~= table.insert(at, entry));
                }
            } else {
                assert(shorter.insert(at, entry).push(last) =~= table.insert(at, entry));
            }
        }
    } else {
        assert(table.push(entry) =~= table.insert(at, entry));
        if table.len() > 0 {
            assert(table[table.len() - 1].partition@ < entry.partition@);
        }
    }
}

/// Recording a partition keeps the key order and changes what that partition
/// left behind, and nothing else.
pub proof fn recording_keeps_the_order(
    table: Seq<ScannedPartition>,
    entry: ScannedPartition,
    other: PartitionKey,
)
    requires
        ascending(table),
    ensures
        ascending(recorded(table, entry)),
        find(recorded(table, entry), other) == if other == entry.partition {
            Some(entry.summary)
        } else {
            find(table, other)
        },
{
    let at = place_of(table, entry.partition);
    recorded_at(table, entry, at);
    let after = recorded(table, entry);
    if at < table.len() && table[at].partition == entry.partition {
        assert(ascending(after)) by {
            assert forall|i: int, j: int| 0 <= i < j < after.len() implies after[i].partition@
                < after[j].partition@ by {
                assert(table[i].partition@ < table[j].partition@);
            }
        }
        if other == entry.partition {
            find_at(after, at);
        } else {
            same_elsewhere(table, after, other);
        }
    } else {
        assert forall|i: int| at <= i < table.len() implies table[i].partition@
            > entry.partition@ by {
            if table[i].partition@ == entry.partition@ {
                assert(i == at || table[at].partition@ < table[i].partition@);
            }
        }
        assert(ascending(after));
        if other == entry.partition {
            find_at(after, at);
        } else {
            found_behind_insert(table, at, entry, other);
        }
    }
}

proof fn place_of(table: Seq<ScannedPartition>, partition: PartitionKey) -> (at: int)
    requires
        ascending(table),
    ensures
        0 <= at <= table.len(),
        forall|i: int| 0 <= i < at ==> table[i].partition@ < partition@,
        forall|i: int| at <= i < table.len() ==> partition@ <= table[i].partition@,
    decreases table.len(),
{
    if table.len() == 0 {
        0
    } else if table.last().partition@ < partition@ {
        assert forall|i: int| 0 <= i < table.len() implies table[i].partition@ < partition@ by {
            if i < table.len() - 1 {
                assert(table[i].partition@ < table[table.len() - 1].partition@);
            }
        }
        table.len() as int
    } else {
        let shorter = table.drop_last();
        let at = place_of(shorter, partition);
        assert forall|i: int| 0 <= i < at implies table[i].partition@ < partition@ by {
            assert(shorter[i] == table[i]);
        }
        assert forall|i: int| at <= i < table.len() implies partition@
            <= table[i].partition@ by {
            if i < shorter.len() {
                assert(shorter[i] == table[i]);
            }
        }
        at
    }
}

/// One completely scanned tree.
#[verifier::ext_equal]
pub ghost struct TreeView {
    /// The stable hash of its Tree Key.
    pub hash: Seq<u8>,
    /// Its Tree Manifest, if there is one.
    pub manifest: Option<TreeManifest>,
    /// Its partitions, in key order.
    pub table: Seq<ScannedPartition>,
    /// Its Child Entries, in scan order.
    pub edges: Seq<Edge>,
}

/// Some findings of every position below `n`, in order.
pub open spec fn gathered(n: int, each: spec_fn(int) -> Seq<Finding>) -> Seq<Finding>
    decreases n,
{
    if n <= 0 {
        Seq::empty()
    } else {
        gathered(n - 1, each) + each(n - 1)
    }
}

/// One finding when a condition holds, and none otherwise.
pub open spec fn finding_if(condition: bool, finding: Finding) -> Seq<Finding> {
    if condition {
        seq![finding]
    } else {
        Seq::empty()
    }
}

impl TreeView {
    /// A finding about one partition of this tree.
    pub open spec fn finding(self, kind: VerifyIssueKind, partition: PartitionKey) -> Finding {
        Finding { kind, tree: Some(self.hash), partition: Some(partition), record_id: None }
    }

    /// What a partition left behind, if it was scanned.
    pub open spec fn summary(self, partition: PartitionKey) -> Option<PartitionSummary> {
        find(self.table, partition)
    }

    /// The level of a partition, if it was scanned with a Header.
    pub open spec fn level(self, partition: PartitionKey) -> Option<u32> {
        match self.summary(partition) {
            Some(summary) => summary.level,
            None => None,
        }
    }

    /// The transition of a partition, if it was scanned with a State.
    pub open spec fn transition(self, partition: PartitionKey) -> Option<PartitionTransition> {
        match self.summary(partition) {
            Some(summary) => summary.transition,
            None => None,
        }
    }

    /// Whether the state of a partition is a split in flight with `target`
    /// among its targets.
    pub open spec fn splits_into(self, partition: PartitionKey, target: PartitionKey) -> bool {
        self.transition(partition) matches Some(transition) && transition.targets() matches Some(
            targets,
        ) && (targets.0 == target || targets.1 == target)
    }

    /// Whether one of the first `n` Child Entries names a partition.
    pub open spec fn named_before(self, n: int, partition: PartitionKey) -> bool {
        exists|j: int| 0 <= j < n && (#[trigger] self.edges[j]).child == partition
    }

    /// Whether a partition stands without an incoming Child Entry: the root,
    /// and the targets of a split of the root.
    pub open spec fn edgeless(self, root: PartitionKey, partition: PartitionKey) -> bool {
        partition == root || self.splits_into(root, partition)
    }

    /// Whether one partition leads to another: by a Child Entry, or as a split
    /// in flight to a scanned target.
    pub open spec fn leads_to(self, from: PartitionKey, to: PartitionKey) -> bool {
        ||| self.edges.contains(Edge { parent: from, child: to })
        ||| self.splits_into(from, to) && self.summary(to) is Some
    }

    /// Whether a sequence of partitions starts at the root and every one
    /// leads to the next.
    pub open spec fn path(self, root: PartitionKey, steps: Seq<PartitionKey>) -> bool {
        &&& steps.len() > 0
        &&& steps[0] == root
        &&& forall|i: int, j: int|
            0 <= i && j == i + 1 && j < steps.len() ==> self.leads_to(
                #[trigger] steps[i],
                #[trigger] steps[j],
            )
    }

    /// Whether a partition can be reached from the root.
    pub open spec fn reachable(self, root: PartitionKey, partition: PartitionKey) -> bool {
        exists|steps: Seq<PartitionKey>| #[trigger]
            self.path(root, steps) && steps.last() == partition
    }

    /// Every scanned partition of a tree without a Tree Manifest.
    pub open spec fn unowned(self) -> spec_fn(int) -> Seq<Finding> {
        |i: int| seq![self.finding(VerifyIssueKind::Reachability, self.table[i].partition)]
    }

    /// A partition above the allocator high-water mark.
    pub open spec fn unallocated(self, high_water: PartitionKey) -> spec_fn(int) -> Seq<Finding> {
        |i: int|
            finding_if(
                self.table[i].partition@ > high_water@,
                self.finding(VerifyIssueKind::CountMismatch, self.table[i].partition),
            )
    }

    /// A root that was not scanned.
    pub open spec fn missing_root(self, root: PartitionKey) -> Seq<Finding> {
        finding_if(self.summary(root) is None, self.finding(VerifyIssueKind::Reachability, root))
    }

    /// A Child Entry that names a partition that was not scanned, that does
    /// not stand exactly one level above the named one, or that names a
    /// partition again.
    pub open spec fn broken_edge(self) -> spec_fn(int) -> Seq<Finding> {
        |i: int|
            {
                let edge = self.edges[i];
                let missing = finding_if(
                    self.summary(edge.child) is None,
                    self.finding(VerifyIssueKind::Reachability, edge.parent),
                );
                let misplaced = finding_if(
                    match (self.level(edge.parent), self.level(edge.child)) {
                        (Some(parent), Some(child)) => parent != if child == u32::MAX {
                            u32::MAX as int
                        } else {
                            child + 1
                        },
                        _ => false,
                    },
                    self.finding(VerifyIssueKind::Membership, edge.parent),
                );
                let repeated = finding_if(
                    self.named_before(i, edge.child),
                    self.finding(VerifyIssueKind::Membership, edge.child),
                );
                missing + misplaced + repeated
            }
    }

    /// A partition with an incoming Child Entry that must not have one, or
    /// without one that must.
    pub open spec fn misowned(self, root: PartitionKey) -> spec_fn(int) -> Seq<Finding> {
        |i: int|
            finding_if(
                self.edgeless(root, self.table[i].partition) == self.named_before(
                    self.edges.len() as int,
                    self.table[i].partition,
                ),
                self.finding(VerifyIssueKind::Membership, self.table[i].partition),
            )
    }

    /// The findings of one target that a split source names.
    pub open spec fn broken_target(
        self,
        manifest: TreeManifest,
        source: ScannedPartition,
        target: PartitionKey,
    ) -> Seq<Finding> {
        let broken = self.finding(VerifyIssueKind::Reachability, source.partition);
        let unallocated = finding_if(
            target@ > manifest.high_water@,
            self.finding(VerifyIssueKind::CountMismatch, source.partition),
        );
        unallocated + if target == manifest.root {
            seq![broken]
        } else {
            match self.summary(target) {
                Some(found) => {
                    let names_back = found.transition matches Some(
                        PartitionTransition::ReceivingSplit { source: named, .. },
                    ) && named == source.partition;
                    let other_level = found.level is Some && source.summary.level is Some
                        && found.level != source.summary.level;
                    finding_if(!names_back, broken) + finding_if(other_level, broken)
                },
                None => finding_if(
                    source.summary.transition matches Some(
                        PartitionTransition::DrainingSplit { .. },
                    ),
                    broken,
                ),
            }
        }
    }

    /// A filling split target whose source does not name it, and the targets
    /// of a split source.
    pub open spec fn broken_state(self, manifest: TreeManifest) -> spec_fn(int) -> Seq<Finding> {
        |i: int|
            {
                let entry = self.table[i];
                match entry.summary.transition {
                    Some(PartitionTransition::ReceivingSplit { source, .. }) => finding_if(
                        !self.splits_into(source, entry.partition),
                        self.finding(VerifyIssueKind::Reachability, entry.partition),
                    ),
                    Some(PartitionTransition::Splitting { left, right, .. }) => self.broken_target(
                        manifest,
                        entry,
                        left,
                    ) + self.broken_target(manifest, entry, right),
                    Some(PartitionTransition::DrainingSplit { left, right, .. }) =>
                        self.broken_target(manifest, entry, left) + self.broken_target(
                            manifest,
                            entry,
                            right,
                        ),
                    _ => Seq::empty(),
                }
            }
    }

    /// A partition that the root does not reach.
    pub open spec fn unreachable(self, root: PartitionKey) -> spec_fn(int) -> Seq<Finding> {
        |i: int|
            finding_if(
                !self.reachable(root, self.table[i].partition),
                self.finding(VerifyIssueKind::Reachability, self.table[i].partition),
            )
    }

    /// Every finding about this tree, in the order of the checks.
    pub open spec fn findings(self) -> Seq<Finding> {
        let scanned = self.table.len() as int;
        match self.manifest {
            None => gathered(scanned, self.unowned()),
            Some(manifest) => gathered(scanned, self.unallocated(manifest.high_water))
                + self.missing_root(manifest.root) + gathered(
                self.edges.len() as int,
                self.broken_edge(),
            ) + gathered(scanned, self.misowned(manifest.root)) + gathered(
                scanned,
                self.broken_state(manifest),
            ) + gathered(scanned, self.unreachable(manifest.root)),
        }
    }
}

proof fn gathered_in_parts(sink: SinkView, n: int, i: int, each: spec_fn(int) -> Seq<Finding>)
    requires
        0 <= i <= n,
        fed(sink, gathered(i, each)).truncated,
    ensures
        fed(sink, gathered(n, each)) == fed(sink, gathered(i, each)),
    decreases n - i,
{
    if i < n {
        gathered_in_parts(sink, n - 1, i, each);
        fed_in_parts(sink, gathered(n - 1, each), each(n - 1));
        stopped_sinks_stay(fed(sink, gathered(n - 1, each)), each(n - 1));
    }
}

/// The scanned partitions and Child Entries of one tree.
pub struct TreeFacts {
    /// The stable hash of the Tree Key.
    pub hash: [u8; 32],
    /// The Tree Manifest, if there is one.
    pub manifest: Option<TreeManifest>,
    /// The scanned partitions, in key order.
    pub table: Vec<ScannedPartition>,
    /// The Child Entries, in scan order.
    pub edges: Vec<Edge>,
}

/// Whether a map lists the children of the first `n` Child Entries by parent.
spec fn lists_edges(map: Map<u64, Vec<PartitionKey>>, edges: Seq<Edge>, n: int) -> bool {
    &&& forall|j: int| 0 <= j < n ==> lists(map, #[trigger] edges[j])
    &&& forall|a: u64, k: int|
        map.contains_key(a) && 0 <= k < map[a]@.len() ==> lists_only(
            edges,
            n,
            a,
            #[trigger] map[a]@[k],
        )
}

spec fn lists(map: Map<u64, Vec<PartitionKey>>, edge: Edge) -> bool {
    map.contains_key(edge.parent@) && map[edge.parent@]@.contains(edge.child)
}

spec fn lists_only(edges: Seq<Edge>, n: int, parent: u64, child: PartitionKey) -> bool {
    exists|j: int| 0 <= j < n && (#[trigger] edges[j]).parent@ == parent && edges[j].child == child
}

fn children_of(edges: &Vec<Edge>) -> (res: BTreeMap<u64, Vec<PartitionKey>>)
    ensures
        lists_edges(res@, edges@, edges@.len() as int),
{
    let mut res: BTreeMap<u64, Vec<PartitionKey>> = BTreeMap::new();
    let mut i: usize = 0;
    while i < edges.len()
        invariant
            i <= edges@.len(),
            lists_edges(res@, edges@, i as int),
        decreases edges@.len() - i,
    {
        let edge = edges[i];
        let ghost before = res@;
        let mut children: Vec<PartitionKey> = match res.remove(&edge.parent.get()) {
            Some(children) => children,
            None => Vec::new(),
        };
        let ghost old_children = children@;
        children.push(edge.child);
        res.insert(edge.parent.get(), children);
        proof {
            let parent = edge.parent@;
            assert(res@[parent]@ == old_children.push(edge.child));
            assert forall|j: int| 0 <= j < i + 1 implies lists(res@, #[trigger] edges@[j]) by {
                if j == i {
                    assert(res@[parent]@[old_children.len() as int] == edge.child);
                } else {
                    assert(lists(before, edges@[j]));
                    if edges@[j].parent@ == parent {
                        let k = choose|k: int|
                            0 <= k < before[parent]@.len() && before[parent]@[k]
                                == edges@[j].child;
                        assert(res@[parent]@[k] == edges@[j].child);
                    }
                }
            }
            assert forall|a: u64, k: int|
                res@.contains_key(a) && 0 <= k < res@[a]@.len() implies lists_only(
                edges@,
                i + 1,
                a,
                #[trigger] res@[a]@[k],
            ) by {
                if a == parent && k == old_children.len() {
                    assert(edges@[i as int].child == edge.child);
                } else {
                    assert(before.contains_key(a));
                    assert(lists_only(edges@, i as int, a, before[a]@[k]));
                }
            }
        }
        i = i + 1;
    }
    res
}

proof fn paths_extend(
    tree: TreeView,
    root: PartitionKey,
    from: PartitionKey,
    to: PartitionKey,
)
    requires
        tree.reachable(root, from),
        tree.leads_to(from, to),
    ensures
        tree.reachable(root, to),
{
    let steps = choose|steps: Seq<PartitionKey>| #[trigger]
        tree.path(root, steps) && steps.last() == from;
    let longer = steps.push(to);
    assert forall|i: int, j: int| 0 <= i && j == i + 1 && j < longer.len() implies tree.leads_to(
        #[trigger] longer[i],
        #[trigger] longer[j],
    ) by {
        if j < steps.len() {
            assert(tree.leads_to(steps[i], steps[j]));
        }
    }
    assert(tree.path(root, longer));
    assert(longer.last() == to);
}

/// Whether every partition a visited one leads to was visited or waits.
spec fn closed_over(tree: TreeView, visited: Set<u64>, waiting: Seq<PartitionKey>) -> bool {
    forall|a: PartitionKey, b: PartitionKey|
        visited.contains(a@) && #[trigger] tree.leads_to(a, b) ==> visited.contains(b@)
            || waiting.contains(b)
}

proof fn closed_sets_hold_paths(
    tree: TreeView,
    root: PartitionKey,
    visited: Set<u64>,
    steps: Seq<PartitionKey>,
)
    requires
        closed_over(tree, visited, Seq::empty()),
        visited.contains(root@),
        tree.path(root, steps),
    ensures
        visited.contains(steps.last()@),
    decreases steps.len(),
{
    if steps.len() > 1 {
        let shorter = steps.drop_last();
        assert forall|i: int, j: int|
            0 <= i && j == i + 1 && j < shorter.len() implies tree.leads_to(
            #[trigger] shorter[i],
            #[trigger] shorter[j],
        ) by {
            assert(tree.leads_to(steps[i], steps[j]));
        }
        closed_sets_hold_paths(tree, root, visited, shorter);
        let a = steps[steps.len() - 2];
        let b = steps[steps.len() - 1];
        assert(shorter.last() == a);
        assert(tree.leads_to(a, b));
    }
}

/// Every partition the walk can meet.
spec fn universe(tree: TreeView, root: PartitionKey) -> Seq<u64> {
    seq![root@] + Seq::new(tree.edges.len(), |i: int| tree.edges[i].child@) + Seq::new(
        tree.table.len(),
        |i: int| tree.table[i].partition@,
    )
}

proof fn universe_holds(tree: TreeView, root: PartitionKey, from: PartitionKey, to: PartitionKey)
    requires
        tree.leads_to(from, to),
    ensures
        universe(tree, root).to_set().contains(to@),
{
    let all = universe(tree, root);
    if tree.edges.contains(Edge { parent: from, child: to }) {
        let j = choose|j: int|
            0 <= j < tree.edges.len() && tree.edges[j] == (Edge { parent: from, child: to });
        assert(all[1 + j] == to@);
    } else {
        let i = choose|i: int| scanned_at(tree.table, to, i);
        assert(scanned_at(tree.table, to, i));
        assert(all[1 + tree.edges.len() + i] == to@);
    }
}

impl TreeFacts {
    /// The scanned tree.
    pub open spec fn view(&self) -> TreeView {
        TreeView {
            hash: self.hash@,
            manifest: self.manifest,
            table: self.table@,
            edges: self.edges@,
        }
    }

    /// Whether the partitions are in strictly ascending key order.
    pub open spec fn valid(&self) -> bool {
        ascending(self.table@)
    }

    /// A tree of which nothing was scanned yet.
    pub fn new(hash: [u8; 32], manifest: Option<TreeManifest>) -> (res: Self)
        ensures
            res.valid(),
            res@ == (TreeView {
                hash: hash@,
                manifest,
                table: Seq::empty(),
                edges: Seq::empty(),
            }),
    {
        TreeFacts { hash, manifest, table: Vec::new(), edges: Vec::new() }
    }

    fn position(&self, partition: PartitionKey) -> (res: usize)
        requires
            self.valid(),
        ensures
            res <= self.table@.len(),
            forall|i: int| 0 <= i < res ==> self.table@[i].partition@ < partition@,
            forall|i: int|
                res <= i < self.table@.len() ==> partition@ <= self.table@[i].partition@,
    {
        let mut low: usize = 0;
        let mut high: usize = self.table.len();
        while low < high
            invariant
                low <= high <= self.table@.len(),
                self.valid(),
                forall|i: int| 0 <= i < low ==> self.table@[i].partition@ < partition@,
                forall|i: int|
                    high <= i < self.table@.len() ==> partition@ <= self.table@[i].partition@,
            decreases high - low,
        {
            let middle: usize = low + (high - low) / 2;
            if self.table[middle].partition.get() < partition.get() {
                low = middle + 1;
            } else {
                high = middle;
            }
        }
        low
    }

    /// Returns what a partition left behind, if it was scanned.
    pub fn get(&self, partition: PartitionKey) -> (res: Option<PartitionSummary>)
        requires
            self.valid(),
        ensures
            res == self@.summary(partition),
    {
        let at: usize = self.position(partition);
        if at < self.table.len() && self.table[at].partition == partition {
            proof {
                find_at(self.table@, at as int);
            }
            Some(self.table[at].summary)
        } else {
            assert forall|i: int| !scanned_at(self.table@, partition, i) by {
                if at < self.table@.len() && at <= i < self.table@.len() {
                    assert(self.table@[at as int].partition@ != partition@);
                }
            }
            None
        }
    }

    /// Records one scanned partition, replacing what it left behind before.
    pub fn insert(&mut self, partition: PartitionKey, summary: PartitionSummary)
        requires
            old(self).valid(),
        ensures
            final(self).valid(),
            final(self)@ == (TreeView {
                table: recorded(old(self)@.table, ScannedPartition { partition, summary }),
                ..old(self)@
            }),
    {
        let at: usize = self.position(partition);
        let entry = ScannedPartition { partition, summary };
        proof {
            recorded_at(self.table@, entry, at as int);
            recording_keeps_the_order(self.table@, entry, partition);
        }
        if at < self.table.len() && self.table[at].partition == partition {
            self.table.set(at, entry);
        } else {
            self.table.insert(at, entry);
        }
    }

    fn reach(&self, root: PartitionKey) -> (res: BTreeSet<u64>)
        requires
            self.valid(),
        ensures
            forall|partition: PartitionKey|
                res@.contains(#[trigger] partition@) <==> self@.reachable(root, partition),
    {
        let children = children_of(&self.edges);
        let mut visited: BTreeSet<u64> = BTreeSet::new();
        let mut waiting: Vec<PartitionKey> = Vec::new();
        waiting.push(root);
        let ghost tree = self@;
        let ghost all = universe(tree, root).to_set();
        proof {
            broadcast use vstd::seq_lib::seq_to_set_is_finite;
            assert(tree.path(root, seq![root]));
            assert(seq![root].last() == root);
            assert(universe(tree, root)[0] == root@);
            assert(all.contains(root@));
            assert(waiting@.contains(root)) by {
                assert(waiting@[0] == root);
            }
        }
        while waiting.len() > 0
            invariant
                self.valid(),
                tree == self@,
                lists_edges(children@, self.edges@, self.edges@.len() as int),
                all == universe(tree, root).to_set(),
                all.finite(),
                visited@.finite(),
                visited@.subset_of(all),
                visited@.contains(root@) || waiting@.contains(root),
                forall|i: int| 0 <= i < waiting@.len() ==> all.contains((#[trigger] waiting@[i])@),
                forall|i: int|
                    0 <= i < waiting@.len() ==> tree.reachable(root, #[trigger] waiting@[i]),
                forall|partition: PartitionKey|
                    visited@.contains(#[trigger] partition@) ==> tree.reachable(root, partition),
                closed_over(tree, visited@, waiting@),
            decreases all.len() - visited@.len(), waiting@.len(),
        {
            let ghost waited = waiting@;
            let ghost was_visited = visited@;
            let rest_len: usize = waiting.len() - 1;
            let partition = waiting[rest_len];
            waiting.truncate(rest_len);
            assert(waited =~= waiting@.push(partition));
            assert(tree.reachable(root, waited[waited.len() - 1]));
            assert(all.contains(waited[waited.len() - 1]@));
            assert forall|i: int| 0 <= i < waiting@.len() implies {
                &&& tree.reachable(root, #[trigger] waiting@[i])
                &&& all.contains(waiting@[i]@)
            } by {
                assert(waited[i] == waiting@[i]);
            }
            if !visited.insert(partition.get()) {
                proof {
                    assert(visited@ =~= was_visited);
                    assert forall|a: PartitionKey, b: PartitionKey|
                        visited@.contains(a@) && #[trigger] tree.leads_to(a, b) implies {
                        visited@.contains(b@) || waiting@.contains(b)
                    } by {
                        if waited.contains(b) && b != partition {
                            let k = choose|k: int| 0 <= k < waited.len() && waited[k] == b;
                            assert(waiting@[k] == b);
                        }
                    }
                    if waited.contains(root) && root != partition {
                        let k = choose|k: int| 0 <= k < waited.len() && waited[k] == root;
                        assert(waiting@[k] == root);
                    }
                }
                continue;
            }
            proof {
                assert(visited@ =~= was_visited.insert(partition@));
                vstd::set_lib::lemma_len_subset(visited@, all);
            }
            self.follow(partition, &children, &mut waiting);
            proof {
                let grown = waiting@;
                assert forall|i: int| 0 <= i < grown.len() implies {
                    &&& tree.reachable(root, #[trigger] grown[i])
                    &&& all.contains(grown[i]@)
                } by {
                    if i < rest_len {
                        assert(grown[i] == waited[i]);
                    } else {
                        assert(tree.leads_to(partition, grown[i]));
                        paths_extend(tree, root, partition, grown[i]);
                        universe_holds(tree, root, partition, grown[i]);
                    }
                }
                assert forall|a: PartitionKey, b: PartitionKey|
                    visited@.contains(a@) && #[trigger] tree.leads_to(a, b) implies {
                    visited@.contains(b@) || grown.contains(b)
                } by {
                    if a != partition {
                        assert(was_visited.contains(a@));
                        if waited.contains(b) && b != partition {
                            let k = choose|k: int| 0 <= k < waited.len() && waited[k] == b;
                            assert(grown[k] == b);
                        }
                    }
                }
                if waited.contains(root) && root != partition {
                    let k = choose|k: int| 0 <= k < waited.len() && waited[k] == root;
                    assert(grown[k] == root);
                }
                assert forall|other: PartitionKey|
                    visited@.contains(#[trigger] other@) implies tree.reachable(root, other) by {
                    if other@ != partition@ {
                        assert(was_visited.contains(other@));
                    }
                }
            }
        }
        proof {
            assert(waiting@ =~= Seq::<PartitionKey>::empty());
            assert forall|partition: PartitionKey|
                tree.reachable(root, partition) implies visited@.contains(
                #[trigger] partition@,
            ) by {
                let steps = choose|steps: Seq<PartitionKey>| #[trigger]
                    tree.path(root, steps) && steps.last() == partition;
                closed_sets_hold_paths(tree, root, visited@, steps);
            }
        }
        visited
    }

    fn follow(
        &self,
        partition: PartitionKey,
        children: &BTreeMap<u64, Vec<PartitionKey>>,
        waiting: &mut Vec<PartitionKey>,
    )
        requires
            self.valid(),
            lists_edges(children@, self.edges@, self.edges@.len() as int),
        ensures
            final(waiting)@.len() >= old(waiting)@.len(),
            forall|i: int|
                0 <= i < old(waiting)@.len() ==> #[trigger] final(waiting)@[i]
                    == old(waiting)@[i],
            forall|i: int|
                old(waiting)@.len() <= i < final(waiting)@.len() ==> self@.leads_to(
                    partition,
                    #[trigger] final(waiting)@[i],
                ),
            forall|to: PartitionKey| #[trigger]
                self@.leads_to(partition, to) ==> final(waiting)@.contains(to),
    {
        let ghost before = waiting@;
        match children.get(&partition.get()) {
            Some(named) => {
                let mut k: usize = 0;
                while k < named.len()
                    invariant
                        k <= named@.len(),
                        children@.contains_key(partition@),
                        children@[partition@] == *named,
                        lists_edges(children@, self.edges@, self.edges@.len() as int),
                        before == old(waiting)@,
                        waiting@.len() == before.len() + k,
                        forall|i: int|
                            0 <= i < before.len() ==> #[trigger] waiting@[i] == before[i],
                        forall|i: int|
                            before.len() <= i < waiting@.len() ==> self@.leads_to(
                                partition,
                                #[trigger] waiting@[i],
                            ),
                        forall|i: int|
                            0 <= i < k ==> waiting@[before.len() + i] == #[trigger] named@[i],
                    decreases named@.len() - k,
                {
                    let child = named[k];
                    proof {
                        assert(child == children@[partition@]@[k as int]);
                        assert(lists_only(
                            self.edges@,
                            self.edges@.len() as int,
                            partition@,
                            child,
                        ));
                        let j = choose|j: int|
                            0 <= j < self.edges@.len() && (#[trigger] self.edges@[j]).parent@
                                == partition@ && self.edges@[j].child == child;
                        assert(self.edges@[j] == (Edge { parent: partition, child })) by {
                            partition_key_of_view(self.edges@[j].parent);
                            partition_key_of_view(partition);
                        }
                    }
                    waiting.push(child);
                    k = k + 1;
                }
                assert forall|child: PartitionKey|
                    #[trigger] self.edges@.contains(
                        Edge { parent: partition, child },
                    ) implies waiting@.contains(child) by {
                    let edge = Edge { parent: partition, child };
                    let j = choose|j: int| 0 <= j < self.edges@.len() && self.edges@[j] == edge;
                    assert(lists(children@, self.edges@[j]));
                    let i = choose|i: int| 0 <= i < named@.len() && named@[i] == child;
                    assert(waiting@[before.len() + i] == named@[i]);
                }
            },
            None => {
                assert forall|child: PartitionKey|
                    #[trigger] self.edges@.contains(
                        Edge { parent: partition, child },
                    ) implies waiting@.contains(child) by {
                    let edge = Edge { parent: partition, child };
                    let j = choose|j: int| 0 <= j < self.edges@.len() && self.edges@[j] == edge;
                    assert(lists(children@, self.edges@[j]));
                }
            },
        }
        let ghost middle = waiting@;
        if let Some(summary) = self.get(partition) {
            if let Some(transition) = summary.transition {
                if let Some((left, right)) = split_targets(transition) {
                    if self.get(left).is_some() {
                        waiting.push(left);
                        assert(waiting@[middle.len() as int] == left);
                    }
                    let ghost with_left = waiting@;
                    if self.get(right).is_some() {
                        waiting.push(right);
                        assert(waiting@[with_left.len() as int] == right);
                    }
                    assert(self@.summary(left) is Some ==> waiting@[middle.len() as int] == left);
                }
            }
        }
        assert forall|to: PartitionKey| #[trigger]
            self@.leads_to(partition, to) implies waiting@.contains(to) by {
            if self.edges@.contains(Edge { parent: partition, child: to }) {
                let i = choose|i: int| 0 <= i < middle.len() && middle[i] == to;
                assert(waiting@[i] == to);
            }
        }
    }
}

impl TreeFacts {
    fn report(&self, sink: &mut Sink, kind: VerifyIssueKind, partition: PartitionKey)
        ensures
            final(sink)@ == old(sink)@.issued(self@.finding(kind, partition)),
            final(sink)@ == fed(old(sink)@, seq![self@.finding(kind, partition)]),
    {
        proof {
            fed_one(sink@, self@.finding(kind, partition));
        }
        sink.issue(kind, Some(self.hash), Some(partition), None);
    }

    fn report_if(
        &self,
        sink: &mut Sink,
        condition: bool,
        kind: VerifyIssueKind,
        partition: PartitionKey,
    )
        ensures
            final(sink)@ == fed(
                old(sink)@,
                finding_if(condition, self@.finding(kind, partition)),
            ),
    {
        if condition {
            self.report(sink, kind, partition);
        }
    }

    fn check_unowned(&self, sink: &mut Sink)
        ensures
            final(sink)@ == fed(
                old(sink)@,
                gathered(self@.table.len() as int, self@.unowned()),
            ),
    {
        let ghost start = sink@;
        let mut i: usize = 0;
        while i < self.table.len()
            invariant
                i <= self.table@.len(),
                start == old(sink)@,
                sink@ == fed(start, gathered(i as int, self@.unowned())),
            decreases self.table@.len() - i,
        {
            if sink.truncated() {
                proof {
                    gathered_in_parts(start, self.table@.len() as int, i as int, self@.unowned());
                }
                return;
            }
            proof {
                fed_in_parts(
                    start,
                    gathered(i as int, self@.unowned()),
                    (self@.unowned())(i as int),
                );
            }
            self.report(sink, VerifyIssueKind::Reachability, self.table[i].partition);
            i = i + 1;
        }
    }

    fn check_high_water(&self, sink: &mut Sink, high_water: PartitionKey)
        ensures
            final(sink)@ == fed(
                old(sink)@,
                gathered(self@.table.len() as int, self@.unallocated(high_water)),
            ),
    {
        let ghost start = sink@;
        let ghost each = self@.unallocated(high_water);
        let mut i: usize = 0;
        while i < self.table.len()
            invariant
                i <= self.table@.len(),
                start == old(sink)@,
                each == self@.unallocated(high_water),
                sink@ == fed(start, gathered(i as int, each)),
            decreases self.table@.len() - i,
        {
            if sink.truncated() {
                proof {
                    gathered_in_parts(start, self.table@.len() as int, i as int, each);
                }
                return;
            }
            proof {
                fed_in_parts(start, gathered(i as int, each), each(i as int));
            }
            let partition = self.table[i].partition;
            self.report_if(
                sink,
                partition.get() > high_water.get(),
                VerifyIssueKind::CountMismatch,
                partition,
            );
            i = i + 1;
        }
    }

    fn check_edges(&self, sink: &mut Sink) -> (res: BTreeSet<u64>)
        requires
            self.valid(),
        ensures
            final(sink)@ == fed(
                old(sink)@,
                gathered(self@.edges.len() as int, self@.broken_edge()),
            ),
            !final(sink)@.truncated ==> forall|partition: PartitionKey|
                res@.contains(#[trigger] partition@) <==> self@.named_before(
                    self@.edges.len() as int,
                    partition,
                ),
    {
        let ghost start = sink@;
        let ghost each = self@.broken_edge();
        let ghost tree = self@;
        let mut named: BTreeSet<u64> = BTreeSet::new();
        let mut i: usize = 0;
        while i < self.edges.len()
            invariant
                i <= self.edges@.len(),
                self.valid(),
                start == old(sink)@,
                tree == self@,
                each == tree.broken_edge(),
                sink@ == fed(start, gathered(i as int, each)),
                forall|partition: PartitionKey|
                    named@.contains(#[trigger] partition@) <==> tree.named_before(
                        i as int,
                        partition,
                    ),
            decreases self.edges@.len() - i,
        {
            if sink.truncated() {
                proof {
                    gathered_in_parts(start, self.edges@.len() as int, i as int, each);
                }
                return named;
            }
            let edge = self.edges[i];
            let parent = self.get(edge.parent);
            let child = self.get(edge.child);
            let ghost here = sink@;
            self.report_if(sink, child.is_none(), VerifyIssueKind::Reachability, edge.parent);
            let misplaced = match (parent, child) {
                (Some(parent), Some(child)) => match (parent.level, child.level) {
                    (Some(parent_level), Some(child_level)) => parent_level
                        != child_level.saturating_add(1),
                    _ => false,
                },
                _ => false,
            };
            self.report_if(sink, misplaced, VerifyIssueKind::Membership, edge.parent);
            let ghost names = named@;
            let fresh = named.insert(edge.child.get());
            assert(!fresh == tree.named_before(i as int, edge.child));
            self.report_if(sink, !fresh, VerifyIssueKind::Membership, edge.child);
            proof {
                let missing = finding_if(
                    tree.summary(edge.child) is None,
                    tree.finding(VerifyIssueKind::Reachability, edge.parent),
                );
                let apart = finding_if(
                    misplaced,
                    tree.finding(VerifyIssueKind::Membership, edge.parent),
                );
                let repeated = finding_if(
                    !fresh,
                    tree.finding(VerifyIssueKind::Membership, edge.child),
                );
                fed_in_parts(here, missing, apart);
                fed_in_parts(here, missing + apart, repeated);
                assert(each(i as int) == missing + apart + repeated);
                fed_in_parts(start, gathered(i as int, each), each(i as int));
                assert forall|partition: PartitionKey|
                    named@.contains(#[trigger] partition@) <==> tree.named_before(
                        i + 1,
                        partition,
                    ) by {
                    assert(named@.contains(partition@) == (names.contains(partition@)
                        || partition@ == edge.child@));
                    if partition == edge.child {
                        assert(tree.edges[i as int].child == partition);
                    } else if tree.named_before(i + 1, partition) {
                        let j = choose|j: int|
                            0 <= j < i + 1 && (#[trigger] tree.edges[j]).child == partition;
                        assert(j < i);
                        assert(tree.named_before(i as int, partition));
                    } else if tree.named_before(i as int, partition) {
                        let j = choose|j: int|
                            0 <= j < i && (#[trigger] tree.edges[j]).child == partition;
                        assert(tree.edges[j].child == partition);
                    }
                }
            }
            i = i + 1;
        }
        named
    }

    fn check_owners(&self, sink: &mut Sink, root: PartitionKey, named: &BTreeSet<u64>)
        requires
            self.valid(),
            !old(sink)@.truncated ==> forall|partition: PartitionKey|
                named@.contains(#[trigger] partition@) <==> self@.named_before(
                    self@.edges.len() as int,
                    partition,
                ),
        ensures
            final(sink)@ == fed(
                old(sink)@,
                gathered(self@.table.len() as int, self@.misowned(root)),
            ),
    {
        let ghost start = sink@;
        let ghost each = self@.misowned(root);
        let mut i: usize = 0;
        while i < self.table.len()
            invariant
                i <= self.table@.len(),
                self.valid(),
                start == old(sink)@,
                !start.truncated ==> forall|partition: PartitionKey|
                    named@.contains(#[trigger] partition@) <==> self@.named_before(
                        self@.edges.len() as int,
                        partition,
                    ),
                start.truncated ==> sink@.truncated,
                each == self@.misowned(root),
                sink@ == fed(start, gathered(i as int, each)),
            decreases self.table@.len() - i,
        {
            if sink.truncated() {
                proof {
                    gathered_in_parts(start, self.table@.len() as int, i as int, each);
                }
                return;
            }
            proof {
                fed_in_parts(start, gathered(i as int, each), each(i as int));
            }
            let partition = self.table[i].partition;
            let edgeless = partition == root || self.splits_into(root, partition);
            let has_parent = named.contains(&partition.get());
            assert(has_parent == named@.contains(partition@));
            self.report_if(
                sink,
                edgeless == has_parent,
                VerifyIssueKind::Membership,
                partition,
            );
            i = i + 1;
        }
    }

    fn splits_into(&self, partition: PartitionKey, target: PartitionKey) -> (res: bool)
        requires
            self.valid(),
        ensures
            res == self@.splits_into(partition, target),
    {
        match self.get(partition) {
            Some(summary) => match summary.transition {
                Some(transition) => match split_targets(transition) {
                    Some((left, right)) => left == target || right == target,
                    None => false,
                },
                None => false,
            },
            None => false,
        }
    }

    fn check_target(
        &self,
        sink: &mut Sink,
        manifest: TreeManifest,
        source: ScannedPartition,
        target: PartitionKey,
    )
        requires
            self.valid(),
        ensures
            final(sink)@ == fed(old(sink)@, self@.broken_target(manifest, source, target)),
    {
        let ghost start = sink@;
        let ghost broken = self@.finding(VerifyIssueKind::Reachability, source.partition);
        let ghost unallocated = finding_if(
            target@ > manifest.high_water@,
            self@.finding(VerifyIssueKind::CountMismatch, source.partition),
        );
        self.report_if(
            sink,
            target.get() > manifest.high_water.get(),
            VerifyIssueKind::CountMismatch,
            source.partition,
        );
        if target == manifest.root {
            proof {
                fed_in_parts(start, unallocated, seq![broken]);
            }
            self.report(sink, VerifyIssueKind::Reachability, source.partition);
            return;
        }
        match self.get(target) {
            Some(found) => {
                let names_back = match found.transition {
                    Some(PartitionTransition::ReceivingSplit { source: named, .. }) => named
                        == source.partition,
                    _ => false,
                };
                let other_level = match (found.level, source.summary.level) {
                    (Some(target_level), Some(source_level)) => target_level != source_level,
                    _ => false,
                };
                proof {
                    fed_in_parts(
                        sink@,
                        finding_if(!names_back, broken),
                        finding_if(other_level, broken),
                    );
                    fed_in_parts(
                        start,
                        unallocated,
                        finding_if(!names_back, broken) + finding_if(other_level, broken),
                    );
                }
                self.report_if(
                    sink,
                    !names_back,
                    VerifyIssueKind::Reachability,
                    source.partition,
                );
                self.report_if(
                    sink,
                    other_level,
                    VerifyIssueKind::Reachability,
                    source.partition,
                );
            },
            None => {
                let draining = matches!(
                    source.summary.transition,
                    Some(PartitionTransition::DrainingSplit { .. })
                );
                proof {
                    fed_in_parts(start, unallocated, finding_if(draining, broken));
                }
                self.report_if(
                    sink,
                    draining,
                    VerifyIssueKind::Reachability,
                    source.partition,
                );
            },
        }
    }

    fn check_states(&self, sink: &mut Sink, manifest: TreeManifest)
        requires
            self.valid(),
        ensures
            final(sink)@ == fed(
                old(sink)@,
                gathered(self@.table.len() as int, self@.broken_state(manifest)),
            ),
    {
        let ghost start = sink@;
        let ghost each = self@.broken_state(manifest);
        let mut i: usize = 0;
        while i < self.table.len()
            invariant
                i <= self.table@.len(),
                self.valid(),
                start == old(sink)@,
                each == self@.broken_state(manifest),
                sink@ == fed(start, gathered(i as int, each)),
            decreases self.table@.len() - i,
        {
            if sink.truncated() {
                proof {
                    gathered_in_parts(start, self.table@.len() as int, i as int, each);
                }
                return;
            }
            let entry = self.table[i];
            proof {
                fed_in_parts(start, gathered(i as int, each), each(i as int));
            }
            match entry.summary.transition {
                Some(PartitionTransition::ReceivingSplit { source, .. }) => {
                    let names_back = self.splits_into(source, entry.partition);
                    self.report_if(
                        sink,
                        !names_back,
                        VerifyIssueKind::Reachability,
                        entry.partition,
                    );
                },
                Some(PartitionTransition::Splitting { left, right, .. })
                | Some(PartitionTransition::DrainingSplit { left, right, .. }) => {
                    proof {
                        fed_in_parts(
                            sink@,
                            self@.broken_target(manifest, entry, left),
                            self@.broken_target(manifest, entry, right),
                        );
                    }
                    self.check_target(sink, manifest, entry, left);
                    self.check_target(sink, manifest, entry, right);
                },
                _ => {},
            }
            i = i + 1;
        }
    }

    fn check_reachability(&self, sink: &mut Sink, root: PartitionKey)
        requires
            self.valid(),
        ensures
            final(sink)@ == fed(
                old(sink)@,
                gathered(self@.table.len() as int, self@.unreachable(root)),
            ),
    {
        let visited = self.reach(root);
        let ghost start = sink@;
        let ghost each = self@.unreachable(root);
        let mut i: usize = 0;
        while i < self.table.len()
            invariant
                i <= self.table@.len(),
                self.valid(),
                start == old(sink)@,
                each == self@.unreachable(root),
                forall|partition: PartitionKey|
                    visited@.contains(#[trigger] partition@) <==> self@.reachable(
                        root,
                        partition,
                    ),
                sink@ == fed(start, gathered(i as int, each)),
            decreases self.table@.len() - i,
        {
            if sink.truncated() {
                proof {
                    gathered_in_parts(start, self.table@.len() as int, i as int, each);
                }
                return;
            }
            proof {
                fed_in_parts(start, gathered(i as int, each), each(i as int));
            }
            let partition = self.table[i].partition;
            let seen = visited.contains(&partition.get());
            assert(seen == visited@.contains(partition@));
            self.report_if(sink, !seen, VerifyIssueKind::Reachability, partition);
            i = i + 1;
        }
    }

    /// Reports every finding about this tree, in the order of the checks.
    pub fn check_tree(&self, sink: &mut Sink)
        requires
            self.valid(),
        ensures
            final(sink)@ == fed(old(sink)@, self@.findings()),
    {
        let manifest = match self.manifest {
            Some(manifest) => manifest,
            None => {
                self.check_unowned(sink);
                return;
            },
        };
        let ghost start = sink@;
        let ghost n = self@.table.len() as int;
        let ghost a = gathered(n, self@.unallocated(manifest.high_water));
        let ghost b = self@.missing_root(manifest.root);
        let ghost c = gathered(self@.edges.len() as int, self@.broken_edge());
        let ghost d = gathered(n, self@.misowned(manifest.root));
        let ghost e = gathered(n, self@.broken_state(manifest));
        let ghost f = gathered(n, self@.unreachable(manifest.root));
        self.check_high_water(sink, manifest.high_water);
        let missing_root = self.get(manifest.root).is_none();
        self.report_if(sink, missing_root, VerifyIssueKind::Reachability, manifest.root);
        let named = self.check_edges(sink);
        self.check_owners(sink, manifest.root, &named);
        self.check_states(sink, manifest);
        if !sink.truncated() {
            self.check_reachability(sink, manifest.root);
        } else {
            proof {
                stopped_sinks_stay(sink@, f);
            }
        }
        proof {
            fed_in_parts(start, a, b);
            fed_in_parts(start, a + b, c);
            fed_in_parts(start, a + b + c, d);
            fed_in_parts(start, a + b + c + d, e);
            fed_in_parts(start, a + b + c + d + e, f);
        }
    }
}

/// Whether a tree is structurally sound: every partition is allocated, owned
/// once, one level below its owner, consistently referenced and reachable.
pub open spec fn sound_tree(tree: TreeView, manifest: TreeManifest) -> bool {
    &&& tree.manifest == Some(manifest)
    &&& tree.summary(manifest.root) is Some
    &&& forall|i: int|
        0 <= i < tree.table.len() ==> sound_partition(tree, manifest, #[trigger] tree.table[i])
    &&& forall|i: int| 0 <= i < tree.edges.len() ==> sound_edge(tree, #[trigger] tree.edges[i])
    &&& forall|i: int, j: int|
        0 <= i < j < tree.edges.len() ==> (#[trigger] tree.edges[i]).child != (
        #[trigger] tree.edges[j]).child
}

/// Whether one partition is allocated, has an owner exactly when it must, and
/// is consistently referenced and reachable.
pub open spec fn sound_partition(
    tree: TreeView,
    manifest: TreeManifest,
    entry: ScannedPartition,
) -> bool {
    let partition = entry.partition;
    &&& partition@ <= manifest.high_water@
    &&& tree.edgeless(manifest.root, partition) != tree.named_before(
        tree.edges.len() as int,
        partition,
    )
    &&& match entry.summary.transition {
        Some(PartitionTransition::ReceivingSplit { source, .. }) => tree.splits_into(
            source,
            partition,
        ),
        Some(transition) => transition.targets() matches Some(targets) ==> (sound_target(
            tree,
            manifest,
            entry,
            targets.0,
        ) && sound_target(tree, manifest, entry, targets.1)),
        None => true,
    }
    &&& tree.reachable(manifest.root, partition)
}

/// Whether a split source may name a target: it is allocated, it is not the
/// root, and once published it stands on the source's level and names the
/// source back; a draining source has published it.
pub open spec fn sound_target(
    tree: TreeView,
    manifest: TreeManifest,
    source: ScannedPartition,
    target: PartitionKey,
) -> bool {
    &&& target@ <= manifest.high_water@
    &&& target != manifest.root
    &&& match tree.summary(target) {
        Some(found) => {
            &&& found.transition matches Some(PartitionTransition::ReceivingSplit {
                source: named,
                ..
            }) && named == source.partition
            &&& found.level is Some && source.summary.level is Some ==> found.level
                == source.summary.level
        },
        None => !(source.summary.transition matches Some(
            PartitionTransition::DrainingSplit { .. },
        )),
    }
}

/// Whether a Child Entry names a scanned partition exactly one level below.
pub open spec fn sound_edge(tree: TreeView, edge: Edge) -> bool {
    &&& tree.summary(edge.child) is Some
    &&& match (tree.level(edge.parent), tree.level(edge.child)) {
        (Some(parent), Some(child)) => parent == if child == u32::MAX {
            u32::MAX as int
        } else {
            child + 1
        },
        _ => true,
    }
}

proof fn gathered_nothing(n: int, each: spec_fn(int) -> Seq<Finding>)
    requires
        forall|i: int| 0 <= i < n ==> (#[trigger] each(i)).len() == 0,
    ensures
        gathered(n, each) == Seq::<Finding>::empty(),
    decreases n,
{
    if n > 0 {
        gathered_nothing(n - 1, each);
        assert(each(n - 1).len() == 0);
        assert(gathered(n, each) =~= Seq::empty());
    }
}

proof fn gathered_something(n: int, at: int, each: spec_fn(int) -> Seq<Finding>)
    requires
        0 <= at < n,
        each(at).len() > 0,
    ensures
        gathered(n, each).len() > 0,
    decreases n,
{
    if at < n - 1 {
        gathered_something(n - 1, at, each);
    }
}

/// A tree with a Tree Manifest has no finding exactly when it is sound.
pub proof fn only_sound_trees_have_no_findings(tree: TreeView, manifest: TreeManifest)
    requires
        tree.manifest == Some(manifest),
    ensures
        tree.findings().len() == 0 <==> sound_tree(tree, manifest),
{
    let n = tree.table.len() as int;
    let m = tree.edges.len() as int;
    let root = manifest.root;
    let unallocated = tree.unallocated(manifest.high_water);
    let broken_edge = tree.broken_edge();
    let misowned = tree.misowned(root);
    let broken_state = tree.broken_state(manifest);
    let unreachable = tree.unreachable(root);
    if sound_tree(tree, manifest) {
        assert forall|i: int| 0 <= i < n implies {
            &&& (#[trigger] unallocated(i)).len() == 0
        } by {
            assert(sound_partition(tree, manifest, tree.table[i]));
        }
        assert forall|i: int| 0 <= i < n implies (#[trigger] misowned(i)).len() == 0 by {
            assert(sound_partition(tree, manifest, tree.table[i]));
        }
        assert forall|i: int| 0 <= i < n implies (#[trigger] broken_state(i)).len() == 0 by {
            assert(sound_partition(tree, manifest, tree.table[i]));
        }
        assert forall|i: int| 0 <= i < n implies (#[trigger] unreachable(i)).len() == 0 by {
            assert(sound_partition(tree, manifest, tree.table[i]));
        }
        assert forall|i: int| 0 <= i < m implies (#[trigger] broken_edge(i)).len() == 0 by {
            assert(sound_edge(tree, tree.edges[i]));
            assert(!tree.named_before(i, tree.edges[i].child));
        }
        gathered_nothing(n, unallocated);
        gathered_nothing(m, broken_edge);
        gathered_nothing(n, misowned);
        gathered_nothing(n, broken_state);
        gathered_nothing(n, unreachable);
        assert(tree.findings().len() == 0);
    }
    if tree.findings().len() == 0 {
        assert forall|i: int| 0 <= i < n implies sound_partition(
            tree,
            manifest,
            #[trigger] tree.table[i],
        ) by {
            if unallocated(i).len() > 0 {
                gathered_something(n, i, unallocated);
            }
            if misowned(i).len() > 0 {
                gathered_something(n, i, misowned);
            }
            if broken_state(i).len() > 0 {
                gathered_something(n, i, broken_state);
            }
            if unreachable(i).len() > 0 {
                gathered_something(n, i, unreachable);
            }
        }
        assert forall|i: int| 0 <= i < m implies {
            &&& sound_edge(tree, #[trigger] tree.edges[i])
            &&& !tree.named_before(i, tree.edges[i].child)
        } by {
            if broken_edge(i).len() > 0 {
                gathered_something(m, i, broken_edge);
            }
        }
        assert forall|i: int, j: int| 0 <= i < j < m implies (#[trigger] tree.edges[i]).child != (
        #[trigger] tree.edges[j]).child by {
            assert(!tree.named_before(j, tree.edges[j].child));
        }
    }
}

proof fn same_elsewhere(
    before: Seq<ScannedPartition>,
    after: Seq<ScannedPartition>,
    other: PartitionKey,
)
    requires
        ascending(before),
        ascending(after),
        before.len() == after.len(),
        forall|i: int|
            0 <= i < before.len() && (before[i].partition == other || after[i].partition == other)
                ==> #[trigger] before[i] == after[i],
    ensures
        find(before, other) == find(after, other),
{
    if exists|i: int| scanned_at(before, other, i) {
        let i = choose|i: int| scanned_at(before, other, i);
        find_at(before, i);
        find_at(after, i);
    } else {
        assert forall|i: int| !scanned_at(after, other, i) by {
            if scanned_at(after, other, i) {
                assert(before[i] == after[i]);
                assert(scanned_at(before, other, i));
            }
        }
    }
}

proof fn found_behind_insert(
    before: Seq<ScannedPartition>,
    at: int,
    entry: ScannedPartition,
    other: PartitionKey,
)
    requires
        ascending(before),
        0 <= at <= before.len(),
        ascending(before.insert(at, entry)),
        other != entry.partition,
    ensures
        find(before.insert(at, entry), other) == find(before, other),
{
    let after = before.insert(at, entry);
    if exists|i: int| scanned_at(before, other, i) {
        let i = choose|i: int| scanned_at(before, other, i);
        find_at(before, i);
        if i < at {
            find_at(after, i);
        } else {
            find_at(after, i + 1);
        }
    } else {
        assert forall|i: int| !scanned_at(after, other, i) by {
            if scanned_at(after, other, i) {
                if i < at {
                    assert(scanned_at(before, other, i));
                } else {
                    assert(scanned_at(before, other, i - 1));
                }
            }
        }
    }
}

} // verus!
