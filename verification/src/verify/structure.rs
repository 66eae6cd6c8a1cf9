//! What the checks of one tree report, stated on its partitions and edges.

use vstd::prelude::*;

use crate::api::identifiers::{partition_key_of_view, PartitionKey};
use crate::api::verify::VerifyIssueKind;
use crate::topology::PartitionTransition;
use crate::verify::sink::Finding;
use crate::verify::tree::{ascending, find, gathered, scanned_at, Edge, ScannedPartition, TreeManifest, TreeView};

verus! {

broadcast use partition_key_of_view;

proof fn found_at(table: Seq<ScannedPartition>, i: int)
    requires
        ascending(table),
        0 <= i < table.len(),
    ensures
        find(table, table[i].partition) == Some(table[i].summary),
{
    let partition = table[i].partition;
    assert(scanned_at(table, partition, i));
    let j = choose|j: int| scanned_at(table, partition, j);
    assert(scanned_at(table, partition, j));
    if i < j {
        assert(table[i].partition@ < table[j].partition@);
    } else if j < i {
        assert(table[j].partition@ < table[i].partition@);
    }
}

proof fn gathered_holds(n: int, at: int, each: spec_fn(int) -> Seq<Finding>, finding: Finding)
    requires
        0 <= at < n,
        each(at).contains(finding),
    ensures
        gathered(n, each).contains(finding),
    decreases n,
{
    let before = gathered(n - 1, each);
    let all = gathered(n, each);
    if at < n - 1 {
        gathered_holds(n - 1, at, each, finding);
        let k = choose|k: int| 0 <= k < before.len() && before[k] == finding;
        assert(all[k] == finding);
    } else {
        let last = each(n - 1);
        let k = choose|k: int| 0 <= k < last.len() && last[k] == finding;
        assert(all[before.len() + k] == finding);
    }
}

proof fn gathered_none(n: int, each: spec_fn(int) -> Seq<Finding>)
    requires
        forall|i: int| 0 <= i < n ==> (#[trigger] each(i)).len() == 0,
    ensures
        gathered(n, each).len() == 0,
    decreases n,
{
    if n > 0 {
        gathered_none(n - 1, each);
    }
}

proof fn joined_holds(a: Seq<Finding>, b: Seq<Finding>, finding: Finding)
    ensures
        a.contains(finding) ==> (a + b).contains(finding),
        b.contains(finding) ==> (a + b).contains(finding),
{
    if a.contains(finding) {
        let k = choose|k: int| 0 <= k < a.len() && a[k] == finding;
        assert((a + b)[k] == finding);
    }
    if b.contains(finding) {
        let k = choose|k: int| 0 <= k < b.len() && b[k] == finding;
        assert((a + b)[a.len() + k] == finding);
    }
}

/// What each check of an owned tree finds, the whole tree reports.
proof fn checks_are_reported(tree: TreeView, manifest: TreeManifest, finding: Finding)
    requires
        tree.manifest == Some(manifest),
    ensures
        ({
            let n = tree.table.len() as int;
            let all = tree.findings();
            &&& gathered(n, tree.unallocated(manifest.high_water)).contains(finding)
                ==> all.contains(finding)
            &&& tree.missing_root(manifest.root).contains(finding) ==> all.contains(finding)
            &&& gathered(tree.edges.len() as int, tree.broken_edge()).contains(finding)
                ==> all.contains(finding)
            &&& gathered(n, tree.misowned(manifest.root)).contains(finding) ==> all.contains(
                finding,
            )
            &&& gathered(n, tree.broken_state(manifest)).contains(finding) ==> all.contains(
                finding,
            )
            &&& gathered(n, tree.unreachable(manifest.root)).contains(finding) ==> all.contains(
                finding,
            )
        }),
{
    let n = tree.table.len() as int;
    let a = gathered(n, tree.unallocated(manifest.high_water));
    let b = tree.missing_root(manifest.root);
    let c = gathered(tree.edges.len() as int, tree.broken_edge());
    let d = gathered(n, tree.misowned(manifest.root));
    let e = gathered(n, tree.broken_state(manifest));
    let f = gathered(n, tree.unreachable(manifest.root));
    joined_holds(a, b, finding);
    joined_holds(a + b, c, finding);
    joined_holds(a + b + c, d, finding);
    joined_holds(a + b + c + d, e, finding);
    joined_holds(a + b + c + d + e, f, finding);
}

/// Every partition of a tree without a Manifest is reported as unreachable.
pub proof fn trees_without_a_manifest_are_unreachable(tree: TreeView, at: int)
    requires
        tree.manifest is None,
        0 <= at < tree.table.len(),
    ensures
        tree.findings().contains(
            Finding {
                kind: VerifyIssueKind::Reachability,
                tree: Some(tree.hash),
                partition: Some(tree.table[at].partition),
                record_id: None,
            },
        ),
{
    let finding = Finding {
        kind: VerifyIssueKind::Reachability,
        tree: Some(tree.hash),
        partition: Some(tree.table[at].partition),
        record_id: None,
    };
    let each = tree.unowned();
    assert(each(at)[0] == finding);
    gathered_holds(tree.table.len() as int, at, each, finding);
}

/// Every partition beyond the allocator's high-water mark is reported as a count
/// that does not match.
pub proof fn partitions_beyond_the_high_water_are_reported(
    tree: TreeView,
    manifest: TreeManifest,
    at: int,
)
    requires
        tree.manifest == Some(manifest),
        0 <= at < tree.table.len(),
        tree.table[at].partition@ > manifest.high_water@,
    ensures
        tree.findings().contains(
            Finding {
                kind: VerifyIssueKind::CountMismatch,
                tree: Some(tree.hash),
                partition: Some(tree.table[at].partition),
                record_id: None,
            },
        ),
{
    let finding = Finding {
        kind: VerifyIssueKind::CountMismatch,
        tree: Some(tree.hash),
        partition: Some(tree.table[at].partition),
        record_id: None,
    };
    let each = tree.unallocated(manifest.high_water);
    assert(each(at)[0] == finding);
    gathered_holds(tree.table.len() as int, at, each, finding);
    checks_are_reported(tree, manifest, finding);
}

/// A root that was not scanned is reported as unreachable.
pub proof fn missing_roots_are_reported(tree: TreeView, manifest: TreeManifest)
    requires
        tree.manifest == Some(manifest),
        forall|i: int| 0 <= i < tree.table.len() ==> (#[trigger] tree.table[i]).partition
            != manifest.root,
    ensures
        tree.findings().contains(
            Finding {
                kind: VerifyIssueKind::Reachability,
                tree: Some(tree.hash),
                partition: Some(manifest.root),
                record_id: None,
            },
        ),
{
    let finding = Finding {
        kind: VerifyIssueKind::Reachability,
        tree: Some(tree.hash),
        partition: Some(manifest.root),
        record_id: None,
    };
    assert forall|i: int| !scanned_at(tree.table, manifest.root, i) by {
        if scanned_at(tree.table, manifest.root, i) {
            assert(tree.table[i].partition != manifest.root);
        }
    }
    assert(tree.missing_root(manifest.root)[0] == finding);
    checks_are_reported(tree, manifest, finding);
}

/// An edge to a partition that was not scanned is reported at its parent.
pub proof fn dangling_edges_are_reported(tree: TreeView, manifest: TreeManifest, at: int)
    requires
        tree.manifest == Some(manifest),
        0 <= at < tree.edges.len(),
        forall|i: int| 0 <= i < tree.table.len() ==> (#[trigger] tree.table[i]).partition
            != tree.edges[at].child,
    ensures
        tree.findings().contains(
            Finding {
                kind: VerifyIssueKind::Reachability,
                tree: Some(tree.hash),
                partition: Some(tree.edges[at].parent),
                record_id: None,
            },
        ),
{
    let finding = Finding {
        kind: VerifyIssueKind::Reachability,
        tree: Some(tree.hash),
        partition: Some(tree.edges[at].parent),
        record_id: None,
    };
    assert forall|i: int| !scanned_at(tree.table, tree.edges[at].child, i) by {
        if scanned_at(tree.table, tree.edges[at].child, i) {
            assert(tree.table[i].partition != tree.edges[at].child);
        }
    }
    let each = tree.broken_edge();
    assert(each(at)[0] == finding);
    gathered_holds(tree.edges.len() as int, at, each, finding);
    checks_are_reported(tree, manifest, finding);
}

/// An edge that does not go down exactly one level is reported at its parent.
pub proof fn misplaced_edges_are_reported(
    tree: TreeView,
    manifest: TreeManifest,
    at: int,
    parent: int,
    child: int,
)
    requires
        tree.manifest == Some(manifest),
        ascending(tree.table),
        0 <= at < tree.edges.len(),
        0 <= parent < tree.table.len(),
        0 <= child < tree.table.len(),
        tree.table[parent].partition == tree.edges[at].parent,
        tree.table[child].partition == tree.edges[at].child,
        tree.table[parent].summary.level is Some,
        tree.table[child].summary.level is Some,
        tree.table[child].summary.level->0 < u32::MAX,
        tree.table[parent].summary.level->0 != tree.table[child].summary.level->0 + 1,
    ensures
        tree.findings().contains(
            Finding {
                kind: VerifyIssueKind::Membership,
                tree: Some(tree.hash),
                partition: Some(tree.edges[at].parent),
                record_id: None,
            },
        ),
{
    let finding = Finding {
        kind: VerifyIssueKind::Membership,
        tree: Some(tree.hash),
        partition: Some(tree.edges[at].parent),
        record_id: None,
    };
    found_at(tree.table, parent);
    found_at(tree.table, child);
    let each = tree.broken_edge();
    assert(each(at)[0] == finding);
    gathered_holds(tree.edges.len() as int, at, each, finding);
    checks_are_reported(tree, manifest, finding);
}

/// A partition that two edges name is reported.
pub proof fn repeated_edges_are_reported(
    tree: TreeView,
    manifest: TreeManifest,
    first: int,
    second: int,
)
    requires
        tree.manifest == Some(manifest),
        0 <= first < second < tree.edges.len(),
        tree.edges[first].child == tree.edges[second].child,
    ensures
        tree.findings().contains(
            Finding {
                kind: VerifyIssueKind::Membership,
                tree: Some(tree.hash),
                partition: Some(tree.edges[second].child),
                record_id: None,
            },
        ),
{
    let finding = Finding {
        kind: VerifyIssueKind::Membership,
        tree: Some(tree.hash),
        partition: Some(tree.edges[second].child),
        record_id: None,
    };
    let each = tree.broken_edge();
    assert(tree.named_before(second, tree.edges[second].child));
    let found = each(second);
    assert(found[found.len() - 1] == finding);
    gathered_holds(tree.edges.len() as int, second, each, finding);
    checks_are_reported(tree, manifest, finding);
}

/// A root that an edge names is reported.
pub proof fn owned_roots_are_reported(
    tree: TreeView,
    manifest: TreeManifest,
    at: int,
    edge: int,
)
    requires
        tree.manifest == Some(manifest),
        0 <= at < tree.table.len(),
        0 <= edge < tree.edges.len(),
        tree.table[at].partition == manifest.root,
        tree.edges[edge].child == manifest.root,
    ensures
        tree.findings().contains(
            Finding {
                kind: VerifyIssueKind::Membership,
                tree: Some(tree.hash),
                partition: Some(manifest.root),
                record_id: None,
            },
        ),
{
    let finding = Finding {
        kind: VerifyIssueKind::Membership,
        tree: Some(tree.hash),
        partition: Some(manifest.root),
        record_id: None,
    };
    let each = tree.misowned(manifest.root);
    assert(tree.named_before(tree.edges.len() as int, manifest.root));
    assert(each(at)[0] == finding);
    gathered_holds(tree.table.len() as int, at, each, finding);
    checks_are_reported(tree, manifest, finding);
}

/// A partition below the root that no edge names is reported, unless the root
/// splits into it; where the root does not split, no such partition passes.
pub proof fn orphans_are_reported(tree: TreeView, manifest: TreeManifest, at: int, root: int)
    requires
        tree.manifest == Some(manifest),
        ascending(tree.table),
        0 <= at < tree.table.len(),
        0 <= root < tree.table.len(),
        tree.table[root].partition == manifest.root,
        tree.table[at].partition != manifest.root,
        forall|i: int| 0 <= i < tree.edges.len() ==> (#[trigger] tree.edges[i]).child
            != tree.table[at].partition,
        !(tree.table[root].summary.transition matches Some(
            PartitionTransition::Splitting { left, right, .. },
        ) && (left == tree.table[at].partition || right == tree.table[at].partition)),
        !(tree.table[root].summary.transition matches Some(
            PartitionTransition::DrainingSplit { left, right, .. },
        ) && (left == tree.table[at].partition || right == tree.table[at].partition)),
    ensures
        tree.findings().contains(
            Finding {
                kind: VerifyIssueKind::Membership,
                tree: Some(tree.hash),
                partition: Some(tree.table[at].partition),
                record_id: None,
            },
        ),
{
    let finding = Finding {
        kind: VerifyIssueKind::Membership,
        tree: Some(tree.hash),
        partition: Some(tree.table[at].partition),
        record_id: None,
    };
    found_at(tree.table, root);
    let each = tree.misowned(manifest.root);
    assert(!tree.splits_into(manifest.root, tree.table[at].partition));
    assert(each(at)[0] == finding);
    gathered_holds(tree.table.len() as int, at, each, finding);
    checks_are_reported(tree, manifest, finding);
}

/// A filling target whose source was not scanned, or does not name it, is
/// reported.
pub proof fn stray_targets_are_reported(
    tree: TreeView,
    manifest: TreeManifest,
    at: int,
    source: int,
)
    requires
        tree.manifest == Some(manifest),
        ascending(tree.table),
        0 <= at < tree.table.len(),
        tree.table[at].summary.transition is Some,
        tree.table[at].summary.transition->0 is ReceivingSplit,
        ({
            let named = tree.table[at].summary.transition->0->ReceivingSplit_source;
            ||| forall|i: int| 0 <= i < tree.table.len() ==> (#[trigger] tree.table[i]).partition
                != named
            ||| {
                &&& 0 <= source < tree.table.len()
                &&& tree.table[source].partition == named
                &&& !(tree.table[source].summary.transition matches Some(
                    PartitionTransition::Splitting { left, right, .. },
                ) && (left == tree.table[at].partition || right == tree.table[at].partition))
                &&& !(tree.table[source].summary.transition matches Some(
                    PartitionTransition::DrainingSplit { left, right, .. },
                ) && (left == tree.table[at].partition || right == tree.table[at].partition))
            }
        }),
    ensures
        tree.findings().contains(
            Finding {
                kind: VerifyIssueKind::Reachability,
                tree: Some(tree.hash),
                partition: Some(tree.table[at].partition),
                record_id: None,
            },
        ),
{
    let finding = Finding {
        kind: VerifyIssueKind::Reachability,
        tree: Some(tree.hash),
        partition: Some(tree.table[at].partition),
        record_id: None,
    };
    let named = tree.table[at].summary.transition->0->ReceivingSplit_source;
    if exists|i: int| scanned_at(tree.table, named, i) {
        let i = choose|i: int| scanned_at(tree.table, named, i);
        assert(tree.table[i].partition == named);
        found_at(tree.table, source);
    }
    assert(!tree.splits_into(named, tree.table[at].partition));
    let each = tree.broken_state(manifest);
    assert(each(at)[0] == finding);
    gathered_holds(tree.table.len() as int, at, each, finding);
    checks_are_reported(tree, manifest, finding);
}

/// A draining split is reported where one of its targets was not scanned, does
/// not name it back, or is at another level.
pub proof fn broken_drains_are_reported(
    tree: TreeView,
    manifest: TreeManifest,
    at: int,
    target: PartitionKey,
    found: int,
)
    requires
        tree.manifest == Some(manifest),
        ascending(tree.table),
        0 <= at < tree.table.len(),
        tree.table[at].summary.transition is Some,
        tree.table[at].summary.transition->0 is DrainingSplit,
        target == tree.table[at].summary.transition->0->DrainingSplit_left || target
            == tree.table[at].summary.transition->0->DrainingSplit_right,
        ({
            ||| target == manifest.root
            ||| forall|i: int| 0 <= i < tree.table.len() ==> (#[trigger] tree.table[i]).partition
                != target
            ||| {
                &&& 0 <= found < tree.table.len()
                &&& tree.table[found].partition == target
                &&& {
                    ||| !(tree.table[found].summary.transition matches Some(
                        PartitionTransition::ReceivingSplit { source, .. },
                    ) && source == tree.table[at].partition)
                    ||| tree.table[found].summary.level is Some
                        && tree.table[at].summary.level is Some
                        && tree.table[found].summary.level->0 != tree.table[at].summary.level->0
                }
            }
        }),
    ensures
        tree.findings().contains(
            Finding {
                kind: VerifyIssueKind::Reachability,
                tree: Some(tree.hash),
                partition: Some(tree.table[at].partition),
                record_id: None,
            },
        ),
{
    let finding = Finding {
        kind: VerifyIssueKind::Reachability,
        tree: Some(tree.hash),
        partition: Some(tree.table[at].partition),
        record_id: None,
    };
    let entry = tree.table[at];
    if target != manifest.root {
        if exists|i: int| scanned_at(tree.table, target, i) {
            let i = choose|i: int| scanned_at(tree.table, target, i);
            assert(tree.table[i].partition == target);
            found_at(tree.table, found);
        }
    }
    let broken = tree.broken_target(manifest, entry, target);
    assert(broken.len() > 0);
    assert(broken[broken.len() - 1] == finding);
    let left = entry.summary.transition->0->DrainingSplit_left;
    let right = entry.summary.transition->0->DrainingSplit_right;
    joined_holds(
        tree.broken_target(manifest, entry, left),
        tree.broken_target(manifest, entry, right),
        finding,
    );
    let each = tree.broken_state(manifest);
    gathered_holds(tree.table.len() as int, at, each, finding);
    checks_are_reported(tree, manifest, finding);
}

/// A split whose target is beyond the allocator's high-water mark is reported.
pub proof fn unallocated_targets_are_reported(
    tree: TreeView,
    manifest: TreeManifest,
    at: int,
    target: PartitionKey,
)
    requires
        tree.manifest == Some(manifest),
        0 <= at < tree.table.len(),
        tree.table[at].summary.transition matches Some(transition) && match transition {
            PartitionTransition::Splitting { left, right, .. } => target == left || target == right,
            PartitionTransition::DrainingSplit { left, right, .. } => target == left || target
                == right,
            _ => false,
        },
        target@ > manifest.high_water@,
    ensures
        tree.findings().contains(
            Finding {
                kind: VerifyIssueKind::CountMismatch,
                tree: Some(tree.hash),
                partition: Some(tree.table[at].partition),
                record_id: None,
            },
        ),
{
    let finding = Finding {
        kind: VerifyIssueKind::CountMismatch,
        tree: Some(tree.hash),
        partition: Some(tree.table[at].partition),
        record_id: None,
    };
    let entry = tree.table[at];
    let broken = tree.broken_target(manifest, entry, target);
    assert(broken[0] == finding);
    let (left, right) = match entry.summary.transition->0 {
        PartitionTransition::Splitting { left, right, .. } => (left, right),
        PartitionTransition::DrainingSplit { left, right, .. } => (left, right),
        _ => (target, target),
    };
    joined_holds(
        tree.broken_target(manifest, entry, left),
        tree.broken_target(manifest, entry, right),
        finding,
    );
    let each = tree.broken_state(manifest);
    gathered_holds(tree.table.len() as int, at, each, finding);
    checks_are_reported(tree, manifest, finding);
}

/// Whether a set of partitions leads nowhere outside itself: neither by an edge
/// nor by a split.
pub open spec fn enclosed(tree: TreeView, inside: Set<PartitionKey>) -> bool {
    &&& forall|i: int|
        0 <= i < tree.edges.len() && inside.contains((#[trigger] tree.edges[i]).parent)
            ==> inside.contains(tree.edges[i].child)
    &&& forall|i: int|
        0 <= i < tree.table.len() && inside.contains((#[trigger] tree.table[i]).partition) ==> (
        tree.table[i].summary.transition matches Some(transition) ==> match transition {
            PartitionTransition::Splitting { left, right, .. } => inside.contains(left)
                && inside.contains(right),
            PartitionTransition::DrainingSplit { left, right, .. } => inside.contains(left)
                && inside.contains(right),
            _ => true,
        })
}

proof fn paths_stay_inside(
    tree: TreeView,
    root: PartitionKey,
    inside: Set<PartitionKey>,
    steps: Seq<PartitionKey>,
)
    requires
        enclosed(tree, inside),
        inside.contains(root),
        tree.path(root, steps),
    ensures
        inside.contains(steps.last()),
    decreases steps.len(),
{
    if steps.len() > 1 {
        let shorter = steps.drop_last();
        assert forall|i: int, j: int|
            0 <= i && j == i + 1 && j < shorter.len() implies tree.leads_to(
            #[trigger] shorter[i],
            #[trigger] shorter[j],
        ) by {
            assert(tree.leads_to(steps[i], steps[j]));
        }
        assert(tree.path(root, shorter));
        paths_stay_inside(tree, root, inside, shorter);
        let from = steps[steps.len() - 2];
        let to = steps[steps.len() - 1];
        assert(shorter.last() == from);
        assert(tree.leads_to(from, to));
        if tree.edges.contains(Edge { parent: from, child: to }) {
            let k = choose|k: int|
                0 <= k < tree.edges.len() && tree.edges[k] == (Edge { parent: from, child: to });
            assert(inside.contains(tree.edges[k].parent));
        } else {
            assert(tree.splits_into(from, to));
            let i = choose|i: int| scanned_at(tree.table, from, i);
            assert(scanned_at(tree.table, from, i));
            assert(inside.contains(tree.table[i].partition));
        }
    }
}

/// A partition is reported as unreachable where the root lies in a set that
/// leads nowhere outside itself and the partition lies outside.
pub proof fn unreachable_partitions_are_reported(
    tree: TreeView,
    manifest: TreeManifest,
    at: int,
    inside: Set<PartitionKey>,
)
    requires
        tree.manifest == Some(manifest),
        0 <= at < tree.table.len(),
        enclosed(tree, inside),
        inside.contains(manifest.root),
        !inside.contains(tree.table[at].partition),
    ensures
        tree.findings().contains(
            Finding {
                kind: VerifyIssueKind::Reachability,
                tree: Some(tree.hash),
                partition: Some(tree.table[at].partition),
                record_id: None,
            },
        ),
{
    let finding = Finding {
        kind: VerifyIssueKind::Reachability,
        tree: Some(tree.hash),
        partition: Some(tree.table[at].partition),
        record_id: None,
    };
    let partition = tree.table[at].partition;
    if tree.reachable(manifest.root, partition) {
        let steps = choose|steps: Seq<PartitionKey>| #[trigger]
            tree.path(manifest.root, steps) && steps.last() == partition;
        paths_stay_inside(tree, manifest.root, inside, steps);
    }
    let each = tree.unreachable(manifest.root);
    assert(each(at)[0] == finding);
    gathered_holds(tree.table.len() as int, at, each, finding);
    checks_are_reported(tree, manifest, finding);
}

/// Whether a scanned partition is at rest: allocated, in no split, named by an
/// edge unless it is the root, and reached from the root by edges.
#[verifier::opaque]
pub open spec fn at_rest(tree: TreeView, manifest: TreeManifest, entry: ScannedPartition) -> bool {
    &&& entry.partition@ <= manifest.high_water@
    &&& entry.summary.transition matches Some(transition) && (transition is Ready
        || transition is Merging)
    &&& entry.partition == manifest.root <==> !(exists|k: int|
        0 <= k < tree.edges.len() && (#[trigger] tree.edges[k]).child == entry.partition)
    &&& exists|steps: Seq<PartitionKey>|
        steps.len() > 0 && steps[0] == manifest.root && steps.last() == entry.partition
            && #[trigger] by_edges(tree, steps)
}

/// Whether an edge goes down one level between scanned partitions.
#[verifier::opaque]
pub open spec fn goes_down(tree: TreeView, edge: Edge) -> bool {
    exists|i: int, j: int|
        0 <= i < tree.table.len() && 0 <= j < tree.table.len() && (
        #[trigger] tree.table[i]).partition == edge.parent && (#[trigger] tree.table[j]).partition
            == edge.child && tree.table[i].summary.level is Some && tree.table[j].summary.level is Some
            && tree.table[i].summary.level->0 == tree.table[j].summary.level->0 + 1
}

proof fn rest_is_silent(tree: TreeView, manifest: TreeManifest, root: int, i: int)
    requires
        ascending(tree.table),
        0 <= root < tree.table.len(),
        tree.table[root].partition == manifest.root,
        at_rest(tree, manifest, tree.table[root]),
        0 <= i < tree.table.len(),
        at_rest(tree, manifest, tree.table[i]),
    ensures
        tree.unallocated(manifest.high_water)(i).len() == 0,
        tree.misowned(manifest.root)(i).len() == 0,
        tree.broken_state(manifest)(i).len() == 0,
        tree.unreachable(manifest.root)(i).len() == 0,
{
    reveal(at_rest);
    let entry = tree.table[i];
    found_at(tree.table, root);
    assert(!tree.splits_into(manifest.root, entry.partition));
    assert(tree.named_before(tree.edges.len() as int, entry.partition) == (exists|k: int|
        0 <= k < tree.edges.len() && (#[trigger] tree.edges[k]).child == entry.partition));
    let steps = choose|steps: Seq<PartitionKey>|
        steps.len() > 0 && steps[0] == manifest.root && steps.last() == entry.partition
            && #[trigger] by_edges(tree, steps);
    assert forall|a: int, b: int| 0 <= a && b == a + 1 && b < steps.len() implies tree.leads_to(
        #[trigger] steps[a],
        #[trigger] steps[b],
    ) by {
        assert(tree.edges.contains(Edge { parent: steps[a], child: steps[b] }));
    }
    assert(tree.path(manifest.root, steps));
    assert(tree.reachable(manifest.root, entry.partition));
}

/// A tree at rest whose edges each go down one level and name no partition twice
/// has nothing to report.
pub proof fn healthy_trees_are_not_reported(tree: TreeView, manifest: TreeManifest, root: int)
    requires
        tree.manifest == Some(manifest),
        ascending(tree.table),
        0 <= root < tree.table.len(),
        tree.table[root].partition == manifest.root,
        forall|i: int|
            0 <= i < tree.table.len() ==> at_rest(tree, manifest, #[trigger] tree.table[i]),
        forall|k: int| 0 <= k < tree.edges.len() ==> goes_down(tree, #[trigger] tree.edges[k]),
        forall|k: int, l: int|
            0 <= k < l < tree.edges.len() ==> (#[trigger] tree.edges[k]).child != (
            #[trigger] tree.edges[l]).child,
    ensures
        tree.findings().len() == 0,
{
    let n = tree.table.len() as int;
    let m = tree.edges.len() as int;
    found_at(tree.table, root);
    let unallocated = tree.unallocated(manifest.high_water);
    let broken_edge = tree.broken_edge();
    let misowned = tree.misowned(manifest.root);
    let broken_state = tree.broken_state(manifest);
    let unreachable = tree.unreachable(manifest.root);
    assert forall|i: int| 0 <= i < n implies (#[trigger] unallocated(i)).len() == 0 by {
        rest_is_silent(tree, manifest, root, i);
    }
    assert forall|i: int| 0 <= i < n implies (#[trigger] misowned(i)).len() == 0 by {
        rest_is_silent(tree, manifest, root, i);
    }
    assert forall|i: int| 0 <= i < n implies (#[trigger] broken_state(i)).len() == 0 by {
        rest_is_silent(tree, manifest, root, i);
    }
    assert forall|i: int| 0 <= i < n implies (#[trigger] unreachable(i)).len() == 0 by {
        rest_is_silent(tree, manifest, root, i);
    }
    assert forall|k: int| 0 <= k < m implies (#[trigger] broken_edge(k)).len() == 0 by {
        edges_down_are_silent(tree, k);
    }
    gathered_none(n, unallocated);
    gathered_none(m, broken_edge);
    gathered_none(n, misowned);
    gathered_none(n, broken_state);
    gathered_none(n, unreachable);
}

proof fn edges_down_are_silent(tree: TreeView, k: int)
    requires
        ascending(tree.table),
        0 <= k < tree.edges.len(),
        goes_down(tree, tree.edges[k]),
        forall|a: int, b: int|
            0 <= a < b < tree.edges.len() ==> (#[trigger] tree.edges[a]).child != (
            #[trigger] tree.edges[b]).child,
    ensures
        tree.broken_edge()(k).len() == 0,
{
    reveal(goes_down);
    let edge = tree.edges[k];
    let (i, j) = choose|i: int, j: int|
        0 <= i < tree.table.len() && 0 <= j < tree.table.len() && (
        #[trigger] tree.table[i]).partition == edge.parent && (#[trigger] tree.table[j]).partition
            == edge.child && tree.table[i].summary.level is Some && tree.table[j].summary.level is Some
            && tree.table[i].summary.level->0 == tree.table[j].summary.level->0 + 1;
    found_at(tree.table, i);
    found_at(tree.table, j);
    assert(!tree.named_before(k, edge.child));
}

/// Whether every step follows an edge.
pub open spec fn by_edges(tree: TreeView, steps: Seq<PartitionKey>) -> bool {
    forall|a: int, b: int|
        0 <= a && b == a + 1 && b < steps.len() ==> tree.edges.contains(
            Edge { parent: #[trigger] steps[a], child: #[trigger] steps[b] },
        )
}

/// What a scanned partition left behind is what the checks see of it, and
/// nothing is seen of one that was not scanned.
pub proof fn scanned_partitions_are_found(
    table: Seq<ScannedPartition>,
    at: int,
    partition: PartitionKey,
)
    requires
        ascending(table),
    ensures
        0 <= at < table.len() ==> find(table, table[at].partition) == Some(table[at].summary),
        (forall|i: int| 0 <= i < table.len() ==> (#[trigger] table[i]).partition != partition)
            ==> find(table, partition) is None,
{
    if 0 <= at < table.len() {
        found_at(table, at);
    }
    if forall|i: int| 0 <= i < table.len() ==> (#[trigger] table[i]).partition != partition {
        assert forall|i: int| !scanned_at(table, partition, i) by {
            if scanned_at(table, partition, i) {
                assert(table[i].partition != partition);
            }
        }
    }
}

} // verus!
