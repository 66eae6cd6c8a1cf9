//! The bounded drain batch shared by the split and merge state machines.
//!
//! Draining stores no durable cursor: each batch holds the source's current
//! smallest entries, and a committed move deletes that prefix.

use vstd::prelude::*;

use crate::api::error::{plain_error, Error, ErrorKind, Result};
use crate::api::identifiers::PartitionKey;
use crate::api::search::lesser;
use crate::maintenance::routing::ScanLimits;
use crate::topology::PartitionHeader;

verus! {

/// The most Child Entries one drain batch moves.
pub const DRAIN_BATCH_INTERNAL: usize = 128;

/// The least contention cap on a leaf drain batch.
pub const MIN_LEAF_DRAIN_BATCH: usize = 8;

/// The most bytes of one maintenance entry-scan page.
pub const DRAIN_SCAN_BYTES: usize = 1_048_576;

/// The contention cap on a leaf drain batch: a quarter of the maximum entry
/// count, rounded up, and at least eight.
pub open spec fn contention_cap(max_partition_entries: u32) -> int {
    let quarter = (max_partition_entries + 3) / 4;
    if quarter < MIN_LEAF_DRAIN_BATCH {
        MIN_LEAF_DRAIN_BATCH as int
    } else {
        quarter
    }
}

/// Applies the contention and source-size bounds to a budget-safe leaf batch.
pub fn leaf_drain_batch_limit(
    max_partition_entries: u32,
    source_entries: u32,
    budget_limit: usize,
) -> (res: usize)
    ensures
        res == lesser(
            lesser(budget_limit as int, contention_cap(max_partition_entries)),
            source_entries as int,
        ),
{
    let quarter: u64 = (max_partition_entries as u64 + 3) / 4;
    let cap: usize = if quarter < MIN_LEAF_DRAIN_BATCH as u64 {
        MIN_LEAF_DRAIN_BATCH
    } else {
        quarter as usize
    };
    let bounded: usize = if budget_limit <= cap {
        budget_limit
    } else {
        cap
    };
    if bounded <= source_entries as usize {
        bounded
    } else {
        source_entries as usize
    }
}

/// The most entries one relocation transaction may move.
pub open spec fn relocation_limit(
    header: PartitionHeader,
    max_partition_entries: u32,
    budget_limit: usize,
) -> int {
    if header.level == 1 {
        lesser(
            lesser(budget_limit as int, contention_cap(max_partition_entries)),
            header.entry_count as int,
        )
    } else {
        lesser(
            lesser(budget_limit as int, DRAIN_BATCH_INTERNAL as int),
            header.entry_count as int,
        )
    }
}

/// Returns the most entries one relocation transaction may move, given what
/// the schema and the backend's admission budget allow.
pub fn relocation_batch_limit(
    header: PartitionHeader,
    max_partition_entries: u32,
    budget_limit: usize,
) -> (res: usize)
    ensures
        res == relocation_limit(header, max_partition_entries, budget_limit),
{
    if header.level == 1 {
        return leaf_drain_batch_limit(max_partition_entries, header.entry_count, budget_limit);
    }
    let bounded: usize = if budget_limit <= DRAIN_BATCH_INTERNAL {
        budget_limit
    } else {
        DRAIN_BATCH_INTERNAL
    };
    if bounded <= header.entry_count as usize {
        bounded
    } else {
        header.entry_count as usize
    }
}

/// One drain batch: leaf Record IDs or internal child Partition Keys.
pub enum DrainBatch {
    /// Record IDs of a leaf source.
    Leaf(Vec<Vec<u8>>),
    /// Children of an internal source.
    Child(Vec<PartitionKey>),
}

impl DrainBatch {
    /// The number of entries in the batch.
    pub open spec fn spec_len(self) -> nat {
        match self {
            DrainBatch::Leaf(ids) => ids@.len(),
            DrainBatch::Child(children) => children@.len(),
        }
    }

    /// Returns whether the batch holds no entries.
    pub fn is_empty(&self) -> (res: bool)
        ensures
            res == (self.spec_len() == 0),
    {
        match self {
            DrainBatch::Leaf(ids) => ids.len() == 0,
            DrainBatch::Child(children) => children.len() == 0,
        }
    }
}

/// One entry found while scanning a drain source.
pub enum DrainItem {
    /// A Leaf Entry's Record ID.
    Leaf(Vec<u8>),
    /// A Child Entry's child.
    Child(PartitionKey),
    /// A value of another kind.
    Other,
}

/// Returns the page bounds that fix one drain batch.
pub fn drain_scan_limits(entry_limit: usize) -> (res: ScanLimits)
    ensures
        res == (ScanLimits { item_limit: entry_limit, byte_limit: DRAIN_SCAN_BYTES }),
{
    ScanLimits { item_limit: entry_limit, byte_limit: DRAIN_SCAN_BYTES }
}

/// Whether an item is of the kind a source at a level holds.
pub open spec fn item_fits(item: DrainItem, level: u32) -> bool {
    if level == 1 {
        item is Leaf
    } else {
        item is Child
    }
}

/// Whether every item is of the kind a source at a level holds.
pub open spec fn items_fit(items: Seq<DrainItem>, level: u32) -> bool {
    forall|i: int| 0 <= i < items.len() ==> item_fits(#[trigger] items[i], level)
}

/// Collects the scanned entries of a source into one batch, in scan order; an
/// entry of another kind is Corruption.
pub fn collect_drain_batch(items: &Vec<DrainItem>, level: u32) -> (res: Result<DrainBatch>)
    ensures
        match res {
            Ok(batch) => {
                &&& items_fit(items@, level)
                &&& match batch {
                    DrainBatch::Leaf(ids) => {
                        &&& level == 1
                        &&& ids@.len() == items@.len()
                        &&& forall|i: int|
                            0 <= i < ids@.len() ==> (#[trigger] ids@[i])@
                                == items@[i]->Leaf_0@
                    },
                    DrainBatch::Child(children) => {
                        &&& level != 1
                        &&& children@.len() == items@.len()
                        &&& forall|i: int|
                            0 <= i < children@.len() ==> #[trigger] children@[i]
                                == items@[i]->Child_0
                    },
                }
            },
            Err(error) => !items_fit(items@, level) && error == plain_error(ErrorKind::Corruption),
        },
{
    if level == 1 {
        let mut ids: Vec<Vec<u8>> = Vec::new();
        let mut at: usize = 0;
        while at < items.len()
            invariant
                at <= items@.len(),
                ids@.len() == at,
                level == 1,
                forall|i: int| 0 <= i < at ==> item_fits(#[trigger] items@[i], level),
                forall|i: int| 0 <= i < at ==> (#[trigger] ids@[i])@ == items@[i]->Leaf_0@,
            decreases items@.len() - at,
        {
            match &items[at] {
                DrainItem::Leaf(id) => ids.push(crate::api::record::copy_bytes(id)),
                _ => {
                    assert(!item_fits(items@[at as int], level));
                    return Err(Error::new(ErrorKind::Corruption));
                },
            }
            at = at + 1;
        }
        Ok(DrainBatch::Leaf(ids))
    } else {
        let mut children: Vec<PartitionKey> = Vec::new();
        let mut at: usize = 0;
        while at < items.len()
            invariant
                at <= items@.len(),
                children@.len() == at,
                level != 1,
                forall|i: int| 0 <= i < at ==> item_fits(#[trigger] items@[i], level),
                forall|i: int| 0 <= i < at ==> #[trigger] children@[i] == items@[i]->Child_0,
            decreases items@.len() - at,
        {
            match &items[at] {
                DrainItem::Child(child) => children.push(*child),
                _ => {
                    assert(!item_fits(items@[at as int], level));
                    return Err(Error::new(ErrorKind::Corruption));
                },
            }
            at = at + 1;
        }
        Ok(DrainBatch::Child(children))
    }
}

/// Plans the next drain batch of a source: its entry limit, or `None` when the
/// exact count is already zero. A missing Header is Corruption.
pub fn plan_drain_batch(
    header: Option<PartitionHeader>,
    max_partition_entries: u32,
    budget_limit: usize,
) -> (res: Result<Option<usize>>)
    ensures
        match header {
            None => res == Err::<Option<usize>, Error>(plain_error(ErrorKind::Corruption)),
            Some(found) => if found.entry_count == 0 {
                res == Ok::<Option<usize>, Error>(None)
            } else {
                res matches Ok(Some(limit)) && limit == relocation_limit(
                    found,
                    max_partition_entries,
                    budget_limit,
                )
            },
        },
{
    match header {
        None => Err(Error::new(ErrorKind::Corruption)),
        Some(header) => {
            if header.entry_count == 0 {
                return Ok(None);
            }
            Ok(Some(relocation_batch_limit(header, max_partition_entries, budget_limit)))
        },
    }
}

/// Accepts the scanned batch of a source whose exact count is positive; `more`
/// is whether the scan can go on. An empty batch contradicts the count, and so
/// does a scan that reached the end of the source with another number of
/// entries: both are Corruption.
pub fn next_drain_batch(
    items: &Vec<DrainItem>,
    level: u32,
    entry_count: u32,
    more: bool,
) -> (res: Result<DrainBatch>)
    ensures
        res is Ok <==> items_fit(items@, level) && items@.len() > 0 && (more || items@.len()
            == entry_count),
        res matches Ok(batch) ==> batch.spec_len() == items@.len() && (batch is Leaf <==> level
            == 1),
        res matches Ok(DrainBatch::Leaf(ids)) ==> forall|i: int|
            0 <= i < ids@.len() ==> (#[trigger] ids@[i])@ == items@[i]->Leaf_0@,
        res matches Ok(DrainBatch::Child(children)) ==> forall|i: int|
            0 <= i < children@.len() ==> #[trigger] children@[i] == items@[i]->Child_0,
        res matches Err(error) ==> error == plain_error(ErrorKind::Corruption),
{
    let batch = collect_drain_batch(items, level)?;
    if batch.is_empty() {
        return Err(Error::new(ErrorKind::Corruption));
    }
    if !more && items.len() != entry_count as usize {
        return Err(Error::new(ErrorKind::Corruption));
    }
    Ok(batch)
}

/// Returns a source's exact count after a batch moved; moving more than the
/// source held is Corruption.
pub fn remaining_after(entry_count: u32, moved: usize) -> (res: Result<u32>)
    ensures
        match res {
            Ok(remaining) => moved <= entry_count && remaining == entry_count - moved,
            Err(error) => moved > entry_count && error == plain_error(ErrorKind::Corruption),
        },
{
    if moved > entry_count as usize {
        return Err(Error::new(ErrorKind::Corruption));
    }
    Ok(entry_count - moved as u32)
}

/// A drain batch of a non-empty source is never planned empty when the budget
/// allows any entry, and never exceeds what the source holds.
pub proof fn drain_batches_make_progress(
    header: PartitionHeader,
    max_partition_entries: u32,
    budget_limit: usize,
)
    requires
        header.entry_count > 0,
        budget_limit > 0,
    ensures
        1 <= relocation_limit(header, max_partition_entries, budget_limit)
            <= header.entry_count,
        relocation_limit(header, max_partition_entries, budget_limit) <= budget_limit,
{
}

} // verus!
