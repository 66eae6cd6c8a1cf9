//! The public results of reads and searches.

use vstd::prelude::*;

use crate::api::config::{IndexConfig, IndexConfigView};
use crate::api::error::{plain_error, ErrorKind, Result};
use crate::api::number::Float32;
use crate::api::record::{PayloadProjection, StoredRecord};
use crate::api::schema::{canonicalized, valid_predicate, Value};
use crate::api::search::{
    SearchBudgetExhaustion, SearchBudgetUsage, SearchBudgets, SearchHit, SearchOptions,
    SearchOutcome, SearchRequest,
};

verus! {

/// The bounds of one Tree Manifest directory page: items.
pub const DIRECTORY_SCAN_ITEMS: usize = 256;

/// The bounds of one Tree Manifest directory page: bytes.
pub const DIRECTORY_SCAN_BYTES: usize = 1_048_576;

/// One validated Record Group as it was read.
pub struct RecordGroup {
    /// The Record ID.
    pub id: Vec<u8>,
    /// The vector.
    pub vector: Vec<Float32>,
    /// The field values.
    pub fields: Vec<Value>,
    /// The payload, if it was loaded and exists.
    pub payload: Option<Vec<u8>>,
}

/// The payload a read returns: nothing is claimed of one that was not asked
/// for.
pub open spec fn projected_payload(
    include_payload: bool,
    payload: Option<Vec<u8>>,
) -> PayloadProjection {
    if !include_payload {
        PayloadProjection::NotLoaded
    } else {
        match payload {
            Some(bytes) => PayloadProjection::Present(bytes),
            None => PayloadProjection::Absent,
        }
    }
}

/// Projects one Record Group into the public point-read shape.
pub fn stored_record(include_payload: bool, group: RecordGroup) -> (res: StoredRecord)
    ensures
        res.spec_id() == group.id@,
        res.spec_vector() == group.vector@,
        res.spec_fields() == group.fields@,
        res.spec_payload() == projected_payload(include_payload, group.payload),
{
    let payload = match (include_payload, group.payload) {
        (true, Some(bytes)) => PayloadProjection::Present(bytes),
        (true, None) => PayloadProjection::Absent,
        (false, _) => PayloadProjection::NotLoaded,
    };
    StoredRecord::new(group.id, group.vector, group.fields, payload)
}

/// Returns the leaf-level beam of one search: its own, or the default.
pub fn leaf_beam(options: SearchOptions, default_beam: u32) -> (res: u32)
    ensures
        res == match options@.leaf_beam_size {
            Some(beam) => beam,
            None => default_beam,
        },
{
    match options.leaf_beam_size() {
        Some(beam) => beam,
        None => default_beam,
    }
}

/// The effective bounds of one search.
#[derive(Clone, Copy, Debug, PartialEq, Eq, Structural)]
pub struct SearchBounds {
    /// The effective Search Budgets.
    pub budgets: SearchBudgets,
    /// The leaf-level beam.
    pub leaf_beam: u32,
}

/// Whether a request fits an index: its dimension, its Filter Predicate, and
/// its budgets above the Runtime's defaults.
pub open spec fn searchable(
    request: SearchRequest,
    config: IndexConfigView,
    defaults: SearchBudgets,
) -> bool {
    &&& request.spec_vector().len() == config.dimension
    &&& request.spec_predicate() matches Some(predicate) ==> valid_predicate(
        predicate,
        config.fields,
    )
    &&& request.spec_options().resolvable(defaults@, request.spec_k() as int)
}

/// Validates one search request against its index and resolves its bounds,
/// canonicalizing the predicate's values on the way.
pub fn prepare_search(
    request: &mut SearchRequest,
    config: &IndexConfig,
    defaults: SearchBudgets,
    default_beam: u32,
) -> (res: Result<SearchBounds>)
    ensures
        match res {
            Ok(bounds) => {
                &&& searchable(*old(request), config@, defaults)
                &&& bounds.budgets@ == old(request).spec_options().selected(
                    defaults@,
                    old(request).spec_k() as int,
                )
                &&& bounds.leaf_beam == match old(request).spec_options()@.leaf_beam_size {
                    Some(beam) => beam,
                    None => default_beam,
                }
            },
            Err(error) => {
                &&& !searchable(*old(request), config@, defaults)
                &&& error == plain_error(ErrorKind::InvalidArgument)
            },
        },
        res is Ok ==> old(request).spec_vector().len() == config@.dimension && 1 <= old(
            request,
        ).spec_k() <= 65_536 && old(request).spec_k() <= res->Ok_0.budgets@.exact_rerank_candidates,
        res is Ok ==> (old(request).spec_predicate() matches Some(predicate) ==> valid_predicate(
            predicate,
            config@.fields,
        )),
        old(request).spec_vector().len() == config@.dimension && (old(
            request,
        ).spec_predicate() matches Some(predicate) ==> valid_predicate(predicate, config@.fields))
            && old(request).spec_options().resolvable(defaults@, old(request).spec_k() as int)
            ==> res is Ok,
        final(request).spec_vector() == old(request).spec_vector(),
        final(request).spec_k() == old(request).spec_k(),
        final(request).spec_options() == old(request).spec_options(),
        match (old(request).spec_predicate(), final(request).spec_predicate()) {
            (Some(before), Some(after)) => canonicalized(before, after, res is Ok),
            (None, None) => true,
            _ => false,
        },
{
    match request.validate(config.dimension(), config.fields(), defaults) {
        Err(error) => Err(error),
        Ok(budgets) => Ok(
            SearchBounds { budgets, leaf_beam: leaf_beam(request.options(), default_beam) },
        ),
    }
}

/// What the stages of one search reported.
#[derive(Clone, Copy, Debug, PartialEq, Eq, Structural)]
pub struct SearchStages {
    /// The Tree Keys enumerated.
    pub scanned_tree_keys: u32,
    /// Whether the Tree Key budget stopped enumeration.
    pub tree_keys_exhausted: bool,
    /// The partitions visited.
    pub visited_partitions: u32,
    /// Whether the partition budget stopped traversal.
    pub partitions_exhausted: bool,
    /// The Leaf Entries considered.
    pub visited_leaf_entries: u32,
    /// Whether the Leaf Entry budget stopped traversal.
    pub leaf_entries_exhausted: bool,
    /// Whether some leaf truncated its overlapping candidates.
    pub overlap_truncated: bool,
    /// Whether global selection truncated the candidates to the rerank budget.
    pub selection_truncated: bool,
    /// The Vector Records reranked.
    pub exact_rerank_candidates: u32,
    /// Whether the rerank budget stopped reranking.
    pub rerank_exhausted: bool,
}

/// Assembles the outcome of one search from its hits and stages. The rerank
/// budget is exhausted when either selection or reranking hit it.
pub fn search_outcome(hits: Vec<SearchHit>, stages: SearchStages) -> (res: SearchOutcome)
    ensures
        res.hits == hits,
        res.usage == (SearchBudgetUsage {
            scanned_tree_keys: stages.scanned_tree_keys,
            visited_partitions: stages.visited_partitions,
            visited_leaf_entries: stages.visited_leaf_entries,
            exact_rerank_candidates: stages.exact_rerank_candidates,
        }),
        res.exhausted == (SearchBudgetExhaustion {
            scanned_tree_keys: stages.tree_keys_exhausted,
            visited_partitions: stages.partitions_exhausted,
            visited_leaf_entries: stages.leaf_entries_exhausted,
            exact_rerank_candidates: stages.selection_truncated || stages.rerank_exhausted,
        }),
        res.rabitq_overlap_truncated == stages.overlap_truncated,
{
    SearchOutcome {
        hits,
        usage: SearchBudgetUsage {
            scanned_tree_keys: stages.scanned_tree_keys,
            visited_partitions: stages.visited_partitions,
            visited_leaf_entries: stages.visited_leaf_entries,
            exact_rerank_candidates: stages.exact_rerank_candidates,
        },
        exhausted: SearchBudgetExhaustion {
            scanned_tree_keys: stages.tree_keys_exhausted,
            visited_partitions: stages.partitions_exhausted,
            visited_leaf_entries: stages.leaf_entries_exhausted,
            exact_rerank_candidates: stages.selection_truncated || stages.rerank_exhausted,
        },
        rabitq_overlap_truncated: stages.overlap_truncated,
    }
}

} // verus!
