//! The Logical Index lifecycle: create, open, and drop as idempotent state
//! machines over persisted values.
//!
//! Create reserves one never-reused identity and installs an Active Manifest.
//! Drop first persists the Dropping state, then removes the index-owned range
//! and, last, the name mapping.

use vstd::prelude::*;

use crate::api::config::{IndexConfig, IndexConfigView};
use crate::api::error::{plain_error, plain_error_view, Error, ErrorKind, Result};
use crate::api::identifiers::LogicalIndexId;
use crate::api::record::{copy_bytes, same_bytes};
use crate::hashing::{derive_rotation_seed, le_bytes, rotation_seed, xxh3_64_of};
use crate::maintenance::routing::ScanLimits;
use crate::runtime::retry::{share, RetryPolicy};

verus! {

broadcast use plain_error_view;

/// The persisted lifecycle of one index.
#[derive(Clone, Copy, Debug, PartialEq, Eq, Structural)]
pub enum IndexLifecycle {
    /// Open for work.
    Active,
    /// Being removed.
    Dropping,
}

/// The persisted identity of one index.
pub struct IndexManifest {
    /// The lifecycle.
    pub lifecycle: IndexLifecycle,
    /// The never-reused identity.
    pub logical_index_id: LogicalIndexId,
    /// The immutable configuration.
    pub config: IndexConfig,
    /// The immutable rotation seed.
    pub rotation_seed: Vec<u8>,
}

/// The mathematical content of an [`IndexManifest`].
pub struct ManifestView {
    /// The lifecycle.
    pub lifecycle: IndexLifecycle,
    /// The never-reused identity.
    pub logical_index_id: LogicalIndexId,
    /// The immutable configuration.
    pub config: IndexConfigView,
    /// The immutable rotation seed.
    pub rotation_seed: Seq<u8>,
}

impl View for IndexManifest {
    type V = ManifestView;

    open spec fn view(&self) -> ManifestView {
        ManifestView {
            lifecycle: self.lifecycle,
            logical_index_id: self.logical_index_id,
            config: self.config@,
            rotation_seed: self.rotation_seed@,
        }
    }
}

impl Clone for IndexManifest {
    fn clone(&self) -> (res: Self)
        ensures
            res@ == self@,
    {
        IndexManifest {
            lifecycle: self.lifecycle,
            logical_index_id: self.logical_index_id,
            config: self.config.clone(),
            rotation_seed: copy_bytes(&self.rotation_seed),
        }
    }
}

impl ManifestView {
    /// Whether two manifests are of one index: everything but the lifecycle
    /// agrees.
    pub open spec fn same_identity(self, other: ManifestView) -> bool {
        &&& self.logical_index_id == other.logical_index_id
        &&& self.config.agrees(other.config)
        &&& self.rotation_seed == other.rotation_seed
    }
}

/// The Active Manifest of a new index.
pub open spec fn active_manifest(id: LogicalIndexId, config: IndexConfigView) -> ManifestView {
    ManifestView {
        lifecycle: IndexLifecycle::Active,
        logical_index_id: id,
        config,
        rotation_seed: rotation_seed(id@),
    }
}

impl IndexManifest {
    /// The Active Manifest of a new index; its rotation seed derives from its
    /// identity.
    pub fn active(id: LogicalIndexId, config: &IndexConfig) -> (res: Self)
        ensures
            res@ == active_manifest(id, config@),
    {
        IndexManifest {
            lifecycle: IndexLifecycle::Active,
            logical_index_id: id,
            config: config.clone(),
            rotation_seed: derive_rotation_seed(id),
        }
    }

    /// The same index in another lifecycle.
    pub fn with_lifecycle(&self, lifecycle: IndexLifecycle) -> (res: Self)
        ensures
            res@ == (ManifestView { lifecycle, ..self@ }),
    {
        let mut changed = self.clone();
        changed.lifecycle = lifecycle;
        changed
    }

    /// Returns whether two manifests are of one index.
    pub fn has_same_immutable_identity(&self, other: &IndexManifest) -> (res: bool)
        ensures
            res == self@.same_identity(other@),
            res ==> self.logical_index_id == other.logical_index_id && self.rotation_seed@
                == other.rotation_seed@ && self.config@.agrees(other.config@),
            self.logical_index_id == other.logical_index_id && self.rotation_seed@
                == other.rotation_seed@ && self.config@.agrees(other.config@) ==> res,
    {
        self.logical_index_id == other.logical_index_id && self.config.same(&other.config)
            && same_bytes(&self.rotation_seed, &other.rotation_seed)
    }
}

/// One persisted value read for a key of an expected kind.
pub enum Stored<T> {
    /// Nothing is stored.
    Absent,
    /// The expected value.
    Found(T),
    /// A value of another kind.
    Other,
}

/// What creating an index does next.
pub enum CreatePlan {
    /// The name exists: read its manifest and classify it.
    Classify {
        /// The identity the name maps to.
        id: LogicalIndexId,
    },
    /// The name is free: install the index.
    Install {
        /// The allocator's new high-water mark.
        high_water: u64,
        /// The new manifest.
        manifest: IndexManifest,
    },
}

/// The allocator's high-water mark; an absent allocator never allocated.
pub open spec fn high_water_of(allocator: Stored<u64>) -> Option<u64> {
    match allocator {
        Stored::Absent => Some(0),
        Stored::Found(high_water) => Some(high_water),
        Stored::Other => None,
    }
}

/// Plans one create attempt from the allocator and the name mapping. A value
/// of another kind is Corruption; an exhausted identity space is its own
/// failure.
pub fn plan_create(
    allocator: Stored<u64>,
    name: Stored<LogicalIndexId>,
    config: &IndexConfig,
) -> (res: Result<CreatePlan>)
    ensures
        match (high_water_of(allocator), name) {
            (None, _) => res == Err::<CreatePlan, Error>(plain_error(ErrorKind::Corruption)),
            (Some(_), Stored::Other) => res == Err::<CreatePlan, Error>(
                plain_error(ErrorKind::Corruption),
            ),
            (Some(_), Stored::Found(found)) => res == Ok::<CreatePlan, Error>(
                CreatePlan::Classify { id: found },
            ),
            (Some(last), Stored::Absent) => if last == u64::MAX {
                res == Err::<CreatePlan, Error>(plain_error(ErrorKind::IdExhausted))
            } else {
                res matches Ok(CreatePlan::Install { high_water, manifest }) && high_water == last
                    + 1 && manifest.logical_index_id@ == high_water && manifest@
                    == active_manifest(manifest.logical_index_id, config@)
            },
        },
{
    let last: u64 = match allocator {
        Stored::Absent => 0,
        Stored::Found(high_water) => high_water,
        Stored::Other => {
            return Err(Error::new(ErrorKind::Corruption));
        },
    };
    match name {
        Stored::Other => {
            return Err(Error::new(ErrorKind::Corruption));
        },
        Stored::Found(id) => {
            return Ok(CreatePlan::Classify { id });
        },
        Stored::Absent => {},
    }
    let high_water: u64 = match last.checked_add(1) {
        Some(high_water) => high_water,
        None => {
            return Err(Error::new(ErrorKind::IdExhausted));
        },
    };
    match LogicalIndexId::new(high_water) {
        Ok(id) => Ok(CreatePlan::Install { high_water, manifest: IndexManifest::active(id, config) }),
        Err(_) => Err(Error::new(ErrorKind::IdExhausted)),
    }
}

/// What an existing index means for a create request.
pub open spec fn existing_failure(
    manifest: Option<ManifestView>,
    config: IndexConfigView,
) -> Option<ErrorKind> {
    match manifest {
        None => Some(ErrorKind::Corruption),
        Some(found) => if found.lifecycle == IndexLifecycle::Dropping {
            Some(ErrorKind::IndexDropping)
        } else if found.config.agrees(config) {
            None
        } else {
            Some(ErrorKind::IndexAlreadyExists)
        },
    }
}

/// Creating over an existing index succeeds only when it is Active and its
/// stored configuration is the requested one in everything: dimension, metric,
/// partition bounds, Tree Key fields, and every field's name, domain,
/// nullability, and synopsis. Any difference is its own failure, and a
/// Dropping index is never created over.
pub proof fn only_the_same_index_is_created_over(found: ManifestView, config: IndexConfigView)
    ensures
        existing_failure(Some(found), config) is None ==> {
            &&& found.lifecycle == IndexLifecycle::Active
            &&& found.config.dimension == config.dimension
            &&& found.config.metric == config.metric
            &&& found.config.min_partition_entries == config.min_partition_entries
            &&& found.config.max_partition_entries == config.max_partition_entries
            &&& found.config.tree_key_fields == config.tree_key_fields
            &&& found.config.fields.len() == config.fields.len()
            &&& forall|i: int|
                0 <= i < config.fields.len() ==> {
                    let stored = #[trigger] found.config.fields[i];
                    let asked = config.fields[i];
                    &&& stored.name == asked.name
                    &&& stored.data_type == asked.data_type
                    &&& stored.nullable == asked.nullable
                    &&& stored.synopsis is MinMaxBloom == asked.synopsis is MinMaxBloom
                    &&& stored.synopsis is MinMaxBloom
                        ==> stored.synopsis->MinMaxBloom_expected_distinct
                        == asked.synopsis->MinMaxBloom_expected_distinct
                    &&& stored.synopsis is MinMaxBloom && stored.synopsis.valid()
                        ==> stored.synopsis->MinMaxBloom_false_positive_rate.bits
                        == asked.synopsis->MinMaxBloom_false_positive_rate.bits
                }
        },
        found.lifecycle == IndexLifecycle::Dropping ==> existing_failure(Some(found), config)
            == Some(ErrorKind::IndexDropping),
        found.lifecycle == IndexLifecycle::Active && existing_failure(Some(found), config) is Some
            ==> existing_failure(Some(found), config) == Some(ErrorKind::IndexAlreadyExists),
        existing_failure(None, config) == Some(ErrorKind::Corruption),
        found.lifecycle == IndexLifecycle::Active && found.config == config
            && config.legal_synopses() ==> existing_failure(Some(found), config) is None,
{
    if existing_failure(Some(found), config) is None {
        assert forall|i: int| 0 <= i < config.fields.len() implies {
            let stored = #[trigger] found.config.fields[i];
            let asked = config.fields[i];
            &&& stored.name == asked.name
            &&& stored.data_type == asked.data_type
            &&& stored.nullable == asked.nullable
            &&& stored.synopsis is MinMaxBloom == asked.synopsis is MinMaxBloom
            &&& stored.synopsis is MinMaxBloom ==> stored.synopsis->MinMaxBloom_expected_distinct
                == asked.synopsis->MinMaxBloom_expected_distinct
        } by {
            assert(found.config.fields[i].agrees(config.fields[i]));
        }
    }
    crate::api::schema::equality_is_sound(
        crate::api::schema::ValueView::Null,
        crate::api::schema::ValueView::Null,
        config.fields,
    );
}

/// The content of an optional manifest.
pub open spec fn manifest_view(manifest: Option<IndexManifest>) -> Option<ManifestView> {
    match manifest {
        Some(found) => Some(found@),
        None => None,
    }
}

/// Classifies the index that a name maps to: creating it again with the same
/// configuration succeeds. A mapped name without a manifest is Corruption.
pub fn classify_existing(manifest: Option<IndexManifest>, config: &IndexConfig) -> (res: Result<
    IndexManifest,
>)
    ensures
        match existing_failure(manifest_view(manifest), config@) {
            Some(kind) => res == Err::<IndexManifest, Error>(plain_error(kind)),
            None => manifest is Some && res == Ok::<IndexManifest, Error>(manifest->0),
        },
        res matches Ok(found) ==> {
            &&& manifest == Some(found)
            &&& found.lifecycle == IndexLifecycle::Active
            &&& found.config@.dimension == config@.dimension
            &&& found.config@.metric == config@.metric
            &&& found.config@.min_partition_entries == config@.min_partition_entries
            &&& found.config@.max_partition_entries == config@.max_partition_entries
            &&& found.config@.tree_key_fields == config@.tree_key_fields
            &&& found.config@.fields.len() == config@.fields.len()
            &&& forall|i: int|
                0 <= i < config@.fields.len() ==> {
                    let stored = #[trigger] found.config@.fields[i];
                    let asked = config@.fields[i];
                    &&& stored.name == asked.name
                    &&& stored.data_type == asked.data_type
                    &&& stored.nullable == asked.nullable
                    &&& stored.synopsis.agrees(asked.synopsis)
                }
        },
        manifest is None ==> (res matches Err(error) && error@.kind == ErrorKind::Corruption),
        manifest matches Some(found) ==> (found.lifecycle == IndexLifecycle::Dropping ==> (
        res matches Err(error) && error@.kind == ErrorKind::IndexDropping)),
        manifest matches Some(found) ==> (found.lifecycle == IndexLifecycle::Active && (
        found.config@.dimension != config@.dimension || found.config@.metric != config@.metric
            || found.config@.min_partition_entries != config@.min_partition_entries
            || found.config@.max_partition_entries != config@.max_partition_entries
            || found.config@.tree_key_fields != config@.tree_key_fields
            || found.config@.fields.len() != config@.fields.len()) ==> (res matches Err(error)
            && error@.kind == ErrorKind::IndexAlreadyExists)),
{
    match manifest {
        None => Err(Error::new(ErrorKind::Corruption)),
        Some(found) => {
            if found.lifecycle == IndexLifecycle::Dropping {
                return Err(Error::new(ErrorKind::IndexDropping));
            }
            if found.config.same(config) {
                Ok(found)
            } else {
                Err(Error::new(ErrorKind::IndexAlreadyExists))
            }
        },
    }
}

/// Creating an index is idempotent: what a create installed is what the next
/// create of the same configuration returns.
pub proof fn creating_again_succeeds(id: LogicalIndexId, config: IndexConfigView)
    requires
        config.legal_synopses(),
    ensures
        existing_failure(Some(active_manifest(id, config)), config) is None,
        existing_failure(
            Some(
                (ManifestView {
                    lifecycle: IndexLifecycle::Dropping,
                    ..active_manifest(id, config)
                }),
            ),
            config,
        ) == Some(ErrorKind::IndexDropping),
{
}

/// What follows one create commit.
pub enum CreateEnd {
    /// The index exists.
    Created,
    /// Try again after this many nanoseconds.
    Retry {
        /// The wait.
        wait_nanos: u64,
    },
    /// The outcome is unknown: look the name up once.
    Recover,
    /// Give up.
    Fail {
        /// The failure.
        error: Error,
    },
}

/// Decides what follows one create commit. A definite abort restarts the whole
/// attempt; an unknown outcome is recovered, never retried blindly.
pub fn after_create_commit(
    committed: Result<()>,
    retry: RetryPolicy,
    failed_attempts: &mut u32,
    sequence: u64,
) -> (res: CreateEnd)
    ensures
        match committed {
            Ok(_) => res == CreateEnd::Created && *final(failed_attempts) == *old(failed_attempts),
            Err(error) => match error@.kind {
                ErrorKind::RetryableAbort => if retry.exhausted_after(*old(failed_attempts)) {
                    &&& res == (CreateEnd::Fail {
                        error: plain_error(ErrorKind::ContentionExhausted),
                    })
                    &&& *final(failed_attempts) == *old(failed_attempts)
                } else {
                    &&& res matches CreateEnd::Retry { wait_nanos } && wait_nanos == share(
                        xxh3_64_of(le_bytes(sequence as nat, 8)),
                        retry.interval(*old(failed_attempts)),
                    )
                    &&& *final(failed_attempts) == *old(failed_attempts) + 1
                },
                ErrorKind::CommitOutcomeUnknown => {
                    &&& res == CreateEnd::Recover
                    &&& *final(failed_attempts) == *old(failed_attempts)
                },
                _ => {
                    &&& res == (CreateEnd::Fail { error })
                    &&& *final(failed_attempts) == *old(failed_attempts)
                },
            },
        },
{
    match committed {
        Ok(_) => CreateEnd::Created,
        Err(error) => {
            if error.kind() == ErrorKind::RetryableAbort {
                return match retry.wait_or_exhaust(failed_attempts, sequence) {
                    Ok(wait_nanos) => CreateEnd::Retry { wait_nanos },
                    Err(error) => CreateEnd::Fail { error },
                };
            }
            if error.kind() == ErrorKind::CommitOutcomeUnknown {
                return CreateEnd::Recover;
            }
            CreateEnd::Fail { error }
        },
    }
}

/// Reads the name mapping after a create of unknown outcome: an absent name
/// leaves the outcome unknown, and no other identity is reserved.
pub fn recover_create(name: Stored<LogicalIndexId>) -> (res: Result<LogicalIndexId>)
    ensures
        res == match name {
            Stored::Absent => Err::<LogicalIndexId, Error>(
                plain_error(ErrorKind::CommitOutcomeUnknown),
            ),
            Stored::Other => Err::<LogicalIndexId, Error>(plain_error(ErrorKind::Corruption)),
            Stored::Found(id) => Ok::<LogicalIndexId, Error>(id),
        },
{
    match name {
        Stored::Absent => Err(Error::new(ErrorKind::CommitOutcomeUnknown)),
        Stored::Other => Err(Error::new(ErrorKind::Corruption)),
        Stored::Found(id) => Ok(id),
    }
}

/// Reads the name mapping of an index to open.
pub fn open_name(name: Stored<LogicalIndexId>) -> (res: Result<LogicalIndexId>)
    ensures
        res == match name {
            Stored::Absent => Err::<LogicalIndexId, Error>(plain_error(ErrorKind::IndexNotFound)),
            Stored::Other => Err::<LogicalIndexId, Error>(plain_error(ErrorKind::Corruption)),
            Stored::Found(id) => Ok::<LogicalIndexId, Error>(id),
        },
{
    match name {
        Stored::Absent => Err(Error::new(ErrorKind::IndexNotFound)),
        Stored::Other => Err(Error::new(ErrorKind::Corruption)),
        Stored::Found(id) => Ok(id),
    }
}

/// Accepts the manifest of an index to open. A mapped name without a manifest
/// is Corruption.
pub fn open_manifest(manifest: Option<IndexManifest>) -> (res: Result<IndexManifest>)
    ensures
        match manifest {
            None => res == Err::<IndexManifest, Error>(plain_error(ErrorKind::Corruption)),
            Some(found) => if found.lifecycle == IndexLifecycle::Active {
                res == Ok::<IndexManifest, Error>(found)
            } else {
                res == Err::<IndexManifest, Error>(plain_error(ErrorKind::IndexDropping))
            },
        },
{
    match manifest {
        None => Err(Error::new(ErrorKind::Corruption)),
        Some(found) => match found.lifecycle {
            IndexLifecycle::Active => Ok(found),
            IndexLifecycle::Dropping => Err(Error::new(ErrorKind::IndexDropping)),
        },
    }
}

/// What a handle's persisted manifest means for its next operation.
pub open spec fn opened_failure(
    value: Option<Option<ManifestView>>,
    handle: ManifestView,
) -> Option<ErrorKind> {
    match value {
        None => Some(ErrorKind::IndexNotFound),
        Some(None) => Some(ErrorKind::Corruption),
        Some(Some(current)) => if current.lifecycle == IndexLifecycle::Dropping {
            Some(ErrorKind::IndexDropping)
        } else if current.same_identity(handle) {
            None
        } else {
            Some(ErrorKind::Corruption)
        },
    }
}

/// The content of a stored manifest: `None` when absent, `Some(None)` when of
/// another kind.
pub open spec fn stored_manifest_view(value: Stored<IndexManifest>) -> Option<
    Option<ManifestView>,
> {
    match value {
        Stored::Absent => None,
        Stored::Other => Some(None),
        Stored::Found(found) => Some(Some(found@)),
    }
}

/// Classifies the persisted manifest of an opened handle. A handle never
/// retargets: the manifest must be Active and carry the handle's identity.
pub fn opened_manifest(value: Stored<IndexManifest>, handle: &IndexManifest) -> (res: Result<
    IndexManifest,
>)
    ensures
        match opened_failure(stored_manifest_view(value), handle@) {
            Some(kind) => res == Err::<IndexManifest, Error>(plain_error(kind)),
            None => value matches Stored::Found(found) && res == Ok::<IndexManifest, Error>(found),
        },
        res matches Ok(found) ==> {
            &&& value == Stored::Found(found)
            &&& found.lifecycle == IndexLifecycle::Active
            &&& found.logical_index_id == handle.logical_index_id
            &&& found.rotation_seed@ == handle.rotation_seed@
            &&& found.config@.agrees(handle.config@)
        },
        value is Absent ==> (res matches Err(error) && error@.kind == ErrorKind::IndexNotFound),
        value is Other ==> (res matches Err(error) && error@.kind == ErrorKind::Corruption),
        value matches Stored::Found(found) ==> (found.lifecycle == IndexLifecycle::Dropping ==> (
        res matches Err(error) && error@.kind == ErrorKind::IndexDropping)),
        value matches Stored::Found(found) ==> (found.lifecycle == IndexLifecycle::Active && (
        found.logical_index_id != handle.logical_index_id || found.rotation_seed@
            != handle.rotation_seed@) ==> (res matches Err(error) && error@.kind
            == ErrorKind::Corruption)),
{
    match value {
        Stored::Absent => Err(Error::new(ErrorKind::IndexNotFound)),
        Stored::Other => Err(Error::new(ErrorKind::Corruption)),
        Stored::Found(current) => {
            if current.lifecycle == IndexLifecycle::Dropping {
                return Err(Error::new(ErrorKind::IndexDropping));
            }
            if current.has_same_immutable_identity(handle) {
                Ok(current)
            } else {
                Err(Error::new(ErrorKind::Corruption))
            }
        },
    }
}

/// What one attempt of a drop does.
#[derive(Clone, Copy, Debug, PartialEq, Eq, Structural)]
pub enum DropPlan {
    /// The name is gone: the drop is done.
    Done,
    /// Read the manifest of this identity.
    ReadManifest {
        /// The identity.
        id: LogicalIndexId,
    },
}

/// Reads the name mapping of an index to drop: dropping an absent index
/// succeeds.
pub fn drop_name(name: Stored<LogicalIndexId>) -> (res: Result<DropPlan>)
    ensures
        res == match name {
            Stored::Absent => Ok::<DropPlan, Error>(DropPlan::Done),
            Stored::Other => Err::<DropPlan, Error>(plain_error(ErrorKind::Corruption)),
            Stored::Found(id) => Ok::<DropPlan, Error>(DropPlan::ReadManifest { id }),
        },
{
    match name {
        Stored::Absent => Ok(DropPlan::Done),
        Stored::Other => Err(Error::new(ErrorKind::Corruption)),
        Stored::Found(id) => Ok(DropPlan::ReadManifest { id }),
    }
}

/// A manifest in the Dropping state.
pub open spec fn dropping(manifest: ManifestView) -> ManifestView {
    ManifestView { lifecycle: IndexLifecycle::Dropping, ..manifest }
}

/// How a drop attempt goes on with its manifest.
pub enum DropAction {
    /// Persist the Dropping manifest first.
    MarkDropping {
        /// The manifest to persist.
        manifest: IndexManifest,
    },
    /// Delete the index-owned range.
    Delete,
}

/// Decides how a drop goes on with the index's manifest; a mapped name without
/// one is Corruption.
pub fn drop_manifest(manifest: &Option<IndexManifest>) -> (res: Result<DropAction>)
    ensures
        match manifest {
            None => res == Err::<DropAction, Error>(plain_error(ErrorKind::Corruption)),
            Some(found) => match found.lifecycle {
                IndexLifecycle::Active => res matches Ok(DropAction::MarkDropping { manifest: next })
                    && next@ == dropping(found@),
                IndexLifecycle::Dropping => res == Ok::<DropAction, Error>(DropAction::Delete),
            },
        },
        res matches Ok(DropAction::MarkDropping { manifest: next }) ==> {
            &&& next.lifecycle == IndexLifecycle::Dropping
            &&& next.logical_index_id == manifest->0.logical_index_id
            &&& next.config@ == manifest->0.config@
            &&& next.rotation_seed@ == manifest->0.rotation_seed@
        },
{
    match manifest {
        None => Err(Error::new(ErrorKind::Corruption)),
        Some(found) => match found.lifecycle {
            IndexLifecycle::Active => Ok(
                DropAction::MarkDropping {
                    manifest: found.with_lifecycle(IndexLifecycle::Dropping),
                },
            ),
            IndexLifecycle::Dropping => Ok(DropAction::Delete),
        },
    }
}

/// Rechecks, inside the deleting transaction, that the index is still the same
/// one and still Dropping; anything else is Corruption.
pub fn recheck_drop(current: &Option<IndexManifest>, id: LogicalIndexId) -> (res: Result<()>)
    ensures
        res is Ok <==> (current matches Some(found) && found.lifecycle == IndexLifecycle::Dropping
            && found.logical_index_id == id),
        res matches Err(error) ==> error == plain_error(ErrorKind::Corruption),
{
    match current {
        None => Err(Error::new(ErrorKind::Corruption)),
        Some(found) => {
            if found.lifecycle != IndexLifecycle::Dropping || found.logical_index_id != id {
                return Err(Error::new(ErrorKind::Corruption));
            }
            Ok(())
        },
    }
}

/// One bounded deletion of a drop.
pub enum DropStep {
    /// The page held only the manifest: scan on from the cursor.
    Advance,
    /// Commit these deletions.
    Commit {
        /// Whether to clear the whole index-owned range.
        clear_range: bool,
        /// The page positions to delete.
        deletes: Vec<usize>,
        /// Whether to delete the manifest, too.
        delete_manifest: bool,
        /// Whether to delete the name mapping, which ends the drop.
        complete: bool,
    },
}

/// The page positions that are not the manifest, among the first `n`.
pub open spec fn data_positions(is_manifest: Seq<bool>, n: nat) -> Seq<usize>
    decreases n,
{
    if n == 0 {
        Seq::empty()
    } else {
        let rest = data_positions(is_manifest, (n - 1) as nat);
        if is_manifest[n - 1] {
            rest
        } else {
            rest.push((n - 1) as usize)
        }
    }
}

/// The mathematical content of a [`DropStep`].
pub ghost enum DropStepView {
    /// Scan on from the cursor.
    Advance,
    /// Commit these deletions.
    Commit {
        /// Whether to clear the whole index-owned range.
        clear_range: bool,
        /// The page positions to delete.
        deletes: Seq<usize>,
        /// Whether to delete the manifest, too.
        delete_manifest: bool,
        /// Whether to delete the name mapping, which ends the drop.
        complete: bool,
    },
}

impl View for DropStep {
    type V = DropStepView;

    open spec fn view(&self) -> DropStepView {
        match self {
            DropStep::Advance => DropStepView::Advance,
            DropStep::Commit { clear_range, deletes, delete_manifest, complete } =>
                DropStepView::Commit {
                clear_range: *clear_range,
                deletes: deletes@,
                delete_manifest: *delete_manifest,
                complete: *complete,
            },
        }
    }
}

/// The deletion that follows from one page: the whole range where the backend
/// clears ranges, else what the page holds besides the manifest, and once no
/// page holds anything else the manifest and the name.
pub open spec fn planned_deletion(
    clears_ranges: bool,
    is_manifest: Seq<bool>,
    has_next_page: bool,
) -> DropStepView {
    let data = data_positions(is_manifest, is_manifest.len());
    if clears_ranges {
        DropStepView::Commit {
            clear_range: true,
            deletes: Seq::empty(),
            delete_manifest: false,
            complete: true,
        }
    } else if data.len() > 0 {
        DropStepView::Commit {
            clear_range: false,
            deletes: data,
            delete_manifest: false,
            complete: false,
        }
    } else if has_next_page {
        DropStepView::Advance
    } else {
        DropStepView::Commit {
            clear_range: false,
            deletes: Seq::empty(),
            delete_manifest: true,
            complete: true,
        }
    }
}

/// Plans one bounded deletion. A backend that clears ranges in one transaction
/// needs no page. Otherwise one page is deleted with the manifest kept, and
/// once nothing else is left the manifest and the name go together.
pub fn prepare_delete_step(
    clears_ranges: bool,
    is_manifest: &Vec<bool>,
    has_next_page: bool,
) -> (res: DropStep)
    ensures
        res@ == planned_deletion(clears_ranges, is_manifest@, has_next_page),
{
    if clears_ranges {
        return DropStep::Commit {
            clear_range: true,
            deletes: Vec::new(),
            delete_manifest: false,
            complete: true,
        };
    }
    let mut deletes: Vec<usize> = Vec::new();
    let mut at: usize = 0;
    while at < is_manifest.len()
        invariant
            at <= is_manifest@.len(),
            deletes@ == data_positions(is_manifest@, at as nat),
        decreases is_manifest@.len() - at,
    {
        if !is_manifest[at] {
            deletes.push(at);
        }
        at = at + 1;
    }
    if deletes.len() > 0 {
        return DropStep::Commit {
            clear_range: false,
            deletes,
            delete_manifest: false,
            complete: false,
        };
    }
    if has_next_page {
        return DropStep::Advance;
    }
    assert(deletes@ =~= Seq::empty());
    DropStep::Commit { clear_range: false, deletes, delete_manifest: true, complete: true }
}

/// Returns the page bounds of a point-delete drop: the transaction budget,
/// and at least one.
pub fn drop_scan_limits(max_mutations: usize, max_mutation_bytes: usize) -> (res: ScanLimits)
    ensures
        res.item_limit == if max_mutations >= 1 {
            max_mutations
        } else {
            1
        },
        res.byte_limit == if max_mutation_bytes >= 1 {
            max_mutation_bytes
        } else {
            1
        },
{
    let item_limit: usize = if max_mutations >= 1 {
        max_mutations
    } else {
        1
    };
    let byte_limit: usize = if max_mutation_bytes >= 1 {
        max_mutation_bytes
    } else {
        1
    };
    ScanLimits { item_limit, byte_limit }
}

/// Where the next drop step scans from.
#[derive(Clone, Copy, Debug, PartialEq, Eq, Structural)]
pub enum DropResume {
    /// The beginning of the range: no page cursor outlives an unknown outcome.
    Start,
    /// The page that was not committed.
    Again,
    /// The page behind the committed one.
    Next,
}

/// What follows one drop commit.
pub enum DropEnd {
    /// The drop is done.
    Dropped,
    /// Take the next step.
    Continue {
        /// Where it scans from.
        resume: DropResume,
        /// The nanoseconds to wait first.
        wait_nanos: u64,
    },
    /// Too many outcomes are unknown: look the name up once.
    Recover,
    /// Give up.
    Fail {
        /// The failure.
        error: Error,
    },
}

/// The attempts of one drop.
#[derive(Clone, Copy, Debug, PartialEq, Eq, Structural)]
pub struct DropAttempts {
    /// The policy.
    pub policy: RetryPolicy,
    /// The definite aborts so far.
    pub failed: u32,
    /// The unknown outcomes so far.
    pub unknown: u32,
}

impl DropAttempts {
    /// No attempt made yet.
    pub fn new(policy: RetryPolicy) -> (res: Self)
        ensures
            res == (DropAttempts { policy, failed: 0, unknown: 0 }),
    {
        DropAttempts { policy, failed: 0, unknown: 0 }
    }

    /// Whether one more unknown outcome is one too many.
    pub open spec fn unknown_exhausted(self) -> bool {
        self.unknown == u32::MAX || self.unknown + 1 >= self.policy.attempts
    }

    /// Decides what follows one drop commit. A definite abort waits and
    /// repeats the step. An unknown outcome restarts from a fresh snapshot,
    /// because no page cursor is persisted.
    pub fn committed(&mut self, committed: Result<()>, complete: bool, sequence: u64) -> (res:
        DropEnd)
        ensures
            final(self).policy == old(self).policy,
            match committed {
                Ok(_) => {
                    &&& res == if complete {
                        DropEnd::Dropped
                    } else {
                        DropEnd::Continue { resume: DropResume::Next, wait_nanos: 0 }
                    }
                    &&& *final(self) == *old(self)
                },
                Err(error) => match error@.kind {
                    ErrorKind::RetryableAbort => if old(self).policy.exhausted_after(
                        old(self).failed,
                    ) {
                        &&& res == (DropEnd::Fail {
                            error: plain_error(ErrorKind::ContentionExhausted),
                        })
                        &&& *final(self) == *old(self)
                    } else {
                        &&& res matches DropEnd::Continue { resume, wait_nanos } && resume
                            == DropResume::Again && wait_nanos == share(
                            xxh3_64_of(le_bytes(sequence as nat, 8)),
                            old(self).policy.interval(old(self).failed),
                        )
                        &&& *final(self) == (DropAttempts {
                            failed: (old(self).failed + 1) as u32,
                            ..*old(self)
                        })
                    },
                    ErrorKind::CommitOutcomeUnknown => {
                        &&& res == if old(self).unknown_exhausted() {
                            DropEnd::Recover
                        } else {
                            DropEnd::Continue { resume: DropResume::Start, wait_nanos: 0 }
                        }
                        &&& final(self).failed == old(self).failed
                        &&& final(self).unknown == if old(self).unknown == u32::MAX {
                            u32::MAX as int
                        } else {
                            old(self).unknown + 1
                        }
                    },
                    _ => res == (DropEnd::Fail { error }) && *final(self) == *old(self),
                },
            },
    {
        match committed {
            Ok(_) => {
                if complete {
                    DropEnd::Dropped
                } else {
                    DropEnd::Continue { resume: DropResume::Next, wait_nanos: 0 }
                }
            },
            Err(error) => {
                if error.kind() == ErrorKind::RetryableAbort {
                    return match self.policy.wait_or_exhaust(&mut self.failed, sequence) {
                        Ok(wait_nanos) => DropEnd::Continue { resume: DropResume::Again, wait_nanos },
                        Err(error) => DropEnd::Fail { error },
                    };
                }
                if error.kind() == ErrorKind::CommitOutcomeUnknown {
                    let exhausted = self.unknown == u32::MAX || self.unknown + 1
                        >= self.policy.attempts;
                    self.unknown = self.unknown.saturating_add(1);
                    if exhausted {
                        return DropEnd::Recover;
                    }
                    return DropEnd::Continue { resume: DropResume::Start, wait_nanos: 0 };
                }
                DropEnd::Fail { error }
            },
        }
    }
}

/// Reads the name mapping after drops of unknown outcome: an absent name is a
/// finished drop, and a present index leaves the outcome unknown.
pub fn recover_drop(name: Stored<LogicalIndexId>, manifest_found: bool) -> (res: Result<()>)
    ensures
        res == match name {
            Stored::Absent => Ok::<(), Error>(()),
            Stored::Other => Err::<(), Error>(plain_error(ErrorKind::Corruption)),
            Stored::Found(_) => if manifest_found {
                Err::<(), Error>(plain_error(ErrorKind::CommitOutcomeUnknown))
            } else {
                Err::<(), Error>(plain_error(ErrorKind::Corruption))
            },
        },
{
    match name {
        Stored::Absent => Ok(()),
        Stored::Other => Err(Error::new(ErrorKind::Corruption)),
        Stored::Found(_) => {
            if manifest_found {
                Err(Error::new(ErrorKind::CommitOutcomeUnknown))
            } else {
                Err(Error::new(ErrorKind::Corruption))
            }
        },
    }
}

proof fn no_data_means_all_manifest(is_manifest: Seq<bool>, n: nat, at: int)
    requires
        n <= is_manifest.len(),
        data_positions(is_manifest, n).len() == 0,
        0 <= at < n,
    ensures
        is_manifest[at],
    decreases n,
{
    if at < n - 1 {
        no_data_means_all_manifest(is_manifest, (n - 1) as nat, at);
    }
}

/// A point-delete drop ends only when nothing but the manifest is left on its
/// last page.
pub proof fn drops_end_with_the_manifest(is_manifest: Seq<bool>, at: int)
    requires
        data_positions(is_manifest, is_manifest.len()).len() == 0,
        0 <= at < is_manifest.len(),
    ensures
        is_manifest[at],
{
    no_data_means_all_manifest(is_manifest, is_manifest.len(), at);
}

} // verus!
