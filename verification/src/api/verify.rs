//! Bounded read-only verification request and report values.

use std::collections::BTreeMap;

use vstd::prelude::*;

use super::error::{plain_error, Error, ErrorKind, Result};
use super::identifiers::{LogicalIndexId, PartitionKey};

verus! {

/// The reported-issue limit without configuration.
pub const DEFAULT_ISSUES: usize = 100;

/// The largest reported-issue limit.
pub const MAX_ISSUES: usize = 10_000;

/// The logical-object limit without configuration.
pub const DEFAULT_OBJECTS: u64 = 1_000_000;

/// The largest logical-object limit.
pub const MAX_OBJECTS: u64 = 100_000_000;

/// The resident-memory limit without configuration, in bytes.
pub const DEFAULT_MEMORY_BYTES: u64 = 67_108_864;

/// The largest resident-memory limit, in bytes.
pub const MAX_MEMORY_BYTES: u64 = 1_073_741_824;

/// Resource limits for one read-only verification.
#[derive(Clone, Copy, Debug, PartialEq, Eq, Structural)]
#[non_exhaustive]
pub struct VerifyOptions {
    /// The maximum number of reported issues.
    issue_limit: usize,
    /// The maximum decoded logical-object count.
    object_limit: u64,
    /// The maximum resident-memory byte count.
    memory_limit_bytes: u64,
}

/// The mathematical content of verification limits.
pub ghost struct VerifyOptionsView {
    /// The maximum number of reported issues.
    pub issue_limit: usize,
    /// The maximum decoded logical-object count.
    pub object_limit: u64,
    /// The maximum resident-memory byte count.
    pub memory_limit_bytes: u64,
}

impl VerifyOptionsView {
    /// Whether every limit is positive and within its hard safety limit.
    pub open spec fn valid(self) -> bool {
        &&& 1 <= self.issue_limit <= MAX_ISSUES
        &&& 1 <= self.object_limit <= MAX_OBJECTS
        &&& 1 <= self.memory_limit_bytes <= MAX_MEMORY_BYTES
    }
}

impl View for VerifyOptions {
    type V = VerifyOptionsView;

    closed spec fn view(&self) -> VerifyOptionsView {
        VerifyOptionsView {
            issue_limit: self.issue_limit,
            object_limit: self.object_limit,
            memory_limit_bytes: self.memory_limit_bytes,
        }
    }
}

impl Default for VerifyOptions {
    fn default() -> (res: Self)
        ensures
            res@.issue_limit == DEFAULT_ISSUES,
            res@.object_limit == DEFAULT_OBJECTS,
            res@.memory_limit_bytes == DEFAULT_MEMORY_BYTES,
            res.valid(),
    {
        VerifyOptions {
            issue_limit: DEFAULT_ISSUES,
            object_limit: DEFAULT_OBJECTS,
            memory_limit_bytes: DEFAULT_MEMORY_BYTES,
        }
    }
}

impl VerifyOptions {
    /// Whether every limit is positive and within its hard safety limit.
    pub open spec fn valid(self) -> bool {
        self@.valid()
    }

    /// Sets the independent positive issue limit.
    pub fn with_issue_limit(self, limit: usize) -> (res: Result<Self>)
        ensures
            ({
                let options = VerifyOptionsView { issue_limit: limit, ..self@ };
                match res {
                    Ok(accepted) => options.valid() && accepted@ == options,
                    Err(error) => !options.valid() && error == plain_error(
                        ErrorKind::InvalidArgument,
                    ),
                }
            }),
    {
        let mut options = self;
        options.issue_limit = limit;
        options.validate()?;
        Ok(options)
    }

    /// Sets the independent positive decoded logical-object limit.
    pub fn with_object_limit(self, limit: u64) -> (res: Result<Self>)
        ensures
            ({
                let options = VerifyOptionsView { object_limit: limit, ..self@ };
                match res {
                    Ok(accepted) => options.valid() && accepted@ == options,
                    Err(error) => !options.valid() && error == plain_error(
                        ErrorKind::InvalidArgument,
                    ),
                }
            }),
    {
        let mut options = self;
        options.object_limit = limit;
        options.validate()?;
        Ok(options)
    }

    /// Sets the independent positive resident-memory limit.
    pub fn with_memory_limit_bytes(self, limit: u64) -> (res: Result<Self>)
        ensures
            ({
                let options = VerifyOptionsView { memory_limit_bytes: limit, ..self@ };
                match res {
                    Ok(accepted) => options.valid() && accepted@ == options,
                    Err(error) => !options.valid() && error == plain_error(
                        ErrorKind::InvalidArgument,
                    ),
                }
            }),
    {
        let mut options = self;
        options.memory_limit_bytes = limit;
        options.validate()?;
        Ok(options)
    }

    /// Validates all hard safety limits.
    pub fn validate(&self) -> (res: Result<()>)
        ensures
            res is Ok <==> self.valid(),
            res matches Err(error) ==> error == plain_error(ErrorKind::InvalidArgument),
    {
        if self.issue_limit == 0 || self.issue_limit > MAX_ISSUES || self.object_limit == 0
            || self.object_limit > MAX_OBJECTS || self.memory_limit_bytes == 0
            || self.memory_limit_bytes > MAX_MEMORY_BYTES {
            return Err(Error::invalid_argument());
        }
        Ok(())
    }

    /// Returns the maximum number of reported issues.
    pub fn issue_limit(&self) -> (res: usize)
        ensures
            res == self@.issue_limit,
    {
        self.issue_limit
    }

    /// Returns the maximum decoded logical-object count.
    pub fn object_limit(&self) -> (res: u64)
        ensures
            res == self@.object_limit,
    {
        self.object_limit
    }

    /// Returns the maximum resident-memory byte count.
    pub fn memory_limit_bytes(&self) -> (res: u64)
        ensures
            res == self@.memory_limit_bytes,
    {
        self.memory_limit_bytes
    }
}

/// A stable coarse verification issue category.
#[derive(Clone, Copy, Debug, PartialEq, Eq, Structural)]
#[non_exhaustive]
pub enum VerifyIssueKind {
    /// Persistent bytes are malformed, noncanonical, or unsupported here.
    InvalidEncoding,
    /// A reachable object is missing or an unreachable object exists.
    Reachability,
    /// A child or Leaf Entry has invalid or duplicate membership.
    Membership,
    /// A stored exact count disagrees with its logical entries.
    CountMismatch,
    /// Vector Record, Record Location, and Leaf Entry projections disagree.
    RecordProjectionMismatch,
    /// A Partition Synopsis could produce unsound pruning.
    SynopsisNotConservative,
}

/// Safe verification identifiers for one issue.
pub struct VerifyIssue {
    /// Stable coarse issue category.
    pub kind: VerifyIssueKind,
    /// Logical Index ID containing the issue.
    pub logical_index_id: LogicalIndexId,
    /// Stable hash of the Tree Key, never the raw Tree Key.
    pub tree_key_hash: [u8; 32],
    /// Partition Key containing or referencing the issue.
    pub partition_key: PartitionKey,
    /// Optional opaque Record ID for programmatic correlation.
    pub record_id: Option<Vec<u8>>,
}

/// Decoded logical-object counts observed by verification.
#[derive(Clone, Copy, Debug, PartialEq, Eq, Structural)]
pub struct VerifyObjectCounts {
    /// Total decoded logical objects charged to the object limit.
    pub total: u64,
    /// Vector Records decoded.
    pub vector_records: u64,
    /// Record Locations decoded.
    pub record_locations: u64,
    /// Partition bodies decoded.
    pub partitions: u64,
    /// Internal and Leaf Entries decoded.
    pub entries: u64,
}

/// Verified Partition Header counts grouped by persistent state.
#[derive(Clone, Copy, Debug, PartialEq, Eq, Structural)]
pub struct VerifyPartitionStateCounts {
    /// Ready partitions.
    pub ready: u64,
    /// Splitting source partitions.
    pub splitting: u64,
    /// Receiving split targets.
    pub receiving_split: u64,
    /// Draining split source partitions.
    pub draining_split: u64,
    /// Merging source partitions.
    pub merging: u64,
}

/// Verified tree-shape facts observed from persistent directory and Headers.
pub struct VerifyTopology {
    /// Tree Manifests decoded by the audit.
    pub trees: u64,
    /// Partition Headers decoded by the audit.
    pub partitions: u64,
    /// Highest observed partition level, or `None` for an empty Sharded Forest.
    pub max_level: Option<u32>,
    /// Partition Header counts keyed by their positive tree level.
    pub partitions_by_level: BTreeMap<u32, u64>,
    /// Exact Header entry-count sums keyed by tree level.
    pub entries_by_level: BTreeMap<u32, u64>,
    /// Largest exact Header entry count observed at each tree level.
    pub max_entries_by_level: BTreeMap<u32, u32>,
    /// Partition Header counts grouped by persistent state.
    pub partition_states: VerifyPartitionStateCounts,
    /// Partitions whose committed Header can advance Structure Maintenance.
    pub actionable_partitions: u64,
}

/// The bounded result of one read-only verification snapshot.
pub struct VerifyReport {
    /// Whether the full Logical Index was verified before any limit was
    /// reached.
    pub complete: bool,
    /// Ordered bounded issues.
    pub issues: Vec<VerifyIssue>,
    /// Decoded logical-object counts.
    pub objects: VerifyObjectCounts,
    /// Verified tree-shape facts derived from authoritative persistent state.
    pub topology: VerifyTopology,
}

} // verus!
