//! Immutable Logical Index and process-local Runtime configuration.

use vstd::prelude::*;

use super::duration::{Duration, NANOS_PER_MILLI, NANOS_PER_SECOND};
use super::error::{plain_error, Error, ErrorKind, Result};
use super::identifiers::FieldId;
use super::schema::{schema_view, schemas_agree, DataType, FieldSchema, FieldSchemaView, Metric, SynopsisConfig, MAX_ENCODED_SYNOPSIS_BYTES, MAX_FIELDS, MAX_STRING_BYTES};
use super::search::{default_budgets, SearchBudgets};

verus! {

/// The largest vector dimension.
pub const MAX_DIMENSION: usize = 16_384;

/// The most fields with a Bloom summary.
pub const MAX_BLOOM_FIELDS: usize = 4;

/// The longest encoded Tree Key, in bytes.
pub const MAX_TREE_KEY_BYTES: usize = 8_192;

/// The minimum partition entry count without configuration.
pub const DEFAULT_MIN_PARTITION_ENTRIES: u32 = 16;

/// The maximum partition entry count without configuration.
pub const DEFAULT_MAX_PARTITION_ENTRIES: u32 = 128;

/// The largest configurable maximum partition entry count.
pub const MAX_PARTITION_ENTRIES: u32 = 65_536;

/// The Fixup queue capacity without configuration.
pub const DEFAULT_FIXUP_QUEUE_CAPACITY: usize = 1_024;

/// The foreground operation bound without configuration.
pub const DEFAULT_FOREGROUND_OPERATION_LIMIT: usize = 1_024;

/// The largest configurable foreground operation bound.
pub const MAX_FOREGROUND_OPERATION_LIMIT: usize = 65_536;

/// The whole-operation attempts without configuration.
pub const DEFAULT_ATTEMPTS: u32 = 8;

/// The partition cache capacity without configuration, in bytes.
pub const DEFAULT_PARTITION_CACHE_BYTES: u64 = 268_435_456;

/// The Tree Key range plan limit without configuration.
pub const DEFAULT_TREE_KEY_SCAN_RANGES: u32 = 1_024;

/// The write beam without configuration.
pub const DEFAULT_WRITE_BEAM_SIZE: u32 = 1;

/// The widest configurable write beam.
pub const MAX_WRITE_BEAM_SIZE: u32 = 16_384;

/// The immutable configuration of one Logical Index.
#[non_exhaustive]
pub struct IndexConfig {
    dimension: usize,
    metric: Metric,
    fields: Vec<FieldSchema>,
    tree_key_fields: Vec<FieldId>,
    min_partition_entries: u32,
    max_partition_entries: u32,
}

/// The mathematical content of an [`IndexConfig`].
pub struct IndexConfigView {
    /// The vector dimension.
    pub dimension: int,
    /// The distance metric.
    pub metric: Metric,
    /// The ordered Vector Record schema.
    pub fields: Seq<FieldSchemaView>,
    /// The ordered Tree Key fields.
    pub tree_key_fields: Seq<FieldId>,
    /// The minimum partition entry count.
    pub min_partition_entries: u32,
    /// The maximum partition entry count.
    pub max_partition_entries: u32,
}

impl View for IndexConfig {
    type V = IndexConfigView;

    closed spec fn view(&self) -> IndexConfigView {
        IndexConfigView {
            dimension: self.dimension as int,
            metric: self.metric,
            fields: schema_view(self.fields@),
            tree_key_fields: self.tree_key_fields@,
            min_partition_entries: self.min_partition_entries,
            max_partition_entries: self.max_partition_entries,
        }
    }
}

/// The longest encoded value of a domain within a Partition Synopsis.
pub open spec fn synopsis_value_bytes(data_type: DataType) -> nat {
    match data_type {
        DataType::String => (MAX_STRING_BYTES + 5) as nat,
        DataType::Bool => 2,
        DataType::I64 => 9,
        DataType::F64 => 9,
    }
}

/// The conservative encoded size of one field's Partition Synopsis: a type
/// tag, NULL flags, two extrema, and the Bloom bytes.
pub open spec fn synopsis_bytes(field: FieldSchemaView) -> nat {
    2 + 2 * synopsis_value_bytes(field.data_type) + field.synopsis.bloom_size()
}

/// The conservative encoded size of the first `n` fields' synopses.
pub open spec fn synopsis_total(fields: Seq<FieldSchemaView>, n: nat) -> nat
    decreases n,
{
    if n == 0 {
        0
    } else {
        synopsis_total(fields, (n - 1) as nat) + synopsis_bytes(fields[n - 1])
    }
}

/// The number of Bloom summaries among the first `n` fields.
pub open spec fn bloom_count(fields: Seq<FieldSchemaView>, n: nat) -> nat
    decreases n,
{
    if n == 0 {
        0
    } else {
        bloom_count(fields, (n - 1) as nat) + if fields[n - 1].synopsis.has_bloom() {
            1nat
        } else {
            0nat
        }
    }
}

/// Whether a schema is acceptable: at most 16 distinctly named fields with
/// valid synopses, at most four Bloom summaries, and a bounded encoded size.
pub open spec fn valid_schema(fields: Seq<FieldSchemaView>) -> bool {
    &&& fields.len() <= MAX_FIELDS
    &&& forall|i: int, j: int|
        0 <= i < j < fields.len() ==> #[trigger] fields[i].name != #[trigger] fields[j].name
    &&& forall|i: int|
        0 <= i < fields.len() ==> (#[trigger] fields[i]).synopsis.valid()
            && fields[i].synopsis.bloom_fits()
    &&& bloom_count(fields, fields.len()) <= MAX_BLOOM_FIELDS
    &&& synopsis_total(fields, fields.len()) <= MAX_ENCODED_SYNOPSIS_BYTES
}

/// The longest encoded value of a domain within a Tree Key.
pub open spec fn tree_key_value_bytes(data_type: DataType) -> nat {
    match data_type {
        DataType::String => (2 * MAX_STRING_BYTES + 2) as nat,
        DataType::Bool => 3,
        DataType::I64 => 10,
        DataType::F64 => 10,
    }
}

/// The longest encoding of the first `n` Tree Key fields.
pub open spec fn tree_key_total(
    keys: Seq<FieldId>,
    fields: Seq<FieldSchemaView>,
    n: nat,
) -> nat
    decreases n,
{
    if n == 0 {
        0
    } else {
        tree_key_total(keys, fields, (n - 1) as nat) + tree_key_value_bytes(
            fields[keys[n - 1].0 as int].data_type,
        )
    }
}

/// Whether Tree Key fields are distinct non-null fields of the schema with a
/// bounded encoding.
pub open spec fn valid_tree_key(keys: Seq<FieldId>, fields: Seq<FieldSchemaView>) -> bool {
    &&& keys.no_duplicates()
    &&& forall|i: int|
        0 <= i < keys.len() ==> (#[trigger] keys[i]).0 < fields.len()
            && !fields[keys[i].0 as int].nullable
    &&& tree_key_total(keys, fields, keys.len()) <= MAX_TREE_KEY_BYTES
}

/// Whether partition entry bounds are acceptable: a positive minimum, a
/// maximum of at least twice that, and at most 65,536.
pub open spec fn valid_partition_entries(minimum: u32, maximum: u32) -> bool {
    0 < minimum && 2 * minimum <= maximum <= MAX_PARTITION_ENTRIES
}

impl IndexConfigView {
    /// Whether the configuration is within every documented limit.
    pub open spec fn valid(self) -> bool {
        &&& 1 <= self.dimension <= MAX_DIMENSION
        &&& valid_schema(self.fields)
        &&& valid_tree_key(self.tree_key_fields, self.fields)
        &&& valid_partition_entries(self.min_partition_entries, self.max_partition_entries)
    }
}

proof fn synopsis_total_grows(fields: Seq<FieldSchemaView>, n: nat, whole: nat)
    requires
        n <= whole <= fields.len(),
    ensures
        synopsis_total(fields, n) <= synopsis_total(fields, whole),
    decreases whole - n,
{
    if n < whole {
        synopsis_total_grows(fields, n, (whole - 1) as nat);
    }
}

proof fn tree_key_total_grows(
    keys: Seq<FieldId>,
    fields: Seq<FieldSchemaView>,
    n: nat,
    whole: nat,
)
    requires
        n <= whole <= keys.len(),
    ensures
        tree_key_total(keys, fields, n) <= tree_key_total(keys, fields, whole),
    decreases whole - n,
{
    if n < whole {
        tree_key_total_grows(keys, fields, n, (whole - 1) as nat);
    }
}

/// Returns whether a field name repeats an earlier one.
fn repeats_name(fields: &Vec<FieldSchema>, at: usize) -> (res: bool)
    requires
        at < fields@.len(),
    ensures
        res == exists|i: int| 0 <= i < at && (#[trigger] fields@[i])@.name == fields@[at as int]@.name,
{
    let mut earlier: usize = 0;
    while earlier < at
        invariant
            earlier <= at < fields@.len(),
            forall|i: int|
                0 <= i < earlier ==> (#[trigger] fields@[i])@.name != fields@[at as int]@.name,
        decreases at - earlier,
    {
        if *fields[earlier].name() == *fields[at].name() {
            return true;
        }
        earlier = earlier + 1;
    }
    false
}

/// Returns whether no field identifier occurs twice.
fn distinct_fields(keys: &Vec<FieldId>) -> (res: bool)
    ensures
        res == keys@.no_duplicates(),
{
    let mut at: usize = 0;
    while at < keys.len()
        invariant
            at <= keys@.len(),
            forall|i: int, j: int| 0 <= i < j < at ==> keys@[i] != keys@[j],
        decreases keys@.len() - at,
    {
        let mut earlier: usize = 0;
        while earlier < at
            invariant
                earlier <= at < keys@.len(),
                forall|i: int| 0 <= i < earlier ==> keys@[i] != keys@[at as int],
            decreases at - earlier,
        {
            if keys[earlier].0 == keys[at].0 {
                assert(keys@[earlier as int] == keys@[at as int]);
                return false;
            }
            earlier = earlier + 1;
        }
        at = at + 1;
    }
    true
}

impl Clone for IndexConfig {
    fn clone(&self) -> (res: Self)
        ensures
            res@ == self@,
    {
        let mut fields: Vec<FieldSchema> = Vec::new();
        let mut at: usize = 0;
        while at < self.fields.len()
            invariant
                at <= self.fields@.len(),
                fields@.len() == at,
                forall|i: int| 0 <= i < at ==> fields@[i] == self.fields@[i],
            decreases self.fields@.len() - at,
        {
            fields.push(self.fields[at].clone());
            at = at + 1;
        }
        let mut tree_key_fields: Vec<FieldId> = Vec::new();
        at = 0;
        while at < self.tree_key_fields.len()
            invariant
                at <= self.tree_key_fields@.len(),
                tree_key_fields@.len() == at,
                forall|i: int| 0 <= i < at ==> tree_key_fields@[i] == self.tree_key_fields@[i],
            decreases self.tree_key_fields@.len() - at,
        {
            tree_key_fields.push(self.tree_key_fields[at]);
            at = at + 1;
        }
        assert(fields@ =~= self.fields@);
        assert(tree_key_fields@ =~= self.tree_key_fields@);
        IndexConfig {
            dimension: self.dimension,
            metric: self.metric,
            fields,
            tree_key_fields,
            min_partition_entries: self.min_partition_entries,
            max_partition_entries: self.max_partition_entries,
        }
    }
}

impl IndexConfig {
    /// Creates a configuration without fields, with 16 to 128 entries per
    /// partition.
    pub fn new(dimension: usize, metric: Metric) -> (res: Result<Self>)
        ensures
            match res {
                Ok(config) => {
                    &&& 1 <= dimension <= MAX_DIMENSION
                    &&& config@ == (IndexConfigView {
                        dimension: dimension as int,
                        metric,
                        fields: Seq::empty(),
                        tree_key_fields: Seq::empty(),
                        min_partition_entries: DEFAULT_MIN_PARTITION_ENTRIES,
                        max_partition_entries: DEFAULT_MAX_PARTITION_ENTRIES,
                    })
                    &&& config@.valid()
                },
                Err(error) => !(1 <= dimension <= MAX_DIMENSION) && error == plain_error(
                    ErrorKind::InvalidArgument,
                ),
            },
    {
        let config = IndexConfig {
            dimension,
            metric,
            fields: Vec::new(),
            tree_key_fields: Vec::new(),
            min_partition_entries: DEFAULT_MIN_PARTITION_ENTRIES,
            max_partition_entries: DEFAULT_MAX_PARTITION_ENTRIES,
        };
        assert(config@.fields =~= Seq::empty());
        assert(config@.tree_key_fields =~= Seq::empty());
        config.validate()?;
        Ok(config)
    }

    /// Sets the ordered Vector Record schema.
    pub fn with_fields(self, fields: Vec<FieldSchema>) -> (res: Result<Self>)
        ensures
            match res {
                Ok(config) => valid_schema(schema_view(fields@)) && config@ == (IndexConfigView {
                    fields: schema_view(fields@),
                    ..self@
                }),
                Err(error) => !valid_schema(schema_view(fields@)) && error == plain_error(
                    ErrorKind::InvalidArgument,
                ),
            },
    {
        let config = IndexConfig {
            dimension: self.dimension,
            metric: self.metric,
            fields,
            tree_key_fields: self.tree_key_fields,
            min_partition_entries: self.min_partition_entries,
            max_partition_entries: self.max_partition_entries,
        };
        config.validate_schema()?;
        Ok(config)
    }

    /// Sets the ordered unique Tree Key fields. That they are non-null fields
    /// of the schema is checked by [`IndexConfig::validate`].
    pub fn with_tree_key_fields(self, fields: Vec<FieldId>) -> (res: Result<Self>)
        ensures
            match res {
                Ok(config) => fields@.no_duplicates() && config@ == (IndexConfigView {
                    tree_key_fields: fields@,
                    ..self@
                }),
                Err(error) => !fields@.no_duplicates() && error == plain_error(
                    ErrorKind::InvalidArgument,
                ),
            },
    {
        if !distinct_fields(&fields) {
            return Err(Error::invalid_argument());
        }
        Ok(
            IndexConfig {
                dimension: self.dimension,
                metric: self.metric,
                fields: self.fields,
                tree_key_fields: fields,
                min_partition_entries: self.min_partition_entries,
                max_partition_entries: self.max_partition_entries,
            },
        )
    }

    /// Sets the minimum and maximum partition entry counts.
    pub fn with_partition_entries(self, minimum: u32, maximum: u32) -> (res: Result<Self>)
        ensures
            match res {
                Ok(config) => valid_partition_entries(minimum, maximum) && config@ == (
                IndexConfigView {
                    min_partition_entries: minimum,
                    max_partition_entries: maximum,
                    ..self@
                }),
                Err(error) => !valid_partition_entries(minimum, maximum) && error == plain_error(
                    ErrorKind::InvalidArgument,
                ),
            },
    {
        let mut config = self;
        config.min_partition_entries = minimum;
        config.max_partition_entries = maximum;
        config.validate_partition_entries()?;
        Ok(config)
    }

    /// Validates every limit of the configuration.
    pub fn validate(&self) -> (res: Result<()>)
        ensures
            res is Ok <==> self@.valid(),
            res matches Err(error) ==> error == plain_error(ErrorKind::InvalidArgument),
    {
        if self.dimension == 0 || self.dimension > MAX_DIMENSION {
            return Err(Error::invalid_argument());
        }
        self.validate_schema()?;
        self.validate_tree_key_fields()?;
        self.validate_partition_entries()
    }

    fn validate_schema(&self) -> (res: Result<()>)
        ensures
            res is Ok <==> valid_schema(self@.fields),
            res matches Err(error) ==> error == plain_error(ErrorKind::InvalidArgument),
    {
        let ghost view = self@.fields;
        if self.fields.len() > MAX_FIELDS {
            return Err(Error::invalid_argument());
        }
        let mut bloom_fields: usize = 0;
        let mut encoded: usize = 0;
        let mut at: usize = 0;
        while at < self.fields.len()
            invariant
                view == self@.fields,
                view == schema_view(self.fields@),
                at <= self.fields@.len() <= MAX_FIELDS,
                forall|i: int, j: int|
                    0 <= i < j < at ==> #[trigger] view[i].name != #[trigger] view[j].name,
                forall|i: int|
                    0 <= i < at ==> (#[trigger] view[i]).synopsis.valid()
                        && view[i].synopsis.bloom_fits(),
                bloom_fields == bloom_count(view, at as nat),
                bloom_fields <= at,
                encoded == synopsis_total(view, at as nat),
                encoded <= MAX_ENCODED_SYNOPSIS_BYTES,
            decreases self.fields@.len() - at,
        {
            let field = &self.fields[at];
            assert(view[at as int] == field@);
            if repeats_name(&self.fields, at) {
                proof {
                    let i = choose|i: int|
                        0 <= i < at && (#[trigger] self.fields@[i])@.name
                            == self.fields@[at as int]@.name;
                    assert(view[i].name == view[at as int].name);
                }
                return Err(Error::invalid_argument());
            }
            assert forall|i: int, j: int| 0 <= i < j < at + 1 implies #[trigger] view[i].name
                != #[trigger] view[j].name by {
                if j == at {
                    assert(self.fields@[i]@.name != self.fields@[at as int]@.name);
                }
            }
            let bloom: usize = match field.synopsis().bloom_bytes() {
                Ok(bytes) => bytes,
                Err(error) => {
                    return Err(error);
                },
            };
            if matches!(field.synopsis(), SynopsisConfig::MinMaxBloom { .. }) {
                bloom_fields = bloom_fields + 1;
            }
            let value: usize = match field.data_type() {
                DataType::String => MAX_STRING_BYTES + 5,
                DataType::Bool => 2,
                DataType::I64 => 9,
                DataType::F64 => 9,
            };
            proof {
                synopsis_total_grows(view, (at + 1) as nat, view.len());
            }
            if bloom > MAX_ENCODED_SYNOPSIS_BYTES {
                return Err(Error::invalid_argument());
            }
            encoded = encoded + (2 + 2 * value + bloom);
            if encoded > MAX_ENCODED_SYNOPSIS_BYTES {
                return Err(Error::invalid_argument());
            }
            at = at + 1;
        }
        if bloom_fields > MAX_BLOOM_FIELDS {
            return Err(Error::invalid_argument());
        }
        Ok(())
    }

    fn validate_tree_key_fields(&self) -> (res: Result<()>)
        ensures
            res is Ok <==> valid_tree_key(self@.tree_key_fields, self@.fields),
            res matches Err(error) ==> error == plain_error(ErrorKind::InvalidArgument),
    {
        let ghost keys = self@.tree_key_fields;
        let ghost view = self@.fields;
        if !distinct_fields(&self.tree_key_fields) {
            return Err(Error::invalid_argument());
        }
        let mut encoded: usize = 0;
        let mut at: usize = 0;
        while at < self.tree_key_fields.len()
            invariant
                keys == self@.tree_key_fields,
                keys == self.tree_key_fields@,
                view == self@.fields,
                view == schema_view(self.fields@),
                at <= keys.len(),
                forall|i: int|
                    0 <= i < at ==> (#[trigger] keys[i]).0 < view.len()
                        && !view[keys[i].0 as int].nullable,
                encoded == tree_key_total(keys, view, at as nat),
                encoded <= MAX_TREE_KEY_BYTES,
            decreases keys.len() - at,
        {
            let position: usize = self.tree_key_fields[at].0 as usize;
            assert(keys[at as int].0 == position);
            if position >= self.fields.len() {
                return Err(Error::invalid_argument());
            }
            let field = &self.fields[position];
            assert(view[position as int] == field@);
            if field.is_nullable() {
                return Err(Error::invalid_argument());
            }
            let value: usize = match field.data_type() {
                DataType::String => 2 * MAX_STRING_BYTES + 2,
                DataType::Bool => 3,
                DataType::I64 => 10,
                DataType::F64 => 10,
            };
            proof {
                tree_key_total_grows(keys, view, (at + 1) as nat, keys.len());
            }
            encoded = encoded + value;
            if encoded > MAX_TREE_KEY_BYTES {
                return Err(Error::invalid_argument());
            }
            at = at + 1;
        }
        Ok(())
    }

    fn validate_partition_entries(&self) -> (res: Result<()>)
        ensures
            res is Ok <==> valid_partition_entries(
                self@.min_partition_entries,
                self@.max_partition_entries,
            ),
            res matches Err(error) ==> error == plain_error(ErrorKind::InvalidArgument),
    {
        let twice: u32 = match self.min_partition_entries.checked_mul(2) {
            Some(twice) => twice,
            None => {
                return Err(Error::invalid_argument());
            },
        };
        if self.min_partition_entries == 0 || twice > self.max_partition_entries
            || self.max_partition_entries > MAX_PARTITION_ENTRIES {
            return Err(Error::invalid_argument());
        }
        Ok(())
    }

    /// Returns the vector dimension.
    pub fn dimension(&self) -> (res: usize)
        ensures
            res == self@.dimension,
    {
        self.dimension
    }

    /// Returns the distance metric.
    pub fn metric(&self) -> (res: Metric)
        ensures
            res == self@.metric,
    {
        self.metric
    }

    /// Returns the ordered Vector Record schema.
    pub fn fields(&self) -> (res: &Vec<FieldSchema>)
        ensures
            schema_view(res@) == self@.fields,
    {
        &self.fields
    }

    /// Returns the ordered Tree Key fields.
    pub fn tree_key_fields(&self) -> (res: &Vec<FieldId>)
        ensures
            res@ == self@.tree_key_fields,
    {
        &self.tree_key_fields
    }

    /// Returns the minimum partition entry count.
    pub fn min_partition_entries(&self) -> (res: u32)
        ensures
            res == self@.min_partition_entries,
    {
        self.min_partition_entries
    }

    /// Returns the maximum partition entry count.
    pub fn max_partition_entries(&self) -> (res: u32)
        ensures
            res == self@.max_partition_entries,
    {
        self.max_partition_entries
    }

    /// Returns whether two configurations are equal.
    pub fn same(&self, other: &IndexConfig) -> (res: bool)
        ensures
            res == self@.agrees(other@),
    {
        if self.dimension != other.dimension || self.metric != other.metric
            || self.min_partition_entries != other.min_partition_entries
            || self.max_partition_entries != other.max_partition_entries || self.fields.len()
            != other.fields.len() || self.tree_key_fields.len() != other.tree_key_fields.len() {
            assert(self@.fields.len() == self.fields@.len());
            assert(other@.fields.len() == other.fields@.len());
            return false;
        }
        let mut at: usize = 0;
        while at < self.fields.len()
            invariant
                at <= self.fields@.len(),
                self.fields@.len() == other.fields@.len(),
                forall|i: int|
                    0 <= i < at ==> (#[trigger] self.fields@[i])@.agrees(other.fields@[i]@),
            decreases self.fields@.len() - at,
        {
            if !self.fields[at].same(&other.fields[at]) {
                assert(!self@.fields[at as int].agrees(other@.fields[at as int]));
                return false;
            }
            at = at + 1;
        }
        at = 0;
        while at < self.tree_key_fields.len()
            invariant
                at <= self.tree_key_fields@.len(),
                self.tree_key_fields@.len() == other.tree_key_fields@.len(),
                forall|i: int|
                    0 <= i < at ==> self.tree_key_fields@[i] == other.tree_key_fields@[i],
            decreases self.tree_key_fields@.len() - at,
        {
            if self.tree_key_fields[at].0 != other.tree_key_fields[at].0 {
                assert(self@.tree_key_fields[at as int] != other@.tree_key_fields[at as int]);
                return false;
            }
            at = at + 1;
        }
        assert(schemas_agree(self@.fields, other@.fields)) by {
            assert forall|i: int| 0 <= i < self@.fields.len() implies (
            #[trigger] self@.fields[i]).agrees(other@.fields[i]) by {
                assert(self.fields@[i]@.agrees(other.fields@[i]@));
            }
        }
        assert(self@.tree_key_fields =~= other@.tree_key_fields);
        true
    }
}

impl IndexConfigView {
    /// Whether two configurations are equal.
    pub open spec fn agrees(self, other: IndexConfigView) -> bool {
        &&& self.dimension == other.dimension
        &&& self.metric == other.metric
        &&& schemas_agree(self.fields, other.fields)
        &&& self.tree_key_fields == other.tree_key_fields
        &&& self.min_partition_entries == other.min_partition_entries
        &&& self.max_partition_entries == other.max_partition_entries
    }

    /// Whether every field's synopsis is within its limits.
    pub open spec fn legal_synopses(self) -> bool {
        forall|i: int| 0 <= i < self.fields.len() ==> (#[trigger] self.fields[i]).synopsis.valid()
    }
}

/// Process-local resource bounds of one Runtime.
#[derive(Clone, Copy, Debug, PartialEq, Eq, Structural)]
#[non_exhaustive]
pub struct RuntimeConfig {
    /// The bound for running and for waiting foreground operations.
    foreground_operation_limit: usize,
    /// The number of maintenance workers.
    maintenance_workers: usize,
    /// The pending plus running Fixup capacity.
    fixup_queue_capacity: usize,
    /// The whole-operation Fixup attempt limit.
    fixup_attempts: u32,
    /// The whole-operation Foreground Mutation attempt limit.
    foreground_attempts: u32,
    /// The decoded partition cache capacity in bytes; zero disables it.
    partition_cache_bytes: u64,
    /// The Search Budgets of a request without overrides.
    default_search_budgets: SearchBudgets,
    /// The bounded Tree Key range plan limit.
    tree_key_scan_ranges: u32,
    /// The leaf-level write beam.
    write_beam_size: u32,
    /// The Import Session concurrency ceiling.
    import_max_in_flight_batches: usize,
    /// The Fixup backlog below which import batches are admitted.
    import_backlog_watermark: usize,
    /// The Structure Maintenance stalled timeout override.
    stalled_timeout: Option<Duration>,
    /// The first retry backoff.
    retry_initial_backoff: Duration,
    /// The longest retry backoff.
    retry_max_backoff: Duration,
}

/// The mathematical content of Runtime bounds.
pub ghost struct RuntimeConfigView {
    /// The bound for running and for waiting foreground operations.
    pub foreground_operation_limit: usize,
    /// The number of maintenance workers.
    pub maintenance_workers: usize,
    /// The pending plus running Fixup capacity.
    pub fixup_queue_capacity: usize,
    /// The whole-operation Fixup attempt limit.
    pub fixup_attempts: u32,
    /// The whole-operation Foreground Mutation attempt limit.
    pub foreground_attempts: u32,
    /// The decoded partition cache capacity in bytes; zero disables it.
    pub partition_cache_bytes: u64,
    /// The Search Budgets of a request without overrides.
    pub default_search_budgets: SearchBudgets,
    /// The bounded Tree Key range plan limit.
    pub tree_key_scan_ranges: u32,
    /// The leaf-level write beam.
    pub write_beam_size: u32,
    /// The Import Session concurrency ceiling.
    pub import_max_in_flight_batches: usize,
    /// The Fixup backlog below which import batches are admitted.
    pub import_backlog_watermark: usize,
    /// The Structure Maintenance stalled timeout override.
    pub stalled_timeout: Option<Duration>,
    /// The first retry backoff.
    pub retry_initial_backoff: Duration,
    /// The longest retry backoff.
    pub retry_max_backoff: Duration,
}

impl RuntimeConfigView {
    /// Whether every process-local resource bound is acceptable.
    pub open spec fn valid(self) -> bool {
        &&& 1 <= self.foreground_operation_limit <= MAX_FOREGROUND_OPERATION_LIMIT
        &&& self.fixup_queue_capacity > 0
        &&& self.maintenance_workers <= self.fixup_queue_capacity
        &&& self.fixup_attempts > 0
        &&& self.foreground_attempts > 0
        &&& self.partition_cache_bytes <= usize::MAX
        &&& self.default_search_budgets.within_hard_caps()
        &&& self.tree_key_scan_ranges > 0
        &&& 1 <= self.write_beam_size <= MAX_WRITE_BEAM_SIZE
        &&& self.import_max_in_flight_batches > 0
        &&& self.import_backlog_watermark <= self.fixup_queue_capacity
        &&& 0 < self.retry_initial_backoff@ <= self.retry_max_backoff@
    }
}

impl View for RuntimeConfig {
    type V = RuntimeConfigView;

    closed spec fn view(&self) -> RuntimeConfigView {
        RuntimeConfigView {
            foreground_operation_limit: self.foreground_operation_limit,
            maintenance_workers: self.maintenance_workers,
            fixup_queue_capacity: self.fixup_queue_capacity,
            fixup_attempts: self.fixup_attempts,
            foreground_attempts: self.foreground_attempts,
            partition_cache_bytes: self.partition_cache_bytes,
            default_search_budgets: self.default_search_budgets,
            tree_key_scan_ranges: self.tree_key_scan_ranges,
            write_beam_size: self.write_beam_size,
            import_max_in_flight_batches: self.import_max_in_flight_batches,
            import_backlog_watermark: self.import_backlog_watermark,
            stalled_timeout: self.stalled_timeout,
            retry_initial_backoff: self.retry_initial_backoff,
            retry_max_backoff: self.retry_max_backoff,
        }
    }
}

/// `value` limited to the range from `low` to `high`.
pub open spec fn clamped(value: usize, low: usize, high: usize) -> usize {
    if value < low {
        low
    } else if value > high {
        high
    } else {
        value
    }
}

fn clamp(value: usize, low: usize, high: usize) -> (res: usize)
    ensures
        res == clamped(value, low, high),
{
    if value < low {
        low
    } else if value > high {
        high
    } else {
        value
    }
}

impl RuntimeConfig {
    /// Whether every process-local resource bound is acceptable.
    pub open spec fn valid(self) -> bool {
        self@.valid()
    }

    /// The configuration of a machine with the given parallelism: one to eight
    /// maintenance workers and up to one to four concurrent import batches.
    pub fn for_parallelism(available: usize) -> (res: Self)
        ensures
            res@.foreground_operation_limit == DEFAULT_FOREGROUND_OPERATION_LIMIT,
            res@.maintenance_workers == clamped(available, 1, 8),
            res@.fixup_queue_capacity == DEFAULT_FIXUP_QUEUE_CAPACITY,
            res@.fixup_attempts == DEFAULT_ATTEMPTS,
            res@.foreground_attempts == DEFAULT_ATTEMPTS,
            res@.partition_cache_bytes == DEFAULT_PARTITION_CACHE_BYTES,
            res@.default_search_budgets@ == default_budgets(),
            res@.tree_key_scan_ranges == DEFAULT_TREE_KEY_SCAN_RANGES,
            res@.write_beam_size == DEFAULT_WRITE_BEAM_SIZE,
            res@.import_max_in_flight_batches == clamped(available, 1, 4),
            res@.import_backlog_watermark == 2,
            res@.stalled_timeout is None,
            res@.retry_initial_backoff@ == NANOS_PER_MILLI,
            res@.retry_max_backoff@ == 100 * NANOS_PER_MILLI,
            res.valid(),
    {
        RuntimeConfig {
            foreground_operation_limit: DEFAULT_FOREGROUND_OPERATION_LIMIT,
            maintenance_workers: clamp(available, 1, 8),
            fixup_queue_capacity: DEFAULT_FIXUP_QUEUE_CAPACITY,
            fixup_attempts: DEFAULT_ATTEMPTS,
            foreground_attempts: DEFAULT_ATTEMPTS,
            partition_cache_bytes: DEFAULT_PARTITION_CACHE_BYTES,
            default_search_budgets: SearchBudgets::default(),
            tree_key_scan_ranges: DEFAULT_TREE_KEY_SCAN_RANGES,
            write_beam_size: DEFAULT_WRITE_BEAM_SIZE,
            import_max_in_flight_batches: clamp(available, 1, 4),
            import_backlog_watermark: 2,
            stalled_timeout: None,
            retry_initial_backoff: Duration::from_millis(1),
            retry_max_backoff: Duration::from_millis(100),
        }
    }

    /// Sets equal bounds for running and waiting foreground operations.
    pub fn with_foreground_operation_limit(self, limit: usize) -> (res: Result<Self>)
        ensures
            match res {
                Ok(config) => 1 <= limit <= MAX_FOREGROUND_OPERATION_LIMIT && config@ == (
                RuntimeConfigView { foreground_operation_limit: limit, ..self@ }),
                Err(error) => !(1 <= limit <= MAX_FOREGROUND_OPERATION_LIMIT) && error
                    == plain_error(ErrorKind::InvalidArgument),
            },
    {
        if limit == 0 || limit > MAX_FOREGROUND_OPERATION_LIMIT {
            return Err(Error::invalid_argument());
        }
        let mut config = self;
        config.foreground_operation_limit = limit;
        Ok(config)
    }

    /// Sets maintenance worker and pending/running Fixup capacity. Zero
    /// workers disables background Structure Maintenance.
    pub fn with_maintenance(self, workers: usize, queue_capacity: usize) -> (res: Result<Self>)
        ensures
            match res {
                Ok(config) => queue_capacity > 0 && workers <= queue_capacity && config@ == (
                RuntimeConfigView {
                    maintenance_workers: workers,
                    fixup_queue_capacity: queue_capacity,
                    ..self@
                }),
                Err(error) => !(queue_capacity > 0 && workers <= queue_capacity) && error
                    == plain_error(ErrorKind::InvalidArgument),
            },
    {
        if queue_capacity == 0 || queue_capacity < workers {
            return Err(Error::invalid_argument());
        }
        let mut config = self;
        config.maintenance_workers = workers;
        config.fixup_queue_capacity = queue_capacity;
        Ok(config)
    }

    /// Sets whole-operation Fixup and Foreground Mutation attempt limits.
    pub fn with_attempts(self, fixup: u32, foreground: u32) -> (res: Result<Self>)
        ensures
            match res {
                Ok(config) => fixup > 0 && foreground > 0 && config@ == (RuntimeConfigView {
                    fixup_attempts: fixup,
                    foreground_attempts: foreground,
                    ..self@
                }),
                Err(error) => !(fixup > 0 && foreground > 0) && error == plain_error(
                    ErrorKind::InvalidArgument,
                ),
            },
    {
        if fixup == 0 || foreground == 0 {
            return Err(Error::invalid_argument());
        }
        let mut config = self;
        config.fixup_attempts = fixup;
        config.foreground_attempts = foreground;
        Ok(config)
    }

    /// Sets the decoded partition cache capacity in bytes; zero disables it.
    pub fn with_partition_cache_bytes(self, bytes: u64) -> (res: Result<Self>)
        ensures
            match res {
                Ok(config) => bytes <= usize::MAX && config@ == (RuntimeConfigView {
                    partition_cache_bytes: bytes,
                    ..self@
                }),
                Err(error) => bytes > usize::MAX && error == plain_error(
                    ErrorKind::InvalidArgument,
                ),
            },
    {
        if bytes > usize::MAX as u64 {
            return Err(Error::invalid_argument());
        }
        let mut config = self;
        config.partition_cache_bytes = bytes;
        Ok(config)
    }

    /// Sets default Search Budgets within the hard caps.
    pub fn with_default_search_budgets(self, budgets: SearchBudgets) -> (res: Result<Self>)
        ensures
            match res {
                Ok(config) => budgets.within_hard_caps() && config@ == (RuntimeConfigView {
                    default_search_budgets: budgets,
                    ..self@
                }),
                Err(error) => !budgets.within_hard_caps() && error == plain_error(
                    ErrorKind::InvalidArgument,
                ),
            },
    {
        budgets.validate_hard_caps()?;
        let mut config = self;
        config.default_search_budgets = budgets;
        Ok(config)
    }

    /// Sets the bounded Tree Key range plan limit.
    pub fn with_tree_key_scan_ranges(self, ranges: u32) -> (res: Result<Self>)
        ensures
            match res {
                Ok(config) => ranges > 0 && config@ == (RuntimeConfigView {
                    tree_key_scan_ranges: ranges,
                    ..self@
                }),
                Err(error) => ranges == 0 && error == plain_error(ErrorKind::InvalidArgument),
            },
    {
        if ranges == 0 {
            return Err(Error::invalid_argument());
        }
        let mut config = self;
        config.tree_key_scan_ranges = ranges;
        Ok(config)
    }

    /// Sets the per-level beam used when routing inserted and upserted
    /// records. A record is still committed to exactly one leaf.
    pub fn with_write_beam_size(self, beam: u32) -> (res: Result<Self>)
        ensures
            match res {
                Ok(config) => 1 <= beam <= MAX_WRITE_BEAM_SIZE && config@ == (RuntimeConfigView {
                    write_beam_size: beam,
                    ..self@
                }),
                Err(error) => !(1 <= beam <= MAX_WRITE_BEAM_SIZE) && error == plain_error(
                    ErrorKind::InvalidArgument,
                ),
            },
    {
        if beam == 0 || beam > MAX_WRITE_BEAM_SIZE {
            return Err(Error::invalid_argument());
        }
        let mut config = self;
        config.write_beam_size = beam;
        Ok(config)
    }

    /// Sets the Import Session concurrency ceiling and backlog admission
    /// bound. A zero watermark holds every non-empty batch.
    pub fn with_import_limits(self, in_flight: usize, backlog_watermark: usize) -> (res: Result<
        Self,
    >)
        ensures
            match res {
                Ok(config) => in_flight > 0 && config@ == (RuntimeConfigView {
                    import_max_in_flight_batches: in_flight,
                    import_backlog_watermark: backlog_watermark,
                    ..self@
                }),
                Err(error) => in_flight == 0 && error == plain_error(ErrorKind::InvalidArgument),
            },
    {
        if in_flight == 0 {
            return Err(Error::invalid_argument());
        }
        let mut config = self;
        config.import_max_in_flight_batches = in_flight;
        config.import_backlog_watermark = backlog_watermark;
        Ok(config)
    }

    /// Overrides the positive Structure Maintenance stalled timeout.
    pub fn with_stalled_timeout(self, timeout: Duration) -> (res: Result<Self>)
        ensures
            match res {
                Ok(config) => timeout@ > 0 && config@ == (RuntimeConfigView {
                    stalled_timeout: Some(timeout),
                    ..self@
                }),
                Err(error) => timeout@ == 0 && error == plain_error(ErrorKind::InvalidArgument),
            },
    {
        if timeout.is_zero() {
            return Err(Error::invalid_argument());
        }
        let mut config = self;
        config.stalled_timeout = Some(timeout);
        Ok(config)
    }

    /// Sets the inclusive retry backoff range.
    pub fn with_retry_backoff(self, initial: Duration, maximum: Duration) -> (res: Result<Self>)
        ensures
            match res {
                Ok(config) => 0 < initial@ <= maximum@ && config@ == (RuntimeConfigView {
                    retry_initial_backoff: initial,
                    retry_max_backoff: maximum,
                    ..self@
                }),
                Err(error) => !(0 < initial@ <= maximum@) && error == plain_error(
                    ErrorKind::InvalidArgument,
                ),
            },
    {
        if initial.is_zero() || initial.exceeds(maximum) {
            return Err(Error::invalid_argument());
        }
        let mut config = self;
        config.retry_initial_backoff = initial;
        config.retry_max_backoff = maximum;
        Ok(config)
    }

    /// Validates all process-local resource bounds.
    pub fn validate(&self) -> (res: Result<()>)
        ensures
            res is Ok <==> self.valid(),
            res matches Err(error) ==> error == plain_error(ErrorKind::InvalidArgument),
    {
        if self.foreground_operation_limit == 0 || self.foreground_operation_limit
            > MAX_FOREGROUND_OPERATION_LIMIT || self.fixup_queue_capacity == 0
            || self.fixup_queue_capacity < self.maintenance_workers || self.fixup_attempts == 0
            || self.foreground_attempts == 0 || self.partition_cache_bytes > usize::MAX as u64
            || self.tree_key_scan_ranges == 0 || self.write_beam_size == 0 || self.write_beam_size
            > MAX_WRITE_BEAM_SIZE || self.import_max_in_flight_batches == 0
            || self.import_backlog_watermark > self.fixup_queue_capacity
            || self.retry_initial_backoff.is_zero() || self.retry_initial_backoff.exceeds(
            self.retry_max_backoff,
        ) {
            return Err(Error::invalid_argument());
        }
        self.default_search_budgets.validate_hard_caps()
    }

    /// Returns each bound for running and waiting foreground operations.
    pub fn foreground_operation_limit(&self) -> (res: usize)
        ensures
            res == self@.foreground_operation_limit,
    {
        self.foreground_operation_limit
    }

    /// Returns the number of maintenance workers.
    pub fn maintenance_workers(&self) -> (res: usize)
        ensures
            res == self@.maintenance_workers,
    {
        self.maintenance_workers
    }

    /// Returns the pending plus running Fixup capacity.
    pub fn fixup_queue_capacity(&self) -> (res: usize)
        ensures
            res == self@.fixup_queue_capacity,
    {
        self.fixup_queue_capacity
    }

    /// Returns the whole-operation Fixup attempt limit.
    pub fn fixup_attempts(&self) -> (res: u32)
        ensures
            res == self@.fixup_attempts,
    {
        self.fixup_attempts
    }

    /// Returns the whole-operation Foreground Mutation attempt limit.
    pub fn foreground_attempts(&self) -> (res: u32)
        ensures
            res == self@.foreground_attempts,
    {
        self.foreground_attempts
    }

    /// Returns the decoded partition cache capacity in bytes.
    pub fn partition_cache_bytes(&self) -> (res: u64)
        ensures
            res == self@.partition_cache_bytes,
    {
        self.partition_cache_bytes
    }

    /// Returns the Search Budgets of a request without overrides.
    pub fn default_search_budgets(&self) -> (res: SearchBudgets)
        ensures
            res == self@.default_search_budgets,
    {
        self.default_search_budgets
    }

    /// Returns the bounded Tree Key range plan limit.
    pub fn tree_key_scan_ranges(&self) -> (res: u32)
        ensures
            res == self@.tree_key_scan_ranges,
    {
        self.tree_key_scan_ranges
    }

    /// Returns the leaf-level write beam.
    pub fn write_beam_size(&self) -> (res: u32)
        ensures
            res == self@.write_beam_size,
    {
        self.write_beam_size
    }

    /// Returns the Import Session concurrency ceiling.
    pub fn import_max_in_flight_batches(&self) -> (res: usize)
        ensures
            res == self@.import_max_in_flight_batches,
    {
        self.import_max_in_flight_batches
    }

    /// Returns the import backlog admission bound.
    pub fn import_backlog_watermark(&self) -> (res: usize)
        ensures
            res == self@.import_backlog_watermark,
    {
        self.import_backlog_watermark
    }

    /// The stalled timeout of an index, in nanoseconds: the override, or one
    /// second per 128 maximum entries but at least one millisecond.
    pub open spec fn stalled_nanos(self, max_partition_entries: u32) -> nat {
        match self@.stalled_timeout {
            Some(timeout) => timeout@,
            None => {
                let scaled = (NANOS_PER_SECOND * max_partition_entries / 128) as nat;
                if scaled < NANOS_PER_MILLI {
                    NANOS_PER_MILLI as nat
                } else {
                    scaled
                }
            },
        }
    }

    /// Resolves the stalled timeout for one Logical Index.
    pub fn stalled_timeout(&self, index: &IndexConfig) -> (res: Result<Duration>)
        ensures
            res matches Ok(timeout) && timeout@ == self.stalled_nanos(index@.max_partition_entries),
    {
        if let Some(timeout) = self.stalled_timeout {
            return Ok(timeout);
        }
        let entries: u64 = index.max_partition_entries as u64;
        let scaled: u64 = 1_000_000_000 * entries / 128;
        if scaled < 1_000_000 {
            Ok(Duration::from_millis(1))
        } else {
            Ok(Duration::from_nanos(scaled))
        }
    }

    /// Returns the first retry backoff.
    pub fn retry_initial_backoff(&self) -> (res: Duration)
        ensures
            res == self@.retry_initial_backoff,
    {
        self.retry_initial_backoff
    }

    /// Returns the longest retry backoff.
    pub fn retry_max_backoff(&self) -> (res: Duration)
        ensures
            res == self@.retry_max_backoff,
    {
        self.retry_max_backoff
    }
}

} // verus!
