//! Vector Record schema and Filter Predicate values.

use vstd::prelude::*;

use super::error::{plain_error, Error, ErrorKind, Result};
use super::identifiers::{byte_len, byte_length, FieldId};
use super::number::{Float64, ONE_64, SIGN_64};

verus! {

/// The most fields one Vector Record schema holds.
pub const MAX_FIELDS: usize = 16;

/// The longest string field value, in UTF-8 bytes.
pub const MAX_STRING_BYTES: usize = 1_024;

/// The longest field name, in UTF-8 bytes.
pub const MAX_FIELD_NAME_BYTES: usize = 255;

/// The most nodes one Filter Predicate holds.
pub const MAX_PREDICATE_NODES: usize = 1_024;

/// The deepest Filter Predicate nesting.
pub const MAX_PREDICATE_DEPTH: usize = 64;

/// The most values one membership test lists.
pub const MAX_IN_VALUES: usize = 1_024;

/// The largest conservative encoded Partition Synopsis.
pub const MAX_ENCODED_SYNOPSIS_BYTES: usize = 65_536;

/// The exact distance metric used by one Logical Index.
#[derive(Clone, Copy, Debug, PartialEq, Eq, Structural)]
#[non_exhaustive]
pub enum Metric {
    /// Squared Euclidean distance.
    L2,
    /// Cosine distance.
    Cosine,
    /// Negative inner product, where a smaller value ranks first.
    InnerProduct,
}

/// A typed field's value domain.
#[derive(Clone, Copy, Debug, PartialEq, Eq, Structural)]
#[non_exhaustive]
pub enum DataType {
    /// Boolean values.
    Bool,
    /// Signed 64-bit integer values.
    I64,
    /// Finite 64-bit floating-point values.
    F64,
    /// UTF-8 strings of at most 1 KiB.
    String,
}

/// The conservative Partition Synopsis maintained for a field.
#[derive(Clone, Copy, Debug)]
#[non_exhaustive]
pub enum SynopsisConfig {
    /// Exact NULL-presence flags and non-NULL minimum/maximum values.
    MinMax,
    /// `MinMax` plus a fixed-size Bloom summary for equality and `IN` pruning.
    MinMaxBloom {
        /// Expected number of distinct non-NULL values in one partition; at
        /// least one.
        expected_distinct: u32,
        /// Desired Bloom false-positive rate in the open interval `(0, 1)`.
        false_positive_rate: Float64,
        /// The floating-point evaluation of
        /// `-(expected_distinct * ln(false_positive_rate)) / ln(2)^2`.
        ideal_bits: Float64,
    },
}

impl PartialEq for SynopsisConfig {
    fn eq(&self, other: &Self) -> (res: bool) {
        self.same(other)
    }
}

impl vstd::std_specs::cmp::PartialEqSpecImpl for SynopsisConfig {
    open spec fn obeys_eq_spec() -> bool {
        true
    }

    open spec fn eq_spec(&self, other: &Self) -> bool {
        self.agrees(*other)
    }
}

impl SynopsisConfig {
    /// Whether the configuration is within its documented limits.
    pub open spec fn valid(self) -> bool {
        match self {
            SynopsisConfig::MinMax => true,
            SynopsisConfig::MinMaxBloom { expected_distinct, false_positive_rate, .. } => {
                &&& expected_distinct > 0
                &&& false_positive_rate.finite()
                &&& 0 < false_positive_rate.rank() < ONE_64
            },
        }
    }

    /// Whether two configurations are equal: the ideal size follows from the
    /// rest and does not count.
    pub open spec fn agrees(self, other: SynopsisConfig) -> bool {
        match (self, other) {
            (SynopsisConfig::MinMax, SynopsisConfig::MinMax) => true,
            (
                SynopsisConfig::MinMaxBloom { expected_distinct, false_positive_rate, .. },
                SynopsisConfig::MinMaxBloom {
                    expected_distinct: distinct,
                    false_positive_rate: rate,
                    ..
                },
            ) => expected_distinct == distinct && false_positive_rate.equals(rate),
            _ => false,
        }
    }

    /// Returns whether two configurations are equal.
    pub fn same(&self, other: &SynopsisConfig) -> (res: bool)
        ensures
            res == self.agrees(*other),
    {
        match (*self, *other) {
            (SynopsisConfig::MinMax, SynopsisConfig::MinMax) => true,
            (
                SynopsisConfig::MinMaxBloom { expected_distinct, false_positive_rate, .. },
                SynopsisConfig::MinMaxBloom {
                    expected_distinct: distinct,
                    false_positive_rate: rate,
                    ..
                },
            ) => expected_distinct == distinct && false_positive_rate.is_equal(rate),
            _ => false,
        }
    }

    /// Whether the configuration keeps a Bloom summary.
    pub open spec fn has_bloom(self) -> bool {
        self is MinMaxBloom
    }

    /// Accepts a configuration within its documented limits.
    pub fn validate(&self) -> (res: Result<()>)
        ensures
            res is Ok <==> self.valid(),
            res matches Err(error) ==> error == plain_error(ErrorKind::InvalidArgument),
    {
        match *self {
            SynopsisConfig::MinMax => Ok(()),
            SynopsisConfig::MinMaxBloom { expected_distinct, false_positive_rate, .. } => {
                if expected_distinct > 0 && false_positive_rate.bits > 0
                    && false_positive_rate.bits < ONE_64 {
                    Ok(())
                } else {
                    Err(Error::invalid_argument())
                }
            },
        }
    }

    /// Whether the ideal Bloom size is a nonnegative number below `2^64`
    /// whose integer ceiling leaves room to round up to whole bytes.
    pub open spec fn bloom_fits(self) -> bool {
        match self {
            SynopsisConfig::MinMax => true,
            SynopsisConfig::MinMaxBloom { ideal_bits, .. } => {
                &&& ideal_bits.finite()
                &&& ideal_bits.bits < SIGN_64
                &&& ideal_bits.exponent() < 1087
                &&& exists|bits: nat| #[trigger] ideal_bits.rounds_up_to(bits) && bits + 7
                    <= usize::MAX
            },
        }
    }

    /// The size of the Bloom summary in bytes: nothing without one, else the
    /// ideal size rounded up to whole bits and then to whole bytes.
    pub open spec fn bloom_size(self) -> nat {
        match self {
            SynopsisConfig::MinMax => 0,
            SynopsisConfig::MinMaxBloom { ideal_bits, .. } => {
                let bits = choose|bits: nat| #[trigger] ideal_bits.rounds_up_to(bits);
                (bits + 7) / 8
            },
        }
    }

    /// Returns the size of the Bloom summary in bytes.
    pub fn bloom_bytes(&self) -> (res: Result<usize>)
        ensures
            res is Ok <==> self.valid() && self.bloom_fits(),
            res matches Ok(bytes) ==> bytes == self.bloom_size(),
            res matches Err(error) ==> error == plain_error(ErrorKind::InvalidArgument),
    {
        self.validate()?;
        match *self {
            SynopsisConfig::MinMax => Ok(0),
            SynopsisConfig::MinMaxBloom { ideal_bits, .. } => {
                if ideal_bits.bits >= SIGN_64 || !ideal_bits.is_finite() {
                    return Err(Error::invalid_argument());
                }
                match ideal_bits.ceil() {
                    None => Err(Error::invalid_argument()),
                    Some(bits) => {
                        proof {
                            ceiling_is_unique(ideal_bits);
                        }
                        if bits > (usize::MAX - 7) as u64 {
                            return Err(Error::invalid_argument());
                        }
                        let whole: usize = bits as usize;
                        Ok((whole + 7) / 8)
                    },
                }
            },
        }
    }
}

/// A nonnegative finite number has at most one integer ceiling.
pub proof fn ceiling_is_unique(value: Float64)
    ensures
        forall|a: nat, b: nat| #[trigger]
            value.rounds_up_to(a) && #[trigger] value.rounds_up_to(b) ==> a == b,
{
    assert forall|a: nat, b: nat| #[trigger]
        value.rounds_up_to(a) && #[trigger] value.rounds_up_to(b) implies a == b by {
        let exponent = if value.exponent() == 0 {
            1
        } else {
            value.exponent()
        };
        if exponent < 1075 {
            let unit = vstd::arithmetic::power2::pow2((1075 - exponent) as nat);
            vstd::arithmetic::power2::lemma_pow2_pos((1075 - exponent) as nat);
            let s = value.significand();
            assert(a <= b) by (nonlinear_arith)
                requires
                    unit > 0,
                    a >= 1 ==> (a - 1) * unit < s,
                    b * unit >= s,
            ;
            assert(b <= a) by (nonlinear_arith)
                requires
                    unit > 0,
                    b >= 1 ==> (b - 1) * unit < s,
                    a * unit >= s,
            ;
        }
    }
}

/// A typed Vector Record field value.
#[non_exhaustive]
pub enum Value {
    /// SQL `NULL`.
    Null,
    /// A Boolean value.
    Bool(bool),
    /// A signed 64-bit integer value.
    I64(i64),
    /// A finite 64-bit floating-point value.
    F64(Float64),
    /// An unnormalized UTF-8 string.
    String(String),
}

/// The mathematical content of a [`Value`].
pub enum ValueView {
    /// SQL `NULL`.
    Null,
    /// A Boolean value.
    Bool(bool),
    /// A signed integer value.
    I64(i64),
    /// A floating-point value.
    F64(Float64),
    /// The characters of a string.
    String(Seq<char>),
}

impl View for Value {
    type V = ValueView;

    open spec fn view(&self) -> ValueView {
        match self {
            Value::Null => ValueView::Null,
            Value::Bool(value) => ValueView::Bool(*value),
            Value::I64(value) => ValueView::I64(*value),
            Value::F64(value) => ValueView::F64(*value),
            Value::String(value) => ValueView::String(value@),
        }
    }
}

impl ValueView {
    /// The value with negative zero replaced by positive zero.
    pub open spec fn canonical(self) -> ValueView {
        match self {
            ValueView::F64(value) => ValueView::F64(value.canonical()),
            _ => self,
        }
    }

    /// Whether two values are equal: numbers compare as numbers, so the two
    /// zeros are equal and NaN equals nothing.
    pub open spec fn agrees(self, other: ValueView) -> bool {
        match (self, other) {
            (ValueView::F64(a), ValueView::F64(b)) => a.equals(b),
            _ => self == other,
        }
    }

    /// Whether the value belongs to a field of the given domain.
    pub open spec fn fits(self, data_type: DataType, nullable: bool) -> bool {
        match self {
            ValueView::Null => nullable,
            ValueView::Bool(_) => data_type == DataType::Bool,
            ValueView::I64(_) => data_type == DataType::I64,
            ValueView::F64(value) => data_type == DataType::F64 && value.finite(),
            ValueView::String(text) => data_type == DataType::String && byte_len(text)
                <= MAX_STRING_BYTES,
        }
    }
}

impl Clone for Value {
    fn clone(&self) -> (res: Self)
        ensures
            res@ == self@,
            res == *self,
    {
        match self {
            Value::Null => Value::Null,
            Value::Bool(value) => Value::Bool(*value),
            Value::I64(value) => Value::I64(*value),
            Value::F64(value) => Value::F64(*value),
            Value::String(value) => Value::String(value.clone()),
        }
    }
}

impl Value {
    /// Constructs a finite floating-point value and canonicalizes negative
    /// zero.
    pub fn float(value: Float64) -> (res: Result<Self>)
        ensures
            match res {
                Ok(field) => value.finite() && field@ == ValueView::F64(value.canonical()),
                Err(error) => !value.finite() && error == plain_error(ErrorKind::InvalidArgument),
            },
    {
        if !value.is_finite() {
            return Err(Error::invalid_argument());
        }
        Ok(Value::F64(value.canonicalize()))
    }

    /// Constructs a string value within the size limit.
    pub fn string(value: String) -> (res: Result<Self>)
        ensures
            match res {
                Ok(field) => byte_len(value@) <= MAX_STRING_BYTES && field@ == ValueView::String(
                    value@,
                ),
                Err(error) => byte_len(value@) > MAX_STRING_BYTES && error == plain_error(
                    ErrorKind::InvalidArgument,
                ),
            },
    {
        if byte_length(&value) > MAX_STRING_BYTES {
            return Err(Error::invalid_argument());
        }
        Ok(Value::String(value))
    }

    /// Accepts a value of the field's domain, canonicalizing negative zero. A
    /// refused value is left unchanged.
    pub fn validate_for(&mut self, data_type: DataType, nullable: bool) -> (res: Result<()>)
        ensures
            res is Ok <==> old(self)@.fits(data_type, nullable),
            res is Ok ==> final(self)@ == old(self)@.canonical(),
            res matches Err(error) ==> error == plain_error(ErrorKind::InvalidArgument)
                && *final(self) == *old(self),
    {
        let mut canonical: Option<Float64> = None;
        let accepted = match &*self {
            Value::Null => nullable,
            Value::Bool(_) => data_type == DataType::Bool,
            Value::I64(_) => data_type == DataType::I64,
            Value::F64(value) => {
                if data_type == DataType::F64 && value.is_finite() {
                    canonical = Some(value.canonicalize());
                    true
                } else {
                    false
                }
            },
            Value::String(value) => data_type == DataType::String && byte_length(value)
                <= MAX_STRING_BYTES,
        };
        if !accepted {
            return Err(Error::invalid_argument());
        }
        if let Some(value) = canonical {
            *self = Value::F64(value);
        }
        Ok(())
    }

    /// Returns whether the value is SQL `NULL`.
    pub fn is_null(&self) -> (res: bool)
        ensures
            res == (self@ == ValueView::Null),
    {
        matches!(self, Value::Null)
    }

    /// Returns whether two values are equal.
    pub fn same(&self, other: &Value) -> (res: bool)
        ensures
            res == self@.agrees(other@),
    {
        match (self, other) {
            (Value::Null, Value::Null) => true,
            (Value::Bool(a), Value::Bool(b)) => *a == *b,
            (Value::I64(a), Value::I64(b)) => *a == *b,
            (Value::F64(a), Value::F64(b)) => a.is_equal(*b),
            (Value::String(a), Value::String(b)) => *a == *b,
            _ => false,
        }
    }
}

/// The schema of one positional Vector Record field.
pub struct FieldSchema {
    name: String,
    data_type: DataType,
    nullable: bool,
    synopsis: SynopsisConfig,
}

/// The mathematical content of a [`FieldSchema`].
pub struct FieldSchemaView {
    /// The original, unnormalized field name.
    pub name: Seq<char>,
    /// The value domain.
    pub data_type: DataType,
    /// Whether `NULL` is accepted.
    pub nullable: bool,
    /// The Partition Synopsis configuration.
    pub synopsis: SynopsisConfig,
}

impl View for FieldSchema {
    type V = FieldSchemaView;

    closed spec fn view(&self) -> FieldSchemaView {
        FieldSchemaView {
            name: self.name@,
            data_type: self.data_type,
            nullable: self.nullable,
            synopsis: self.synopsis,
        }
    }
}

impl Clone for FieldSchema {
    fn clone(&self) -> (res: Self)
        ensures
            res == *self,
    {
        FieldSchema {
            name: self.name.clone(),
            data_type: self.data_type,
            nullable: self.nullable,
            synopsis: self.synopsis,
        }
    }
}

impl FieldSchema {
    /// Creates a non-null field with a `MinMax` Partition Synopsis. The name
    /// has 1 to 255 UTF-8 bytes.
    pub fn new(name: String, data_type: DataType) -> (res: Result<Self>)
        ensures
            match res {
                Ok(field) => 1 <= byte_len(name@) <= MAX_FIELD_NAME_BYTES && field@ == (
                FieldSchemaView {
                    name: name@,
                    data_type,
                    nullable: false,
                    synopsis: SynopsisConfig::MinMax,
                }),
                Err(error) => !(1 <= byte_len(name@) <= MAX_FIELD_NAME_BYTES) && error
                    == plain_error(ErrorKind::InvalidArgument),
            },
    {
        let length: usize = byte_length(&name);
        if length == 0 || length > MAX_FIELD_NAME_BYTES {
            return Err(Error::invalid_argument());
        }
        Ok(FieldSchema { name, data_type, nullable: false, synopsis: SynopsisConfig::MinMax })
    }

    /// Allows this field to contain `NULL`.
    pub fn nullable(self) -> (res: Self)
        ensures
            res@ == (FieldSchemaView { nullable: true, ..self@ }),
    {
        let mut field = self;
        field.nullable = true;
        field
    }

    /// Configures the Partition Synopsis for this field.
    pub fn with_synopsis(self, synopsis: SynopsisConfig) -> (res: Result<Self>)
        ensures
            match res {
                Ok(field) => synopsis.valid() && field@ == (FieldSchemaView { synopsis, ..self@ }),
                Err(error) => !synopsis.valid() && error == plain_error(ErrorKind::InvalidArgument),
            },
    {
        synopsis.validate()?;
        let mut field = self;
        field.synopsis = synopsis;
        Ok(field)
    }

    /// Returns the original, unnormalized field name.
    pub fn name(&self) -> (res: &String)
        ensures
            res@ == self@.name,
    {
        &self.name
    }

    /// Returns the field's value domain.
    pub fn data_type(&self) -> (res: DataType)
        ensures
            res == self@.data_type,
    {
        self.data_type
    }

    /// Returns whether the field accepts `NULL`.
    pub fn is_nullable(&self) -> (res: bool)
        ensures
            res == self@.nullable,
    {
        self.nullable
    }

    /// Returns the field's Partition Synopsis configuration.
    pub fn synopsis(&self) -> (res: &SynopsisConfig)
        ensures
            *res == self@.synopsis,
    {
        &self.synopsis
    }

    /// Returns whether two field schemas are equal.
    pub fn same(&self, other: &FieldSchema) -> (res: bool)
        ensures
            res == self@.agrees(other@),
    {
        self.name == other.name && self.data_type == other.data_type && self.nullable
            == other.nullable && self.synopsis.same(&other.synopsis)
    }
}

impl FieldSchemaView {
    /// Whether two field schemas are equal.
    pub open spec fn agrees(self, other: FieldSchemaView) -> bool {
        &&& self.name == other.name
        &&& self.data_type == other.data_type
        &&& self.nullable == other.nullable
        &&& self.synopsis.agrees(other.synopsis)
    }
}

/// Whether two schemas are equal, field by field.
pub open spec fn schemas_agree(a: Seq<FieldSchemaView>, b: Seq<FieldSchemaView>) -> bool {
    a.len() == b.len() && forall|i: int| 0 <= i < a.len() ==> (#[trigger] a[i]).agrees(b[i])
}

/// Equality of values, and of schemas with legal synopses, is symmetric, and a
/// finite value or a legal schema equals itself.
pub proof fn equality_is_sound(a: ValueView, b: ValueView, fields: Seq<FieldSchemaView>)
    ensures
        a.agrees(b) == b.agrees(a),
        (a matches ValueView::F64(value) ==> value.finite()) ==> a.agrees(a),
        (forall|i: int| 0 <= i < fields.len() ==> (#[trigger] fields[i]).synopsis.valid())
            ==> schemas_agree(fields, fields),
{
}

/// The content of a schema.
pub open spec fn schema_view(fields: Seq<FieldSchema>) -> Seq<FieldSchemaView> {
    fields.map_values(|field: FieldSchema| field@)
}

/// A typed comparison operator.
#[derive(Clone, Copy, Debug, PartialEq, Eq, Structural)]
#[non_exhaustive]
pub enum CompareOp {
    /// Equal.
    Eq,
    /// Not equal.
    NotEq,
    /// Less than.
    Lt,
    /// Less than or equal.
    LessOrEqual,
    /// Greater than.
    Gt,
    /// Greater than or equal.
    GreaterOrEqual,
}

/// An exact typed Filter Predicate.
#[non_exhaustive]
pub enum Predicate {
    /// Logical conjunction. An empty conjunction is true.
    And(Vec<Predicate>),
    /// Logical disjunction. An empty disjunction is false.
    Or(Vec<Predicate>),
    /// Logical negation using SQL three-valued logic.
    Not(Box<Predicate>),
    /// Compares one field with a non-NULL typed value.
    Compare {
        /// Field position.
        field: FieldId,
        /// Comparison operator.
        op: CompareOp,
        /// Non-NULL comparison value.
        value: Value,
    },
    /// Tests membership in a list of non-NULL typed values.
    In {
        /// Field position.
        field: FieldId,
        /// Non-NULL values. An empty list is false.
        values: Vec<Value>,
    },
    /// Tests whether a field is `NULL`.
    IsNull(FieldId),
    /// Tests whether a field is not `NULL`.
    IsNotNull(FieldId),
}

/// The number of nodes of a predicate.
pub open spec fn node_count(predicate: Predicate) -> nat
    decreases predicate, 0nat,
{
    match predicate {
        Predicate::And(children) => 1 + node_sum(children@, children@.len()),
        Predicate::Or(children) => 1 + node_sum(children@, children@.len()),
        Predicate::Not(child) => 1 + node_count(*child),
        _ => 1,
    }
}

/// The number of nodes of the first `n` predicates.
pub open spec fn node_sum(children: Seq<Predicate>, n: nat) -> nat
    decreases children, n,
{
    if n == 0 || n > children.len() {
        0
    } else {
        node_sum(children, (n - 1) as nat) + node_count(children[n - 1])
    }
}

/// The nesting depth of a predicate.
pub open spec fn depth(predicate: Predicate) -> nat
    decreases predicate, 0nat,
{
    match predicate {
        Predicate::And(children) => 1 + depth_max(children@, children@.len()),
        Predicate::Or(children) => 1 + depth_max(children@, children@.len()),
        Predicate::Not(child) => 1 + depth(*child),
        _ => 1,
    }
}

/// The greatest nesting depth of the first `n` predicates.
pub open spec fn depth_max(children: Seq<Predicate>, n: nat) -> nat
    decreases children, n,
{
    if n == 0 || n > children.len() {
        0
    } else {
        let before = depth_max(children, (n - 1) as nat);
        let last = depth(children[n - 1]);
        if last > before {
            last
        } else {
            before
        }
    }
}

/// Whether a value can be compared with a field of the schema.
pub open spec fn comparable(
    value: ValueView,
    field: FieldId,
    fields: Seq<FieldSchemaView>,
) -> bool {
    &&& value != ValueView::Null
    &&& field.0 < fields.len()
    &&& value.fits(fields[field.0 as int].data_type, false)
}

/// Whether every field reference and value of a predicate fits the schema.
pub open spec fn leaves_fit(predicate: Predicate, fields: Seq<FieldSchemaView>) -> bool
    decreases predicate, 0nat,
{
    match predicate {
        Predicate::And(children) => children_fit(children@, children@.len(), fields),
        Predicate::Or(children) => children_fit(children@, children@.len(), fields),
        Predicate::Not(child) => leaves_fit(*child, fields),
        Predicate::Compare { field, value, .. } => comparable(value@, field, fields),
        Predicate::In { field, values } => {
            &&& values@.len() <= MAX_IN_VALUES
            &&& forall|i: int|
                0 <= i < values@.len() ==> comparable((#[trigger] values@[i])@, field, fields)
        },
        Predicate::IsNull(field) => field.0 < fields.len(),
        Predicate::IsNotNull(field) => field.0 < fields.len(),
    }
}

/// Whether the first `n` predicates fit the schema.
pub open spec fn children_fit(
    children: Seq<Predicate>,
    n: nat,
    fields: Seq<FieldSchemaView>,
) -> bool
    decreases children, n,
{
    n == 0 || n > children.len() || (children_fit(children, (n - 1) as nat, fields) && leaves_fit(
        children[n - 1],
        fields,
    ))
}

/// Whether a predicate is acceptable for a schema.
pub open spec fn valid_predicate(predicate: Predicate, fields: Seq<FieldSchemaView>) -> bool {
    &&& depth(predicate) <= MAX_PREDICATE_DEPTH
    &&& node_count(predicate) <= MAX_PREDICATE_NODES
    &&& leaves_fit(predicate, fields)
}

/// Whether two predicates are the same but for negative zeros that `new` has
/// made positive: all of them when `complete`, else any number of them.
pub open spec fn canonicalized(old: Predicate, new: Predicate, complete: bool) -> bool
    decreases old, 0nat,
{
    match (old, new) {
        (Predicate::And(before), Predicate::And(after)) => all_canonicalized(
            before@,
            after@,
            before@.len(),
            complete,
        ),
        (Predicate::Or(before), Predicate::Or(after)) => all_canonicalized(
            before@,
            after@,
            before@.len(),
            complete,
        ),
        (Predicate::Not(before), Predicate::Not(after)) => canonicalized(*before, *after, complete),
        (
            Predicate::Compare { field, op, value },
            Predicate::Compare { field: new_field, op: new_op, value: new_value },
        ) => {
            &&& field == new_field
            &&& op == new_op
            &&& value_canonicalized(value@, new_value@, complete)
        },
        (
            Predicate::In { field, values },
            Predicate::In { field: new_field, values: new_values },
        ) => {
            &&& field == new_field
            &&& values@.len() == new_values@.len()
            &&& forall|i: int|
                0 <= i < values@.len() ==> value_canonicalized(
                    values@[i]@,
                    (#[trigger] new_values@[i])@,
                    complete,
                )
        },
        (Predicate::IsNull(field), Predicate::IsNull(new_field)) => field == new_field,
        (Predicate::IsNotNull(field), Predicate::IsNotNull(new_field)) => field == new_field,
        _ => false,
    }
}

/// The same of the first `n` predicates of two lists of one length.
pub open spec fn all_canonicalized(
    old: Seq<Predicate>,
    new: Seq<Predicate>,
    n: nat,
    complete: bool,
) -> bool
    decreases old, n,
{
    &&& old.len() == new.len()
    &&& n == 0 || n > old.len() || (all_canonicalized(old, new, (n - 1) as nat, complete)
        && canonicalized(old[n - 1], new[n - 1], complete))
}

/// The same of one value.
pub open spec fn value_canonicalized(old: ValueView, new: ValueView, complete: bool) -> bool {
    new == old.canonical() || (!complete && new == old)
}

/// Every predicate is its own incomplete canonicalization.
pub proof fn canonicalized_reflexive(predicate: Predicate)
    ensures
        canonicalized(predicate, predicate, false),
    decreases predicate, 0nat,
{
    match predicate {
        Predicate::And(children) => {
            all_canonicalized_reflexive(children@, children@.len());
        },
        Predicate::Or(children) => {
            all_canonicalized_reflexive(children@, children@.len());
        },
        Predicate::Not(child) => {
            canonicalized_reflexive(*child);
        },
        _ => {},
    }
}

proof fn all_canonicalized_reflexive(children: Seq<Predicate>, n: nat)
    requires
        n <= children.len(),
    ensures
        all_canonicalized(children, children, n, false),
    decreases children, n,
{
    if n > 0 {
        all_canonicalized_reflexive(children, (n - 1) as nat);
        canonicalized_reflexive(children[n - 1]);
    }
}

/// Validation is idempotent: a predicate that was accepted and canonicalized
/// is accepted again, and is its own canonicalization.
pub proof fn validated_predicates_stay(
    predicate: Predicate,
    accepted: Predicate,
    fields: Seq<FieldSchemaView>,
)
    requires
        valid_predicate(predicate, fields),
        canonicalized(predicate, accepted, true),
    ensures
        valid_predicate(accepted, fields),
        canonicalized(accepted, accepted, true),
{
    canonicalizing_keeps_the_shape(predicate, accepted, fields);
}

proof fn canonicalizing_keeps_the_shape(
    old: Predicate,
    new: Predicate,
    fields: Seq<FieldSchemaView>,
)
    requires
        canonicalized(old, new, true),
    ensures
        node_count(new) == node_count(old),
        depth(new) == depth(old),
        leaves_fit(old, fields) ==> leaves_fit(new, fields),
        canonicalized(new, new, true),
    decreases old, 0nat,
{
    match (old, new) {
        (Predicate::And(before), Predicate::And(after)) => {
            canonicalizing_keeps_the_shapes(before@, after@, before@.len(), fields);
        },
        (Predicate::Or(before), Predicate::Or(after)) => {
            canonicalizing_keeps_the_shapes(before@, after@, before@.len(), fields);
        },
        (Predicate::Not(before), Predicate::Not(after)) => {
            canonicalizing_keeps_the_shape(*before, *after, fields);
        },
        _ => {},
    }
}

proof fn canonicalizing_keeps_the_shapes(
    old: Seq<Predicate>,
    new: Seq<Predicate>,
    n: nat,
    fields: Seq<FieldSchemaView>,
)
    requires
        n <= old.len(),
        all_canonicalized(old, new, n, true),
    ensures
        old.len() == new.len(),
        node_sum(new, n) == node_sum(old, n),
        depth_max(new, n) == depth_max(old, n),
        children_fit(old, n, fields) ==> children_fit(new, n, fields),
        all_canonicalized(new, new, n, true),
    decreases old, n,
{
    if n > 0 {
        canonicalizing_keeps_the_shapes(old, new, (n - 1) as nat, fields);
        canonicalizing_keeps_the_shape(old[n - 1], new[n - 1], fields);
    }
}

/// A complete canonicalization is in particular an incomplete one.
pub proof fn canonicalized_weaken(old: Predicate, new: Predicate)
    requires
        canonicalized(old, new, true),
    ensures
        canonicalized(old, new, false),
    decreases old, 0nat,
{
    match (old, new) {
        (Predicate::And(before), Predicate::And(after)) => {
            all_canonicalized_weaken(before@, after@, before@.len());
        },
        (Predicate::Or(before), Predicate::Or(after)) => {
            all_canonicalized_weaken(before@, after@, before@.len());
        },
        (Predicate::Not(before), Predicate::Not(after)) => {
            canonicalized_weaken(*before, *after);
        },
        _ => {},
    }
}

proof fn all_canonicalized_weaken(old: Seq<Predicate>, new: Seq<Predicate>, n: nat)
    requires
        n <= old.len(),
        all_canonicalized(old, new, n, true),
    ensures
        all_canonicalized(old, new, n, false),
    decreases old, n,
{
    if n > 0 {
        all_canonicalized_weaken(old, new, (n - 1) as nat);
        canonicalized_weaken(old[n - 1], new[n - 1]);
    }
}

/// Extends a prefix canonicalization over a list whose tail is untouched.
proof fn all_canonicalized_tail(old: Seq<Predicate>, new: Seq<Predicate>, from: nat, n: nat)
    requires
        from <= n <= old.len(),
        old.len() == new.len(),
        all_canonicalized(old, new, from, false),
        forall|i: int| from <= i < n ==> old[i] == new[i],
    ensures
        all_canonicalized(old, new, n, false),
    decreases n,
{
    if n > from {
        all_canonicalized_tail(old, new, from, (n - 1) as nat);
        canonicalized_reflexive(old[n - 1]);
    }
}

/// A prefix relation depends on the prefix of the new list alone.
proof fn all_canonicalized_prefix(
    old: Seq<Predicate>,
    new: Seq<Predicate>,
    other: Seq<Predicate>,
    n: nat,
    complete: bool,
)
    requires
        n <= old.len(),
        all_canonicalized(old, new, n, complete),
        other.len() == new.len(),
        forall|i: int| 0 <= i < n ==> new[i] == other[i],
    ensures
        all_canonicalized(old, other, n, complete),
    decreases n,
{
    if n > 0 {
        all_canonicalized_prefix(old, new, other, (n - 1) as nat, complete);
    }
}

/// Counts, depths and fits over a prefix are bounded by those over the whole.
proof fn prefix_bounds(
    children: Seq<Predicate>,
    n: nat,
    whole: nat,
    fields: Seq<FieldSchemaView>,
)
    requires
        n <= whole <= children.len(),
    ensures
        node_sum(children, n) <= node_sum(children, whole),
        depth_max(children, n) <= depth_max(children, whole),
        children_fit(children, whole, fields) ==> children_fit(children, n, fields),
    decreases whole - n,
{
    if n < whole {
        prefix_bounds(children, n, (whole - 1) as nat, fields);
    }
}

impl Predicate {
    /// Validates structure, field references, and typed values against a
    /// schema, canonicalizing negative zeros on success.
    pub fn validate(&mut self, fields: &Vec<FieldSchema>) -> (res: Result<()>)
        ensures
            res is Ok <==> valid_predicate(*old(self), schema_view(fields@)),
            res is Ok ==> canonicalized(*old(self), *final(self), true),
            res matches Err(error) ==> error == plain_error(ErrorKind::InvalidArgument),
            canonicalized(*old(self), *final(self), false),
    {
        let mut nodes: usize = 0;
        self.validate_at(fields, 1, &mut nodes)
    }

    fn validate_at(
        &mut self,
        fields: &Vec<FieldSchema>,
        level: usize,
        nodes: &mut usize,
    ) -> (res: Result<()>)
        requires
            1 <= level <= MAX_PREDICATE_DEPTH + 1,
            *old(nodes) <= MAX_PREDICATE_NODES,
        ensures
            res is Ok <==> {
                &&& level - 1 + depth(*old(self)) <= MAX_PREDICATE_DEPTH
                &&& *old(nodes) + node_count(*old(self)) <= MAX_PREDICATE_NODES
                &&& leaves_fit(*old(self), schema_view(fields@))
            },
            res is Ok ==> canonicalized(*old(self), *final(self), true) && *final(nodes) == *old(
                nodes,
            ) + node_count(*old(self)),
            res matches Err(error) ==> error == plain_error(ErrorKind::InvalidArgument),
            canonicalized(*old(self), *final(self), false),
        decreases *old(self), 0nat,
    {
        proof {
            canonicalized_reflexive(*self);
        }
        *nodes = *nodes + 1;
        if level > MAX_PREDICATE_DEPTH || *nodes > MAX_PREDICATE_NODES {
            return Err(Error::invalid_argument());
        }
        match self {
            Predicate::And(children) => validate_children(children, fields, level + 1, nodes),
            Predicate::Or(children) => validate_children(children, fields, level + 1, nodes),
            Predicate::Not(child) => {
                let res = child.validate_at(fields, level + 1, nodes);
                res
            },
            Predicate::Compare { field, value, .. } => {
                if value.is_null() {
                    return Err(Error::invalid_argument());
                }
                validate_predicate_value(*field, value, fields)
            },
            Predicate::In { field, values } => validate_members(*field, values, fields),
            Predicate::IsNull(field) => {
                if (field.0 as usize) < fields.len() {
                    Ok(())
                } else {
                    Err(Error::invalid_argument())
                }
            },
            Predicate::IsNotNull(field) => {
                if (field.0 as usize) < fields.len() {
                    Ok(())
                } else {
                    Err(Error::invalid_argument())
                }
            },
        }
    }
}

fn validate_children(
    children: &mut Vec<Predicate>,
    fields: &Vec<FieldSchema>,
    level: usize,
    nodes: &mut usize,
) -> (res: Result<()>)
    requires
        1 <= level <= MAX_PREDICATE_DEPTH + 1,
        *old(nodes) <= MAX_PREDICATE_NODES,
    ensures
        res is Ok <==> {
            &&& level - 1 + depth_max(old(children)@, old(children)@.len()) <= MAX_PREDICATE_DEPTH
            &&& *old(nodes) + node_sum(old(children)@, old(children)@.len())
                <= MAX_PREDICATE_NODES
            &&& children_fit(old(children)@, old(children)@.len(), schema_view(fields@))
        },
        res is Ok ==> all_canonicalized(
            old(children)@,
            final(children)@,
            old(children)@.len(),
            true,
        ) && *final(nodes) == *old(nodes) + node_sum(old(children)@, old(children)@.len()),
        res matches Err(error) ==> error == plain_error(ErrorKind::InvalidArgument),
        all_canonicalized(old(children)@, final(children)@, old(children)@.len(), false),
    decreases old(children)@, old(children)@.len(),
{
    let ghost before = children@;
    let ghost total = before.len();
    let mut at: usize = 0;
    while at < children.len()
        invariant
            at <= total,
            total == before.len(),
            before == old(children)@,
            children@.len() == total,
            1 <= level <= MAX_PREDICATE_DEPTH + 1,
            *old(nodes) <= MAX_PREDICATE_NODES,
            all_canonicalized(before, children@, at as nat, true),
            forall|i: int| at <= i < total ==> children@[i] == before[i],
            level - 1 + depth_max(before, at as nat) <= MAX_PREDICATE_DEPTH,
            *nodes == *old(nodes) + node_sum(before, at as nat),
            *nodes <= MAX_PREDICATE_NODES,
            children_fit(before, at as nat, schema_view(fields@)),
        decreases total - at,
    {
        let ghost now = children@;
        let child = &mut children[at];
        assert(decreases_to!(before => before[at as int]));
        let res = child.validate_at(fields, level, nodes);
        proof {
            let next = children@;
            assert(next.len() == total);
            assert(forall|i: int| 0 <= i < total && i != at ==> next[i] == now[i]);
            all_canonicalized_prefix(before, now, next, at as nat, true);
            prefix_bounds(before, (at + 1) as nat, total, schema_view(fields@));
            all_canonicalized_weaken(before, next, at as nat);
            assert(all_canonicalized(before, next, (at + 1) as nat, false));
            all_canonicalized_tail(before, next, (at + 1) as nat, total);
        }
        if res.is_err() {
            return res;
        }
        at = at + 1;
    }
    proof {
        all_canonicalized_weaken(before, children@, total);
    }
    Ok(())
}

fn validate_predicate_value(
    field: FieldId,
    value: &mut Value,
    fields: &Vec<FieldSchema>,
) -> (res: Result<()>)
    ensures
        res is Ok <==> field.0 < fields@.len() && old(value)@.fits(
            fields@[field.0 as int]@.data_type,
            false,
        ),
        res is Ok ==> final(value)@ == old(value)@.canonical(),
        res matches Err(error) ==> error == plain_error(ErrorKind::InvalidArgument)
            && *final(value) == *old(value),
{
    let position: usize = field.0 as usize;
    if position >= fields.len() {
        return Err(Error::invalid_argument());
    }
    let data_type = fields[position].data_type();
    value.validate_for(data_type, false)
}

fn validate_members(
    field: FieldId,
    values: &mut Vec<Value>,
    fields: &Vec<FieldSchema>,
) -> (res: Result<()>)
    ensures
        res is Ok <==> {
            &&& old(values)@.len() <= MAX_IN_VALUES
            &&& forall|i: int|
                0 <= i < old(values)@.len() ==> comparable(
                    (#[trigger] old(values)@[i])@,
                    field,
                    schema_view(fields@),
                )
        },
        final(values)@.len() == old(values)@.len(),
        forall|i: int|
            0 <= i < old(values)@.len() ==> value_canonicalized(
                old(values)@[i]@,
                (#[trigger] final(values)@[i])@,
                res is Ok,
            ),
        res matches Err(error) ==> error == plain_error(ErrorKind::InvalidArgument),
{
    let ghost before = values@;
    if values.len() > MAX_IN_VALUES {
        return Err(Error::invalid_argument());
    }
    let mut at: usize = 0;
    while at < values.len()
        invariant
            values@ == before,
            before == old(values)@,
            at <= before.len(),
            forall|i: int| 0 <= i < at ==> (#[trigger] before[i])@ != ValueView::Null,
        decreases before.len() - at,
    {
        if values[at].is_null() {
            assert(!comparable(before[at as int]@, field, schema_view(fields@)));
            return Err(Error::invalid_argument());
        }
        at = at + 1;
    }
    at = 0;
    while at < values.len()
        invariant
            values@.len() == before.len(),
            before == old(values)@,
            before.len() <= MAX_IN_VALUES,
            at <= before.len(),
            forall|i: int| 0 <= i < before.len() ==> (#[trigger] before[i])@ != ValueView::Null,
            forall|i: int|
                0 <= i < at ==> comparable((#[trigger] before[i])@, field, schema_view(fields@)),
            forall|i: int|
                0 <= i < at ==> (#[trigger] values@[i])@ == before[i]@.canonical(),
            forall|i: int| at <= i < before.len() ==> #[trigger] values@[i] == before[i],
        decreases before.len() - at,
    {
        let ghost now = values@;
        let value = &mut values[at];
        let res = validate_predicate_value(field, value, fields);
        assert(forall|i: int| 0 <= i < before.len() && i != at ==> values@[i] == now[i]);
        if res.is_err() {
            assert(!comparable(before[at as int]@, field, schema_view(fields@)));
            return res;
        }
        at = at + 1;
    }
    Ok(())
}

} // verus!
