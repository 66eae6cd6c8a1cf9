//! What the public values promise, stated on their bits, lengths and fields.

use vstd::prelude::*;

use super::config::{clamped, synopsis_bytes, synopsis_total, synopsis_value_bytes, tree_key_total, tree_key_value_bytes, valid_partition_entries, valid_schema, valid_tree_key, IndexConfigView, RuntimeConfigView};
use super::error::{decimal, digit};
use super::identifiers::{byte_len, valid_index_name, FieldId};
use super::number::{all_finite, Float32, Float64};
use super::operation::{bad_mutation, MutationView};
use super::record::{first_invalid, valid_id, RecordView};
use super::schema::{all_canonicalized, canonicalized, ceiling_is_unique, comparable, depth, depth_max, leaves_fit, node_count, node_sum, valid_predicate, value_canonicalized, DataType, FieldSchemaView, Predicate, SynopsisConfig, ValueView};
use super::search::SearchBudgetsView;
use super::verify::VerifyOptionsView;

verus! {

/// Ranks order finite numbers as the numbers themselves: nonnegative numbers as
/// their bit patterns, negative ones the other way round, and every negative
/// number but zero below every nonnegative one. The two zeros share a rank.
pub proof fn ranks_order_as_numbers(a: Float64, b: Float64)
    ensures
        a.bits < 0x8000_0000_0000_0000 && b.bits < 0x8000_0000_0000_0000 ==> (a.rank() < b.rank()
            <==> a.bits < b.bits),
        a.bits >= 0x8000_0000_0000_0000 && b.bits >= 0x8000_0000_0000_0000 ==> (a.rank() < b.rank()
            <==> b.bits < a.bits),
        a.bits > 0x8000_0000_0000_0000 && b.bits < 0x8000_0000_0000_0000 ==> a.rank() < b.rank(),
        a.bits == 0x8000_0000_0000_0000 && b.bits == 0 ==> a.rank() == b.rank() && a.equals(b),
        a.rank() == b.rank() ==> a.bits == b.bits || (a.bits == 0 || a.bits
            == 0x8000_0000_0000_0000) && (b.bits == 0 || b.bits == 0x8000_0000_0000_0000),
{
}

/// A number is finite exactly when its exponent bits are not all ones; NaN has
/// them all ones and a fraction besides.
pub proof fn finite_numbers_have_a_free_exponent(a: Float64, b: Float32)
    ensures
        a.finite() <==> (a.bits / 0x10_0000_0000_0000) % 2048 != 2047,
        a.nan() <==> (a.bits / 0x10_0000_0000_0000) % 2048 == 2047 && a.bits % 0x10_0000_0000_0000
            != 0,
        b.finite() <==> (b.bits / 0x80_0000) % 256 != 255,
{
}

/// Equal numbers have the same bits or are both zero; NaN equals nothing; every
/// other number equals itself.
pub proof fn equal_numbers_are_the_same_or_zero(a: Float64, b: Float64)
    ensures
        a.equals(b) ==> !a.nan() && !b.nan() && (a.bits == b.bits || (a.bits == 0 || a.bits
            == 0x8000_0000_0000_0000) && (b.bits == 0 || b.bits == 0x8000_0000_0000_0000)),
        a.equals(a) <==> !a.nan(),
        a.bits == b.bits && !a.nan() ==> a.equals(b),
        a.bits == 0 && b.bits == 0x8000_0000_0000_0000 ==> a.equals(b),
{
}

/// Canonicalizing changes nothing but the negative zero, which becomes zero.
pub proof fn canonical_numbers_lack_the_negative_zero(a: Float64)
    ensures
        a.canonical().bits != 0x8000_0000_0000_0000,
        a.bits != 0x8000_0000_0000_0000 ==> a.canonical() == a,
        a.bits == 0x8000_0000_0000_0000 ==> a.canonical().bits == 0,
{
}

/// A value fits a field when it is of the field's domain, or `NULL` and the
/// field is nullable; a number must be finite and a string at most 1 KiB.
pub proof fn values_fit_their_own_domain(value: ValueView, data_type: DataType, nullable: bool)
    ensures
        value is Null ==> value.fits(data_type, nullable) == nullable,
        value is Bool ==> value.fits(data_type, nullable) == (data_type == DataType::Bool),
        value is I64 ==> value.fits(data_type, nullable) == (data_type == DataType::I64),
        value matches ValueView::F64(number) ==> value.fits(data_type, nullable) == (data_type
            == DataType::F64 && (number.bits / 0x10_0000_0000_0000) % 2048 != 2047),
        value matches ValueView::String(text) ==> value.fits(data_type, nullable) == (data_type
            == DataType::String && byte_len(text) <= 1_024),
{
    if let ValueView::F64(number) = value {
        finite_numbers_have_a_free_exponent(number, Float32 { bits: 0 });
    }
}

/// Accepting a value changes nothing but a negative zero, which becomes zero;
/// refusing one may leave it as it was.
pub proof fn accepted_values_stay_equal(old: ValueView, new: ValueView)
    requires
        value_canonicalized(old, new, true),
    ensures
        !(old is F64) ==> new == old,
        old matches ValueView::F64(number) ==> new matches ValueView::F64(kept) && kept.bits
            != 0x8000_0000_0000_0000 && (kept.bits == number.bits || number.bits
            == 0x8000_0000_0000_0000 && kept.bits == 0),
{
}

/// A record fits an index exactly when its Record ID has 1 to 256 bytes, its
/// vector has the dimension and finite components, its payload at most 64 KiB,
/// and its values fit the schema one by one.
pub proof fn records_fit_value_by_value(
    record: RecordView,
    dimension: int,
    schema: Seq<FieldSchemaView>,
)
    ensures
        record.fits(dimension, schema) <==> {
            &&& 1 <= record.id.len() <= 256
            &&& record.vector.len() == dimension
            &&& forall|i: int|
                0 <= i < record.vector.len() ==> ((#[trigger] record.vector[i]).bits / 0x80_0000)
                    % 256 != 255
            &&& record.payload matches Some(payload) ==> payload.len() <= 65_536
            &&& record.fields.len() == schema.len()
            &&& forall|i: int|
                0 <= i < schema.len() ==> (#[trigger] record.fields[i]).fits(
                    schema[i].data_type,
                    schema[i].nullable,
                )
        },
{
    vectors_are_finite_component_by_component(record.vector);
}

/// A vector is finite exactly when each of its components is.
pub proof fn vectors_are_finite_component_by_component(vector: Seq<Float32>)
    ensures
        all_finite(vector) <==> forall|i: int|
            0 <= i < vector.len() ==> ((#[trigger] vector[i]).bits / 0x80_0000) % 256 != 255,
{
    assert forall|i: int| 0 <= i < vector.len() implies (#[trigger] vector[i]).finite() == ((
    vector[i].bits / 0x80_0000) % 256 != 255) by {
        finite_numbers_have_a_free_exponent(Float64 { bits: 0 }, vector[i]);
    }
    if all_finite(vector) {
        assert forall|i: int| 0 <= i < vector.len() implies ((#[trigger] vector[i]).bits
            / 0x80_0000) % 256 != 255 by {
            assert(vector[i].finite());
        }
    }
}

/// A mutation is refused exactly for a Record ID outside 1 to 256 bytes, for
/// one that an earlier mutation of the batch names, or for a record that does
/// not fit the index. A delete needs no more than its Record ID.
pub proof fn mutations_are_refused_for_their_own_reasons(
    batch: Seq<MutationView>,
    position: int,
    dimension: int,
    schema: Seq<FieldSchemaView>,
)
    requires
        0 <= position < batch.len(),
    ensures
        ({
            let bad = bad_mutation(batch, position, dimension, schema);
            match batch[position] {
                MutationView::Insert(record) => {
                    &&& !record.fits(dimension, schema) ==> bad
                    &&& batch[position].id() == record.id
                },
                MutationView::Upsert(record) => {
                    &&& !record.fits(dimension, schema) ==> bad
                    &&& batch[position].id() == record.id
                },
                MutationView::Delete(id) => batch[position].id() == id,
            }
        }),
        !(1 <= batch[position].id().len() <= 256) ==> bad_mutation(
            batch,
            position,
            dimension,
            schema,
        ),
        forall|earlier: int|
            0 <= earlier < position && (#[trigger] batch[earlier]).id() == batch[position].id()
                ==> bad_mutation(batch, position, dimension, schema),
        bad_mutation(batch, position, dimension, schema) ==> {
            ||| !(1 <= batch[position].id().len() <= 256)
            ||| exists|earlier: int|
                0 <= earlier < position && (#[trigger] batch[earlier]).id() == batch[position].id()
            ||| (batch[position] matches MutationView::Insert(record) && !record.fits(
                dimension,
                schema,
            ))
            ||| (batch[position] matches MutationView::Upsert(record) && !record.fits(
                dimension,
                schema,
            ))
        },
{
    assert forall|earlier: int|
        0 <= earlier < position && (#[trigger] batch[earlier]).id()
            == batch[position].id() implies bad_mutation(batch, position, dimension, schema) by {
        assert(batch[earlier].id() == batch[position].id());
    }
    if bad_mutation(batch, position, dimension, schema) && exists|earlier: int|
        0 <= earlier < position && #[trigger] batch[earlier].id() == batch[position].id() {
        let earlier = choose|earlier: int|
            0 <= earlier < position && #[trigger] batch[earlier].id() == batch[position].id();
        assert(batch[earlier].id() == batch[position].id());
    }
}

/// The Record ID to blame is outside 1 to 256 bytes, and every earlier one is
/// within.
pub proof fn the_first_bad_id_is_blamed(ids: Seq<Vec<u8>>, at: int)
    ensures
        first_invalid(ids, at) <==> {
            &&& 0 <= at < ids.len()
            &&& !(1 <= ids[at]@.len() <= 256)
            &&& forall|i: int| 0 <= i < at ==> 1 <= (#[trigger] ids[i])@.len() <= 256
        },
{
}

proof fn children_are_bounded(children: Seq<Predicate>, n: nat, at: int)
    requires
        0 <= at < n <= children.len(),
    ensures
        node_count(children[at]) <= node_sum(children, n),
        depth(children[at]) <= depth_max(children, n),
    decreases n,
{
    if at < n - 1 {
        children_are_bounded(children, (n - 1) as nat, at);
    }
}

proof fn some_child_is_deepest(children: Seq<Predicate>, n: nat) -> (at: int)
    requires
        0 < n <= children.len(),
        forall|i: int| 0 <= i < children.len() ==> depth(#[trigger] children[i]) > 0,
    ensures
        0 <= at < n,
        depth(children[at]) == depth_max(children, n),
    decreases n,
{
    if n == 1 {
        reveal_with_fuel(depth_max, 2);
        assert(depth(children[0]) > 0);
        0
    } else {
        let before = some_child_is_deepest(children, (n - 1) as nat);
        if depth(children[n - 1]) > depth_max(children, (n - 1) as nat) {
            n - 1
        } else {
            before
        }
    }
}

proof fn children_fit_one_by_one(
    children: Seq<Predicate>,
    n: nat,
    fields: Seq<FieldSchemaView>,
)
    requires
        n <= children.len(),
    ensures
        super::schema::children_fit(children, n, fields) <==> forall|i: int|
            0 <= i < n ==> leaves_fit(#[trigger] children[i], fields),
    decreases n,
{
    if n > 0 {
        children_fit_one_by_one(children, (n - 1) as nat, fields);
    }
}

/// The nodes of a branch's children add up, child by child.
pub proof fn nodes_add_up(children: Seq<Predicate>, n: nat)
    requires
        n < children.len(),
    ensures
        node_sum(children, 0) == 0,
        node_sum(children, n + 1) == node_sum(children, n) + node_count(children[n as int]),
{
}

/// A predicate counts itself and everything below it: a leaf is one node at
/// depth one, and every branch is one node more than, and one level above, its
/// children.
pub proof fn predicates_count_every_node(predicate: Predicate, at: int)
    ensures
        match predicate {
            Predicate::And(children) => {
                &&& node_count(predicate) == 1 + node_sum(children@, children@.len())
                &&& children@.len() == 0 ==> depth(predicate) == 1
                &&& 0 <= at < children@.len() ==> depth(predicate) > depth(children@[at])
                    && node_count(predicate) > node_count(children@[at])
            },
            Predicate::Or(children) => {
                &&& node_count(predicate) == 1 + node_sum(children@, children@.len())
                &&& children@.len() == 0 ==> depth(predicate) == 1
                &&& 0 <= at < children@.len() ==> depth(predicate) > depth(children@[at])
                    && node_count(predicate) > node_count(children@[at])
            },
            Predicate::Not(child) => depth(predicate) == depth(*child) + 1 && node_count(predicate)
                == node_count(*child) + 1,
            _ => depth(predicate) == 1 && node_count(predicate) == 1,
        },
{
    match predicate {
        Predicate::And(children) => {
            assert(depth_max(children@, 0) == 0);
            if 0 <= at < children@.len() {
                children_are_bounded(children@, children@.len(), at);
            }
        },
        Predicate::Or(children) => {
            assert(depth_max(children@, 0) == 0);
            if 0 <= at < children@.len() {
                children_are_bounded(children@, children@.len(), at);
            }
        },
        _ => {},
    }
}

/// A branch is exactly one level above the deepest of its children.
pub proof fn branches_are_one_above_their_deepest_child(children: Vec<Predicate>)
    requires
        children@.len() > 0,
    ensures
        exists|i: int|
            0 <= i < children@.len() && depth(Predicate::And(children)) == depth(
                #[trigger] children@[i],
            ) + 1,
        exists|i: int|
            0 <= i < children@.len() && depth(Predicate::Or(children)) == depth(
                #[trigger] children@[i],
            ) + 1,
{
    assert forall|i: int| 0 <= i < children@.len() implies depth(#[trigger] children@[i]) > 0 by {
        predicates_count_every_node(children@[i], 0);
        depth_is_positive(children@[i]);
    }
    let at = some_child_is_deepest(children@, children@.len());
    assert(depth(Predicate::And(children)) == depth(children@[at]) + 1);
    assert(depth(Predicate::Or(children)) == depth(children@[at]) + 1);
}

proof fn depth_is_positive(predicate: Predicate)
    ensures
        depth(predicate) > 0,
{
}

/// A predicate is accepted within 64 levels and 1,024 nodes when its leaves fit
/// the schema; and then every child of it is accepted too.
pub proof fn predicates_are_accepted_with_their_children(
    predicate: Predicate,
    fields: Seq<FieldSchemaView>,
    at: int,
)
    ensures
        valid_predicate(predicate, fields) <==> depth(predicate) <= 64 && node_count(predicate)
            <= 1_024 && leaves_fit(predicate, fields),
        valid_predicate(predicate, fields) ==> match predicate {
            Predicate::And(children) => 0 <= at < children@.len() ==> valid_predicate(
                children@[at],
                fields,
            ),
            Predicate::Or(children) => 0 <= at < children@.len() ==> valid_predicate(
                children@[at],
                fields,
            ),
            Predicate::Not(child) => valid_predicate(*child, fields),
            _ => true,
        },
        match predicate {
            Predicate::And(children) => leaves_fit(predicate, fields) <==> forall|i: int|
                0 <= i < children@.len() ==> leaves_fit(#[trigger] children@[i], fields),
            Predicate::Or(children) => leaves_fit(predicate, fields) <==> forall|i: int|
                0 <= i < children@.len() ==> leaves_fit(#[trigger] children@[i], fields),
            Predicate::Not(child) => leaves_fit(predicate, fields) == leaves_fit(*child, fields),
            Predicate::IsNull(field) => leaves_fit(predicate, fields) == (field.0 < fields.len()),
            Predicate::IsNotNull(field) => leaves_fit(predicate, fields) == (field.0
                < fields.len()),
            Predicate::Compare { field, value, .. } => leaves_fit(predicate, fields) == (field.0
                < fields.len() && !(value@ is Null) && value@.fits(
                fields[field.0 as int].data_type,
                false,
            )),
            Predicate::In { field, values } => leaves_fit(predicate, fields) == (values@.len()
                <= 1_024 && forall|i: int|
                0 <= i < values@.len() ==> field.0 < fields.len() && !((
                #[trigger] values@[i])@ is Null) && values@[i]@.fits(
                    fields[field.0 as int].data_type,
                    false,
                )),
        },
{
    match predicate {
        Predicate::And(children) => {
            children_fit_one_by_one(children@, children@.len(), fields);
            if 0 <= at < children@.len() {
                children_are_bounded(children@, children@.len(), at);
            }
        },
        Predicate::Or(children) => {
            children_fit_one_by_one(children@, children@.len(), fields);
            if 0 <= at < children@.len() {
                children_are_bounded(children@, children@.len(), at);
            }
        },
        _ => {},
    }
}

/// A synopsis is legal as minimum and maximum alone, or with a Bloom summary of
/// at least one distinct value and a rate strictly between zero and one.
pub proof fn synopses_are_legal_within_their_rate(synopsis: SynopsisConfig)
    ensures
        synopsis is MinMax ==> synopsis.valid() && synopsis.bloom_size() == 0,
        synopsis matches SynopsisConfig::MinMaxBloom {
            expected_distinct,
            false_positive_rate,
            ..
        } ==> (synopsis.valid() <==> expected_distinct >= 1 && 0 < false_positive_rate.bits
            < 0x3ff0_0000_0000_0000),
{
}

/// A Bloom summary takes the least whole number of bytes that holds its ideal
/// bits, rounded up.
pub proof fn bloom_summaries_take_whole_bytes(synopsis: SynopsisConfig, bits: nat)
    requires
        synopsis matches SynopsisConfig::MinMaxBloom { ideal_bits, .. }
            && ideal_bits.rounds_up_to(bits),
    ensures
        8 * synopsis.bloom_size() >= bits,
        8 * synopsis.bloom_size() < bits + 8,
{
    if let SynopsisConfig::MinMaxBloom { ideal_bits, .. } = synopsis {
        ceiling_is_unique(ideal_bits);
    }
}

/// Two synopses agree when they ask for the same summary: the same kind, the
/// same distinct count, and the same rate.
pub proof fn synopses_agree_on_what_they_ask_for(a: SynopsisConfig, b: SynopsisConfig)
    ensures
        a.agrees(b) ==> (a is MinMaxBloom) == (b is MinMaxBloom),
        a matches SynopsisConfig::MinMaxBloom {
            expected_distinct,
            false_positive_rate,
            ..
        } ==> (b matches SynopsisConfig::MinMaxBloom {
            expected_distinct: distinct,
            false_positive_rate: rate,
            ..
        } ==> {
            &&& a.agrees(b) ==> expected_distinct == distinct && (false_positive_rate.bits
                == rate.bits || false_positive_rate.rank() == 0 && rate.rank() == 0)
            &&& expected_distinct == distinct && false_positive_rate.bits == rate.bits
                && !rate.nan() ==> a.agrees(b)
        }),
        a is MinMax && b is MinMax ==> a.agrees(b),
{
}

/// Values agree when they are of one domain and equal; numbers as numbers.
pub proof fn values_agree_within_their_domain(a: ValueView, b: ValueView)
    ensures
        a is Null ==> (a.agrees(b) <==> b is Null),
        a matches ValueView::Bool(x) ==> (a.agrees(b) <==> b == ValueView::Bool(x)),
        a matches ValueView::I64(x) ==> (a.agrees(b) <==> b == ValueView::I64(x)),
        a matches ValueView::String(x) ==> (a.agrees(b) <==> b == ValueView::String(x)),
        a matches ValueView::F64(x) ==> (a.agrees(b) ==> b is F64 && !x.nan()),
        a matches ValueView::F64(x) ==> (b matches ValueView::F64(y) ==> (a.agrees(b) ==> x.bits
            == y.bits || x.rank() == 0 && y.rank() == 0)),
        a matches ValueView::F64(x) ==> (!x.nan() ==> a.agrees(a)),
{
}

/// An index configuration is valid exactly when its dimension is 1 to 16,384,
/// its minimum is positive and at most half its maximum, its maximum at most
/// 65,536, and its schema and Tree Key are valid.
pub proof fn configurations_are_valid_within_their_limits(config: IndexConfigView)
    ensures
        config.valid() <==> {
            &&& 1 <= config.dimension <= 16_384
            &&& 1 <= config.min_partition_entries
            &&& 2 * config.min_partition_entries <= config.max_partition_entries
            &&& config.max_partition_entries <= 65_536
            &&& valid_schema(config.fields)
            &&& valid_tree_key(config.tree_key_fields, config.fields)
        },
{
}

/// A legal schema has at most 16 fields, no two of one name, legal synopses, at
/// most four Bloom summaries, and synopses of at most 64 KiB in all.
pub proof fn schemas_keep_their_limits(fields: Seq<FieldSchemaView>, i: int, j: int)
    requires
        valid_schema(fields),
        0 <= i < j < fields.len(),
    ensures
        fields.len() <= 16,
        fields[i].name != fields[j].name,
        fields[i].synopsis.valid() && fields[j].synopsis.valid(),
        super::config::bloom_count(fields, fields.len()) <= 4,
        synopsis_total(fields, fields.len()) <= 65_536,
{
}

/// A schema with a repeated name, an illegal synopsis, or too many fields is
/// not legal.
pub proof fn broken_schemas_are_refused(fields: Seq<FieldSchemaView>, i: int, j: int)
    requires
        0 <= i < j < fields.len(),
    ensures
        fields[i].name == fields[j].name ==> !valid_schema(fields),
        !fields[i].synopsis.valid() ==> !valid_schema(fields),
        !fields[j].synopsis.valid() ==> !valid_schema(fields),
        fields.len() > 16 ==> !valid_schema(fields),
{
}

/// One field's synopsis takes two flags and two values of its domain besides
/// its Bloom summary, and the fields' synopses add up.
pub proof fn synopses_add_up(fields: Seq<FieldSchemaView>, n: nat)
    requires
        n < fields.len(),
    ensures
        synopsis_total(fields, 0) == 0,
        synopsis_total(fields, n + 1) == synopsis_total(fields, n) + synopsis_bytes(
            fields[n as int],
        ),
        ({
            let field = fields[n as int];
            synopsis_bytes(field) == field.synopsis.bloom_size() + match field.data_type {
                DataType::Bool => 6nat,
                DataType::I64 => 20nat,
                DataType::F64 => 20nat,
                DataType::String => 2_060nat,
            }
        }),
        super::config::bloom_count(fields, 0) == 0,
        super::config::bloom_count(fields, n + 1) == super::config::bloom_count(fields, n) + (
        if fields[n as int].synopsis is MinMaxBloom {
            1nat
        } else {
            0nat
        }),
{
}

/// A Tree Key names each of its fields once, each of them in the schema and not
/// nullable, and takes at most 8 KiB; its fields' values add up.
pub proof fn tree_keys_name_required_fields_once(
    keys: Seq<FieldId>,
    fields: Seq<FieldSchemaView>,
    i: int,
    j: int,
)
    requires
        0 <= i < keys.len(),
    ensures
        valid_tree_key(keys, fields) ==> {
            &&& keys[i].0 < fields.len()
            &&& !fields[keys[i].0 as int].nullable
            &&& 0 <= j < keys.len() && i != j ==> keys[i] != keys[j]
            &&& tree_key_total(keys, fields, keys.len()) <= 8_192
        },
        keys[i].0 >= fields.len() ==> !valid_tree_key(keys, fields),
        keys[i].0 < fields.len() && fields[keys[i].0 as int].nullable ==> !valid_tree_key(
            keys,
            fields,
        ),
        0 <= j < keys.len() && i != j && keys[i] == keys[j] ==> !valid_tree_key(keys, fields),
        tree_key_total(keys, fields, 0) == 0,
        tree_key_total(keys, fields, (i + 1) as nat) == tree_key_total(keys, fields, i as nat)
            + match fields[keys[i].0 as int].data_type {
            DataType::Bool => 3nat,
            DataType::I64 => 10nat,
            DataType::F64 => 10nat,
            DataType::String => 2_050nat,
        },
{
}

/// Partition bounds are valid with a positive minimum, twice of which is at
/// most the maximum, and a maximum of at most 65,536: a full partition always
/// splits into two that reach the minimum.
pub proof fn full_partitions_can_be_halved(minimum: u32, maximum: u32)
    ensures
        valid_partition_entries(minimum, maximum) <==> minimum >= 1 && maximum >= 2 * minimum
            && maximum <= 65_536,
{
}

/// Configurations agree exactly when everything in them does.
pub proof fn configurations_agree_in_everything(a: IndexConfigView, b: IndexConfigView)
    ensures
        a.agrees(b) ==> {
            &&& a.dimension == b.dimension
            &&& a.metric == b.metric
            &&& a.min_partition_entries == b.min_partition_entries
            &&& a.max_partition_entries == b.max_partition_entries
            &&& a.tree_key_fields == b.tree_key_fields
            &&& a.fields.len() == b.fields.len()
            &&& forall|i: int|
                0 <= i < a.fields.len() ==> {
                    let x = #[trigger] a.fields[i];
                    let y = b.fields[i];
                    &&& x.name == y.name
                    &&& x.data_type == y.data_type
                    &&& x.nullable == y.nullable
                    &&& x.synopsis.agrees(y.synopsis)
                }
        },
        a.dimension == b.dimension && a.metric == b.metric && a.min_partition_entries
            == b.min_partition_entries && a.max_partition_entries == b.max_partition_entries
            && a.tree_key_fields == b.tree_key_fields && a.fields.len() == b.fields.len() && (
        forall|i: int|
            0 <= i < a.fields.len() ==> {
                let x = #[trigger] a.fields[i];
                let y = b.fields[i];
                &&& x.name == y.name
                &&& x.data_type == y.data_type
                &&& x.nullable == y.nullable
                &&& x.synopsis.agrees(y.synopsis)
            }) ==> a.agrees(b),
{
    if a.agrees(b) {
        assert forall|i: int| 0 <= i < a.fields.len() implies {
            let x = #[trigger] a.fields[i];
            let y = b.fields[i];
            &&& x.name == y.name
            &&& x.data_type == y.data_type
            &&& x.nullable == y.nullable
            &&& x.synopsis.agrees(y.synopsis)
        } by {
            assert(a.fields[i].agrees(b.fields[i]));
        }
    }
}

/// Runtime bounds are acceptable exactly within their limits: positive counts,
/// workers and the backlog watermark within the queue, a beam of 1 to 16,384,
/// at most 65,536 foreground operations, and an ordered positive backoff.
pub proof fn runtime_bounds_are_acceptable_within_their_limits(config: RuntimeConfigView)
    ensures
        config.valid() <==> {
            &&& 1 <= config.foreground_operation_limit <= 65_536
            &&& config.fixup_queue_capacity >= 1
            &&& config.maintenance_workers <= config.fixup_queue_capacity
            &&& config.import_backlog_watermark <= config.fixup_queue_capacity
            &&& config.fixup_attempts >= 1
            &&& config.foreground_attempts >= 1
            &&& config.partition_cache_bytes <= usize::MAX
            &&& config.default_search_budgets.within_hard_caps()
            &&& config.tree_key_scan_ranges >= 1
            &&& 1 <= config.write_beam_size <= 16_384
            &&& config.import_max_in_flight_batches >= 1
            &&& 1 <= config.retry_initial_backoff@ <= config.retry_max_backoff@
        },
{
}

/// An index without an override stalls after one second per 128 entries of its
/// maximum, but not before one millisecond; an override is taken as it is.
pub proof fn stalling_scales_with_the_maximum(
    config: super::config::RuntimeConfig,
    entries: u32,
)
    ensures
        config@.stalled_timeout matches Some(timeout) ==> config.stalled_nanos(entries)
            == timeout@,
        config@.stalled_timeout is None ==> {
            &&& config.stalled_nanos(entries) >= 1_000_000
            &&& 1_000_000_000 * entries >= 128_000_000 ==> 128 * config.stalled_nanos(entries)
                <= 1_000_000_000 * entries < 128 * config.stalled_nanos(entries) + 128
            &&& 1_000_000_000 * entries < 128_000_000 ==> config.stalled_nanos(entries)
                == 1_000_000
        },
{
}

/// An Index Name takes 1 to 255 bytes, a Record ID 1 to 256, and a Payload at
/// most 65,536; a record outside these limits, or with a component that is not
/// finite, is refused whatever its schema.
pub proof fn names_and_records_keep_their_limits(name: Seq<char>, record: RecordView, i: int)
    ensures
        valid_index_name(name) <==> 1 <= byte_len(name) <= 255,
        valid_id(record.id) <==> 1 <= record.id.len() <= 256,
        record.id.len() == 0 || record.id.len() > 256 ==> !record.well_shaped(),
        record.payload matches Some(payload) ==> (payload.len() > 65_536 ==> !record.well_shaped()),
        0 <= i < record.vector.len() && !record.vector[i].finite() ==> !record.well_shaped(),
        1 <= record.id.len() <= 256 && all_finite(record.vector) && record.payload is None
            ==> record.well_shaped(),
{
}

/// A value takes what its domain needs at most: within a summary and within a
/// Tree Key the longest text and, for the others, a fixed number of bytes.
pub proof fn encoded_values_have_their_sizes()
    ensures
        synopsis_value_bytes(DataType::String) == 1_029,
        synopsis_value_bytes(DataType::Bool) == 2,
        synopsis_value_bytes(DataType::I64) == 9,
        synopsis_value_bytes(DataType::F64) == 9,
        tree_key_value_bytes(DataType::String) == 2_050,
        tree_key_value_bytes(DataType::Bool) == 3,
        tree_key_value_bytes(DataType::I64) == 10,
        tree_key_value_bytes(DataType::F64) == 10,
{
}

/// A limited value lies within its range and is the value itself where that
/// does.
pub proof fn limited_values_stay_in_range(value: usize, low: usize, high: usize)
    requires
        low <= high,
    ensures
        low <= clamped(value, low, high) <= high,
        low <= value <= high ==> clamped(value, low, high) == value,
        value < low ==> clamped(value, low, high) == low,
        value > high ==> clamped(value, low, high) == high,
{
}

/// A comparison takes a value that is not null and belongs to the domain of its
/// field.
pub proof fn comparisons_stay_in_their_domain(
    value: ValueView,
    field: FieldId,
    fields: Seq<FieldSchemaView>,
)
    ensures
        value is Null ==> !comparable(value, field, fields),
        field.0 >= fields.len() ==> !comparable(value, field, fields),
        field.0 < fields.len() ==> {
            let domain = fields[field.0 as int].data_type;
            &&& value is Bool ==> (comparable(value, field, fields) <==> domain == DataType::Bool)
            &&& value is I64 ==> (comparable(value, field, fields) <==> domain == DataType::I64)
            &&& value matches ValueView::F64(number) ==> (comparable(value, field, fields)
                <==> domain == DataType::F64 && number.finite())
            &&& value matches ValueView::String(text) ==> (comparable(value, field, fields)
                <==> domain == DataType::String && byte_len(text) <= 1_024)
        },
{
}

/// An accepted predicate is the caller's: the same operators, fields and values,
/// but for zeros that lost their sign.
pub proof fn accepted_predicates_stay_the_same(old: Predicate, new: Predicate)
    requires
        canonicalized(old, new, true),
    ensures
        old is And == new is And,
        old is Or == new is Or,
        old is Not == new is Not,
        old matches Predicate::IsNull(field) ==> new == Predicate::IsNull(field),
        old matches Predicate::IsNotNull(field) ==> new == Predicate::IsNotNull(field),
        old matches Predicate::Compare { field, op, value } ==> (new matches Predicate::Compare {
            field: new_field,
            op: new_op,
            value: new_value,
        } && new_field == field && new_op == op && value_canonicalized(value@, new_value@, true)),
        old matches Predicate::In { field, values } ==> (new matches Predicate::In {
            field: new_field,
            values: new_values,
        } && new_field == field && new_values@.len() == values@.len()),
        old matches Predicate::And(before) ==> (new matches Predicate::And(after) && after@.len()
            == before@.len()),
        old matches Predicate::Or(before) ==> (new matches Predicate::Or(after) && after@.len()
            == before@.len()),
{
    reveal_with_fuel(canonicalized, 2);
    reveal_with_fuel(all_canonicalized, 2);
}

/// Numbers are written in decimal digits, and no two numbers alike.
pub proof fn numbers_are_written_apart(a: nat, b: nat)
    ensures
        decimal(a).len() > 0,
        a < 10 ==> decimal(a) == seq![digit(a)],
        a >= 10 ==> decimal(a).last() == digit(a % 10) && decimal(a).drop_last() == decimal(a / 10),
        a < 10 ==> digit(a) as int == 48 + a,
        decimal(a) == decimal(b) ==> a == b,
    decreases a,
{
    assert forall|d: nat| d < 10 implies #[trigger] digit(d) as int == 48 + d by {
        assert('0' as int == 48);
    }
    if a >= 10 {
        assert(decimal(a).drop_last() =~= decimal(a / 10));
    }
    if b >= 10 {
        assert(decimal(b).drop_last() =~= decimal(b / 10));
        assert(decimal(b / 10).len() > 0) by {
            reveal_with_fuel(decimal, 2);
        }
    }
    if decimal(a) == decimal(b) {
        if a < 10 && b < 10 {
            assert(seq![digit(a)][0] == seq![digit(b)][0]);
        } else if a >= 10 && b >= 10 {
            numbers_are_written_apart(a / 10, b / 10);
            assert(decimal(a).last() == decimal(b).last());
            assert(digit(a % 10) == digit(b % 10));
        } else if a >= 10 {
            numbers_are_written_apart(a / 10, a / 10);
            assert(decimal(a).len() >= 2);
        } else {
            assert(decimal(b).len() >= 2);
        }
    }
}

/// Search budgets are accepted exactly from one to 65,536 Tree Keys, 16,384
/// partitions, 1,048,576 Leaf Entries and 65,536 candidates.
pub proof fn budgets_keep_their_caps(budgets: SearchBudgetsView)
    ensures
        budgets.within_hard_caps() <==> {
            &&& 1 <= budgets.scanned_tree_keys <= 65_536
            &&& 1 <= budgets.visited_partitions <= 16_384
            &&& 1 <= budgets.visited_leaf_entries <= 1_048_576
            &&& 1 <= budgets.exact_rerank_candidates <= 65_536
        },
{
}

/// Verification limits are accepted exactly from one to 10,000 issues,
/// 100,000,000 objects and one gibibyte.
pub proof fn verification_keeps_its_limits(options: VerifyOptionsView)
    ensures
        options.valid() <==> {
            &&& 1 <= options.issue_limit <= 10_000
            &&& 1 <= options.object_limit <= 100_000_000
            &&& 1 <= options.memory_limit_bytes <= 1_073_741_824
        },
{
}

/// An accepted mutation is the caller's: of the same kind, for the same id, with
/// the same vector and Payload, and with the same fields but for zeros that lost
/// their sign.
pub proof fn accepted_mutations_stay_the_same(old: MutationView, new: MutationView, i: int)
    requires
        old.canonicalized(new, true),
    ensures
        old matches MutationView::Delete(id) ==> new == MutationView::Delete(id),
        old is Insert == new is Insert,
        old is Upsert == new is Upsert,
        old matches MutationView::Insert(record) ==> (new matches MutationView::Insert(accepted)
            && accepted.id == record.id && accepted.vector == record.vector && accepted.payload
            == record.payload && accepted.fields.len() == record.fields.len() && (0 <= i
            < record.fields.len() ==> value_canonicalized(record.fields[i], accepted.fields[i], true))),
        old matches MutationView::Upsert(record) ==> (new matches MutationView::Upsert(accepted)
            && accepted.id == record.id && accepted.vector == record.vector && accepted.payload
            == record.payload && accepted.fields.len() == record.fields.len() && (0 <= i
            < record.fields.len() ==> value_canonicalized(record.fields[i], accepted.fields[i], true))),
{
}

} // verus!
