//! Partition Synopses and their conservatism.

use core::mem::size_of;

use vstd::prelude::*;
use vstd::utf8::encode_utf8;

use crate::api::number::Distance;
use crate::api::schema::{Value, ValueView};
use crate::api::search::lesser;
use crate::ordering::{
    bytes_less, bytes_less_is_total, bytes_less_is_transitive, comes_before_slice,
};

verus! {

/// Whether two values are of one type and in order, strings by their bytes. A
/// NULL, an infinite number and NaN are in no order.
pub open spec fn typed_at_most(a: ValueView, b: ValueView) -> bool {
    match (a, b) {
        (ValueView::Bool(a), ValueView::Bool(b)) => a ==> b,
        (ValueView::I64(a), ValueView::I64(b)) => a <= b,
        (ValueView::F64(a), ValueView::F64(b)) => a.finite() && b.finite() && a.rank() <= b.rank(),
        (ValueView::String(a), ValueView::String(b)) => !bytes_less(encode_utf8(b), encode_utf8(a)),
        _ => false,
    }
}

/// Returns whether two values are of one type and in order.
pub fn is_at_most(a: &Value, b: &Value) -> (res: bool)
    ensures
        res == typed_at_most(a@, b@),
{
    match (a, b) {
        (Value::Bool(a), Value::Bool(b)) => !*a || *b,
        (Value::I64(a), Value::I64(b)) => *a <= *b,
        (Value::F64(a), Value::F64(b)) => match (Distance::new(*a), Distance::new(*b)) {
            (Some(a), Some(b)) => a.rank <= b.rank,
            _ => false,
        },
        (Value::String(a), Value::String(b)) => !comes_before_slice(
            b.as_str().as_bytes(),
            a.as_str().as_bytes(),
        ),
        _ => false,
    }
}

/// The synopsis of one field over the entries of a leaf.
pub struct FieldSynopsis {
    /// Whether some entry holds NULL.
    pub has_null: bool,
    /// The smallest value, if the field keeps extrema and has a value.
    pub minimum: Option<Value>,
    /// The largest value.
    pub maximum: Option<Value>,
    /// The Bloom bits, if the field keeps them.
    pub bloom: Option<Vec<u8>>,
}

/// The mathematical content of a [`FieldSynopsis`].
pub ghost struct FieldSynopsisView {
    /// Whether some entry holds NULL.
    pub has_null: bool,
    /// The smallest value.
    pub minimum: Option<ValueView>,
    /// The largest value.
    pub maximum: Option<ValueView>,
    /// The Bloom bits.
    pub bloom: Option<Seq<u8>>,
}

/// The content of an optional value.
pub open spec fn opt_value(value: Option<Value>) -> Option<ValueView> {
    match value {
        Some(value) => Some(value@),
        None => None,
    }
}

impl FieldSynopsis {
    /// The content.
    pub open spec fn view(&self) -> FieldSynopsisView {
        FieldSynopsisView {
            has_null: self.has_null,
            minimum: opt_value(self.minimum),
            maximum: opt_value(self.maximum),
            bloom: match self.bloom {
                Some(bits) => Some(bits@),
                None => None,
            },
        }
    }
}

/// Whether every bit that is set in some bytes is set in others.
pub open spec fn bits_within(bits: Seq<u8>, within: Seq<u8>) -> bool {
    &&& bits.len() == within.len()
    &&& forall|i: int| 0 <= i < bits.len() ==> #[trigger] bits[i] & !within[i] == 0
}

impl FieldSynopsisView {
    /// Whether this synopsis covers another: its NULL flag, extrema and Bloom
    /// bits are a superset.
    pub open spec fn covers(self, other: FieldSynopsisView) -> bool {
        &&& other.has_null ==> self.has_null
        &&& other.minimum matches Some(minimum) ==> (self.minimum matches Some(bound)
            && typed_at_most(bound, minimum))
        &&& other.maximum matches Some(maximum) ==> (self.maximum matches Some(bound)
            && typed_at_most(maximum, bound))
        &&& match (self.bloom, other.bloom) {
            (Some(mine), Some(theirs)) => bits_within(theirs, mine),
            _ => true,
        }
    }
}

/// The synopsis of one leaf.
pub struct PartitionSynopsis {
    /// Whether the fields have the shape of the index's schema.
    pub shape_fits: bool,
    /// One synopsis per schema field.
    pub fields: Vec<FieldSynopsis>,
}

/// The mathematical content of a [`PartitionSynopsis`].
pub ghost struct SynopsisView {
    /// Whether the fields have the shape of the index's schema.
    pub shape_fits: bool,
    /// One synopsis per schema field.
    pub fields: Seq<FieldSynopsisView>,
}

impl PartitionSynopsis {
    /// The content.
    pub open spec fn view(&self) -> SynopsisView {
        SynopsisView {
            shape_fits: self.shape_fits,
            fields: Seq::new(self.fields@.len(), |i: int| self.fields@[i]@),
        }
    }
}

/// Whether a stored synopsis covers what was recomputed from the entries;
/// nothing was recomputed of a leaf without entries.
pub open spec fn covers_recomputed(stored: SynopsisView, recomputed: Option<SynopsisView>) -> bool {
    &&& stored.shape_fits
    &&& recomputed matches Some(rebuilt) ==> rebuilt.shape_fits && (forall|i: int|
        0 <= i < stored.fields.len() && i < rebuilt.fields.len() ==> (
        #[trigger] stored.fields[i]).covers(rebuilt.fields[i]))
}

fn bits_are_within(bits: &Vec<u8>, within: &Vec<u8>) -> (res: bool)
    ensures
        res == bits_within(bits@, within@),
{
    if bits.len() != within.len() {
        return false;
    }
    let mut i: usize = 0;
    while i < bits.len()
        invariant
            i <= bits@.len(),
            bits@.len() == within@.len(),
            forall|j: int| 0 <= j < i ==> #[trigger] bits@[j] & !within@[j] == 0,
        decreases bits@.len() - i,
    {
        if bits[i] & !within[i] != 0 {
            return false;
        }
        i = i + 1;
    }
    true
}

fn field_covers(stored: &FieldSynopsis, rebuilt: &FieldSynopsis) -> (res: bool)
    ensures
        res == stored@.covers(rebuilt@),
{
    if rebuilt.has_null && !stored.has_null {
        return false;
    }
    if let Some(minimum) = &rebuilt.minimum {
        let covered = match &stored.minimum {
            Some(bound) => is_at_most(bound, minimum),
            None => false,
        };
        if !covered {
            return false;
        }
    }
    if let Some(maximum) = &rebuilt.maximum {
        let covered = match &stored.maximum {
            Some(bound) => is_at_most(maximum, bound),
            None => false,
        };
        if !covered {
            return false;
        }
    }
    match (&stored.bloom, &rebuilt.bloom) {
        (Some(mine), Some(theirs)) => bits_are_within(theirs, mine),
        _ => true,
    }
}

/// Returns whether a stored leaf synopsis covers what was recomputed from the
/// entries: synopses only ever expand.
pub fn conservative(stored: &PartitionSynopsis, recomputed: &Option<PartitionSynopsis>) -> (res:
    bool)
    ensures
        res == covers_recomputed(stored@, opt_synopsis(*recomputed)),
{
    if !stored.shape_fits {
        return false;
    }
    let rebuilt = match recomputed {
        Some(rebuilt) => rebuilt,
        None => {
            return true;
        },
    };
    if !rebuilt.shape_fits {
        return false;
    }
    let mut i: usize = 0;
    while i < stored.fields.len() && i < rebuilt.fields.len()
        invariant
            i <= stored.fields@.len(),
            i <= rebuilt.fields@.len(),
            stored.shape_fits,
            rebuilt.shape_fits,
            *recomputed == Some(*rebuilt),
            forall|j: int| 0 <= j < i ==> (#[trigger] stored@.fields[j]).covers(rebuilt@.fields[j]),
        decreases stored.fields@.len() - i,
    {
        if !field_covers(&stored.fields[i], &rebuilt.fields[i]) {
            assert(!stored@.fields[i as int].covers(rebuilt@.fields[i as int]));
            return false;
        }
        i = i + 1;
    }
    true
}

/// The content of an optional synopsis.
pub open spec fn opt_synopsis(synopsis: Option<PartitionSynopsis>) -> Option<SynopsisView> {
    match synopsis {
        Some(found) => Some(found@),
        None => None,
    }
}

proof fn order_is_transitive(a: ValueView, b: ValueView, c: ValueView)
    requires
        typed_at_most(a, b),
        typed_at_most(b, c),
    ensures
        typed_at_most(a, c),
{
    match (a, b, c) {
        (ValueView::String(a), ValueView::String(b), ValueView::String(c)) => {
            let x = encode_utf8(a);
            let y = encode_utf8(b);
            let z = encode_utf8(c);
            bytes_less_is_total(x, y);
            bytes_less_is_total(y, z);
            bytes_less_is_total(x, z);
            if bytes_less(z, x) {
                if bytes_less(x, y) {
                    bytes_less_is_transitive(z, x, y);
                }
            }
        },
        _ => {},
    }
}

/// A synopsis that only ever expands stays conservative: what covers a
/// synopsis covers everything that synopsis covers, when all three keep Bloom
/// bits or none does.
pub proof fn coverage_is_transitive(
    wide: FieldSynopsisView,
    middle: FieldSynopsisView,
    narrow: FieldSynopsisView,
)
    requires
        wide.covers(middle),
        middle.covers(narrow),
        (wide.bloom is Some) == (middle.bloom is Some),
        (middle.bloom is Some) == (narrow.bloom is Some),
    ensures
        wide.covers(narrow),
{
    if let Some(least) = narrow.minimum {
        order_is_transitive(wide.minimum->0, middle.minimum->0, least);
    }
    if let Some(largest) = narrow.maximum {
        order_is_transitive(largest, middle.maximum->0, wide.maximum->0);
    }
    if wide.bloom is Some {
        let a = narrow.bloom->0;
        let b = middle.bloom->0;
        let c = wide.bloom->0;
        assert forall|i: int| 0 <= i < a.len() implies #[trigger] a[i] & !c[i] == 0 by {
            let x = a[i];
            let y = b[i];
            let z = c[i];
            assert(b[i] & !c[i] == 0);
            assert(x & !z == 0) by (bit_vector)
                requires
                    x & !y == 0,
                    y & !z == 0,
            ;
        }
    }
}

/// The bytes of some Bloom filters: per filter its bits rounded up to bytes,
/// and one byte more.
pub open spec fn bloom_bytes(bit_counts: Seq<Option<u32>>, n: int) -> int
    decreases n,
{
    if n <= 0 {
        0
    } else {
        bloom_bytes(bit_counts, n - 1) + match bit_counts[n - 1] {
            Some(bits) => (bits + 7) / 8 + 1,
            None => 0,
        }
    }
}

/// A number of bytes, at most the largest representable one.
pub open spec fn saturated(bytes: int) -> int {
    lesser(bytes, u64::MAX as int)
}

/// The resident bytes of one synopsis of an index: the fixed part, one part
/// per field, and the Bloom bytes.
pub open spec fn synopsis_bytes(bit_counts: Seq<Option<u32>>) -> int {
    saturated(
        vstd::layout::size_of::<PartitionSynopsis>() + bit_counts.len()
            * vstd::layout::size_of::<FieldSynopsis>() + bloom_bytes(
            bit_counts,
            bit_counts.len() as int,
        ),
    )
}

/// Returns the resident estimate of one in-memory synopsis: `bit_counts` has
/// one element per schema field, with the size of its Bloom filter if it keeps
/// one.
pub fn synopsis_estimate(bit_counts: &Vec<Option<u32>>) -> (res: u64)
    ensures
        res == synopsis_bytes(bit_counts@),
{
    let mut bloom: u64 = 0;
    let mut i: usize = 0;
    while i < bit_counts.len()
        invariant
            i <= bit_counts@.len(),
            bloom == saturated(bloom_bytes(bit_counts@, i as int)),
            bloom_bytes(bit_counts@, i as int) >= 0,
        decreases bit_counts@.len() - i,
    {
        if let Some(bits) = bit_counts[i] {
            let bytes: u64 = (bits as u64 + 7) / 8 + 1;
            bloom = bloom.saturating_add(bytes);
        }
        i = i + 1;
    }
    let fixed: u64 = size_of::<PartitionSynopsis>() as u64;
    let field: u64 = size_of::<FieldSynopsis>() as u64;
    let fields: u64 = match (bit_counts.len() as u64).checked_mul(field) {
        Some(bytes) => bytes,
        None => u64::MAX,
    };
    fixed.saturating_add(fields).saturating_add(bloom)
}

} // verus!
