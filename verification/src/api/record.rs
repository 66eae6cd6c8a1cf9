//! Vector Records and point-read projections.

use vstd::prelude::*;

use super::error::{plain_error, plain_error_view, Error, ErrorKind, Result};
use super::number::{all_finite, vector_is_finite, Float32};
use super::schema::{schema_view, FieldSchema, FieldSchemaView, Value, ValueView};

verus! {

broadcast use plain_error_view;

/// The longest Record ID, in bytes.
pub const MAX_RECORD_ID_BYTES: usize = 256;

/// The longest Opaque Payload, in bytes.
pub const MAX_PAYLOAD_BYTES: usize = 65_536;

/// Whether bytes are an acceptable Record ID.
pub open spec fn valid_id(id: Seq<u8>) -> bool {
    1 <= id.len() <= MAX_RECORD_ID_BYTES
}

/// Accepts a Record ID of 1 to 256 bytes.
pub fn validate_id(id: &Vec<u8>) -> (res: Result<()>)
    ensures
        res is Ok <==> valid_id(id@),
        res matches Err(error) ==> error == plain_error(ErrorKind::InvalidArgument),
{
    if id.len() == 0 || id.len() > MAX_RECORD_ID_BYTES {
        return Err(Error::invalid_argument());
    }
    Ok(())
}

/// Whether the Record ID at a position is the first unacceptable one.
pub open spec fn first_invalid(ids: Seq<Vec<u8>>, at: int) -> bool {
    &&& 0 <= at < ids.len()
    &&& !valid_id(ids[at]@)
    &&& forall|i: int| 0 <= i < at ==> valid_id((#[trigger] ids[i])@)
}

/// Accepts Record IDs of 1 to 256 bytes; a failure names the first position
/// that is not one.
pub fn validate_ids(ids: &Vec<Vec<u8>>) -> (res: Result<()>)
    ensures
        match res {
            Ok(_) => forall|i: int| 0 <= i < ids@.len() ==> valid_id((#[trigger] ids@[i])@),
            Err(error) => {
                &&& error@.kind == ErrorKind::InvalidArgument
                &&& error@.source is None
                &&& error@.position matches Some(at) && first_invalid(ids@, at as int)
            },
        },
{
    let mut at: usize = 0;
    while at < ids.len()
        invariant
            at <= ids@.len(),
            forall|i: int| 0 <= i < at ==> valid_id((#[trigger] ids@[i])@),
        decreases ids@.len() - at,
    {
        match validate_id(&ids[at]) {
            Ok(_) => {},
            Err(error) => {
                return Err(error.at_position(at));
            },
        }
        at = at + 1;
    }
    Ok(())
}

/// Returns whether two byte strings are the same.
pub fn same_bytes(a: &Vec<u8>, b: &Vec<u8>) -> (res: bool)
    ensures
        res == (a@ == b@),
{
    if a.len() != b.len() {
        return false;
    }
    let mut at: usize = 0;
    while at < a.len()
        invariant
            at <= a@.len(),
            a@.len() == b@.len(),
            forall|i: int| 0 <= i < at ==> a@[i] == b@[i],
        decreases a@.len() - at,
    {
        if a[at] != b[at] {
            return false;
        }
        at = at + 1;
    }
    assert(a@ =~= b@);
    true
}

/// Returns an equal byte string.
pub fn copy_bytes(bytes: &Vec<u8>) -> (res: Vec<u8>)
    ensures
        res@ == bytes@,
{
    let mut copy: Vec<u8> = Vec::new();
    let mut at: usize = 0;
    while at < bytes.len()
        invariant
            at <= bytes@.len(),
            copy@ == bytes@.take(at as int),
        decreases bytes@.len() - at,
    {
        copy.push(bytes[at]);
        assert(copy@ =~= bytes@.take(at + 1));
        at = at + 1;
    }
    assert(copy@ =~= bytes@);
    copy
}

/// One Vector Record: an opaque identity, a vector, typed fields, and an
/// optional Opaque Payload.
pub struct Record {
    id: Vec<u8>,
    vector: Vec<Float32>,
    fields: Vec<Value>,
    payload: Option<Vec<u8>>,
}

/// The mathematical content of a [`Record`].
pub struct RecordView {
    /// The opaque identity.
    pub id: Seq<u8>,
    /// The vector.
    pub vector: Seq<Float32>,
    /// The positional field values.
    pub fields: Seq<ValueView>,
    /// The Opaque Payload.
    pub payload: Option<Seq<u8>>,
}

impl View for Record {
    type V = RecordView;

    closed spec fn view(&self) -> RecordView {
        RecordView {
            id: self.id@,
            vector: self.vector@,
            fields: values_view(self.fields@),
            payload: match self.payload {
                Some(payload) => Some(payload@),
                None => None,
            },
        }
    }
}

/// The content of positional field values.
pub open spec fn values_view(values: Seq<Value>) -> Seq<ValueView> {
    values.map_values(|value: Value| value@)
}

impl RecordView {
    /// Whether identity, vector and payload are within their limits.
    pub open spec fn well_shaped(self) -> bool {
        &&& valid_id(self.id)
        &&& all_finite(self.vector)
        &&& self.payload matches Some(payload) ==> payload.len() <= MAX_PAYLOAD_BYTES
    }

    /// Whether the record belongs in an index of the given shape.
    pub open spec fn fits(self, dimension: int, schema: Seq<FieldSchemaView>) -> bool {
        &&& self.well_shaped()
        &&& self.vector.len() == dimension
        &&& self.fields.len() == schema.len()
        &&& forall|i: int|
            0 <= i < schema.len() ==> (#[trigger] self.fields[i]).fits(
                schema[i].data_type,
                schema[i].nullable,
            )
    }

    /// Whether `new` is this record with negative zeros made positive: all of
    /// them when `complete`, else any number of them.
    pub open spec fn canonicalized(self, new: RecordView, complete: bool) -> bool {
        &&& new.id == self.id
        &&& new.vector == self.vector
        &&& new.payload == self.payload
        &&& new.fields.len() == self.fields.len()
        &&& forall|i: int|
            0 <= i < new.fields.len() ==> super::schema::value_canonicalized(
                self.fields[i],
                #[trigger] new.fields[i],
                complete,
            )
    }
}

/// Validation is idempotent: what it accepted and canonicalized is accepted
/// again, and left as it is.
pub proof fn validated_records_stay(
    record: RecordView,
    accepted: RecordView,
    again: RecordView,
    dimension: int,
    schema: Seq<FieldSchemaView>,
)
    requires
        record.fits(dimension, schema),
        record.canonicalized(accepted, true),
        accepted.canonicalized(again, true),
    ensures
        accepted.fits(dimension, schema),
        again == accepted,
{
    assert(again.fields =~= accepted.fields);
}

impl Record {
    /// Creates a record without payload from an identity of 1 to 256 bytes and
    /// a finite vector.
    pub fn new(id: Vec<u8>, vector: Vec<Float32>, fields: Vec<Value>) -> (res: Result<Self>)
        ensures
            ({
                let content = RecordView {
                    id: id@,
                    vector: vector@,
                    fields: values_view(fields@),
                    payload: None,
                };
                match res {
                    Ok(record) => content.well_shaped() && record@ == content,
                    Err(error) => !content.well_shaped() && error == plain_error(
                        ErrorKind::InvalidArgument,
                    ),
                }
            }),
    {
        let record = Record { id, vector, fields, payload: None };
        record.validate_shape()?;
        Ok(record)
    }

    /// Adds an Opaque Payload of at most 64 KiB.
    pub fn with_payload(self, payload: Vec<u8>) -> (res: Result<Self>)
        ensures
            match res {
                Ok(record) => payload@.len() <= MAX_PAYLOAD_BYTES && record@ == (RecordView {
                    payload: Some(payload@),
                    ..self@
                }),
                Err(error) => payload@.len() > MAX_PAYLOAD_BYTES && error == plain_error(
                    ErrorKind::InvalidArgument,
                ),
            },
    {
        if payload.len() > MAX_PAYLOAD_BYTES {
            return Err(Error::invalid_argument());
        }
        Ok(
            Record {
                id: self.id,
                vector: self.vector,
                fields: self.fields,
                payload: Some(payload),
            },
        )
    }

    /// Accepts a record that fits an index's dimension and schema,
    /// canonicalizing negative zeros.
    pub fn validate(&mut self, dimension: usize, schema: &Vec<FieldSchema>) -> (res: Result<()>)
        ensures
            res is Ok <==> old(self)@.fits(dimension as int, schema_view(schema@)),
            res matches Err(error) ==> error == plain_error(ErrorKind::InvalidArgument),
            old(self)@.canonicalized(final(self)@, res is Ok),
    {
        let ghost before = self@;
        let ghost view = schema_view(schema@);
        self.validate_shape()?;
        if self.vector.len() != dimension || self.fields.len() != schema.len() {
            return Err(Error::invalid_argument());
        }
        let mut at: usize = 0;
        while at < self.fields.len()
            invariant
                at <= self.fields@.len(),
                before == old(self)@,
                before.well_shaped(),
                view == schema_view(schema@),
                before.vector.len() == dimension,
                before.fields.len() == view.len() == self.fields@.len(),
                self.id@ == before.id,
                self.vector@ == before.vector,
                self@.payload == before.payload,
                forall|i: int|
                    0 <= i < at ==> (#[trigger] before.fields[i]).fits(
                        view[i].data_type,
                        view[i].nullable,
                    ),
                forall|i: int|
                    0 <= i < at ==> (#[trigger] self.fields@[i])@ == before.fields[i].canonical(),
                forall|i: int|
                    at <= i < before.fields.len() ==> (#[trigger] self.fields@[i])@
                        == before.fields[i],
            decreases self.fields@.len() - at,
        {
            let ghost now = self.fields@;
            let data_type = schema[at].data_type();
            let nullable = schema[at].is_nullable();
            let value = &mut self.fields[at];
            let res = value.validate_for(data_type, nullable);
            assert(forall|i: int| 0 <= i < now.len() && i != at ==> self.fields@[i] == now[i]);
            if res.is_err() {
                return res;
            }
            at = at + 1;
        }
        Ok(())
    }

    fn validate_shape(&self) -> (res: Result<()>)
        ensures
            res is Ok <==> self@.well_shaped(),
            res matches Err(error) ==> error == plain_error(ErrorKind::InvalidArgument),
    {
        let oversized = match &self.payload {
            Some(payload) => payload.len() > MAX_PAYLOAD_BYTES,
            None => false,
        };
        if self.id.len() == 0 || self.id.len() > MAX_RECORD_ID_BYTES || !vector_is_finite(
            &self.vector,
        ) || oversized {
            return Err(Error::invalid_argument());
        }
        Ok(())
    }

    /// Returns the opaque identity.
    pub fn id(&self) -> (res: &Vec<u8>)
        ensures
            res@ == self@.id,
    {
        &self.id
    }

    /// Returns the vector.
    pub fn vector(&self) -> (res: &Vec<Float32>)
        ensures
            res@ == self@.vector,
    {
        &self.vector
    }

    /// Returns the positional field values.
    pub fn fields(&self) -> (res: &Vec<Value>)
        ensures
            values_view(res@) == self@.fields,
    {
        &self.fields
    }

    /// Returns the Opaque Payload.
    pub fn payload(&self) -> (res: Option<&Vec<u8>>)
        ensures
            match (res, self@.payload) {
                (Some(shown), Some(held)) => shown@ == held,
                (None, None) => true,
                _ => false,
            },
    {
        self.payload.as_ref()
    }
}

/// What a point read shows of an Opaque Payload.
#[non_exhaustive]
pub enum PayloadProjection {
    /// The payload was not requested.
    NotLoaded,
    /// The payload was requested and the record has none.
    Absent,
    /// The requested payload.
    Present(Vec<u8>),
}

/// One Vector Record as a point read shows it.
pub struct StoredRecord {
    id: Vec<u8>,
    vector: Vec<Float32>,
    fields: Vec<Value>,
    payload: PayloadProjection,
}

impl StoredRecord {
    /// The opaque identity.
    pub closed spec fn spec_id(self) -> Seq<u8> {
        self.id@
    }

    /// The vector.
    pub closed spec fn spec_vector(self) -> Seq<Float32> {
        self.vector@
    }

    /// The positional field values.
    pub closed spec fn spec_fields(self) -> Seq<Value> {
        self.fields@
    }

    /// The payload projection.
    pub closed spec fn spec_payload(self) -> PayloadProjection {
        self.payload
    }

    /// Assembles the projection of one stored record.
    pub fn new(
        id: Vec<u8>,
        vector: Vec<Float32>,
        fields: Vec<Value>,
        payload: PayloadProjection,
    ) -> (res: Self)
        ensures
            res.spec_id() == id@,
            res.spec_vector() == vector@,
            res.spec_fields() == fields@,
            res.spec_payload() == payload,
    {
        StoredRecord { id, vector, fields, payload }
    }

    /// Returns the opaque identity.
    pub fn id(&self) -> (res: &Vec<u8>)
        ensures
            res@ == self.spec_id(),
    {
        &self.id
    }

    /// Returns the vector.
    pub fn vector(&self) -> (res: &Vec<Float32>)
        ensures
            res@ == self.spec_vector(),
    {
        &self.vector
    }

    /// Returns the positional field values.
    pub fn fields(&self) -> (res: &Vec<Value>)
        ensures
            res@ == self.spec_fields(),
    {
        &self.fields
    }

    /// Returns the payload projection.
    pub fn payload(&self) -> (res: &PayloadProjection)
        ensures
            *res == self.spec_payload(),
    {
        &self.payload
    }
}

} // verus!
