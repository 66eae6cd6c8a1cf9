//! Foreground Mutation, point-read, operation-control, and import values.

use vstd::prelude::*;

use super::error::{plain_error, plain_error_view, Error, ErrorKind, Result};
use super::identifiers::BatchToken;
use super::record::{same_bytes, valid_id, validate_id, Record, RecordView};
use super::schema::{schema_view, FieldSchema, FieldSchemaView};

verus! {

broadcast use plain_error_view;

/// One Foreground Mutation.
#[non_exhaustive]
pub enum Mutation {
    /// Adds a record whose Record ID must not exist.
    Insert(Record),
    /// Adds or replaces a record.
    Upsert(Record),
    /// Removes the record with a Record ID, if it exists.
    Delete(Vec<u8>),
}

/// The mathematical content of a [`Mutation`].
pub enum MutationView {
    /// Adds a record whose Record ID must not exist.
    Insert(RecordView),
    /// Adds or replaces a record.
    Upsert(RecordView),
    /// Removes the record with a Record ID.
    Delete(Seq<u8>),
}

impl View for Mutation {
    type V = MutationView;

    open spec fn view(&self) -> MutationView {
        match self {
            Mutation::Insert(record) => MutationView::Insert(record@),
            Mutation::Upsert(record) => MutationView::Upsert(record@),
            Mutation::Delete(id) => MutationView::Delete(id@),
        }
    }
}

impl MutationView {
    /// The Record ID the mutation names.
    pub open spec fn id(self) -> Seq<u8> {
        match self {
            MutationView::Insert(record) => record.id,
            MutationView::Upsert(record) => record.id,
            MutationView::Delete(id) => id,
        }
    }

    /// Whether the mutation's record, if it carries one, fits the index.
    pub open spec fn fits(self, dimension: int, schema: Seq<FieldSchemaView>) -> bool {
        match self {
            MutationView::Insert(record) => record.fits(dimension, schema),
            MutationView::Upsert(record) => record.fits(dimension, schema),
            MutationView::Delete(_) => true,
        }
    }

    /// Whether `new` is this mutation with its record canonicalized.
    pub open spec fn canonicalized(self, new: MutationView, complete: bool) -> bool {
        match (self, new) {
            (MutationView::Insert(old), MutationView::Insert(new)) => old.canonicalized(
                new,
                complete,
            ),
            (MutationView::Upsert(old), MutationView::Upsert(new)) => old.canonicalized(
                new,
                complete,
            ),
            (MutationView::Delete(old), MutationView::Delete(new)) => old == new,
            _ => false,
        }
    }
}

impl Mutation {
    /// Returns the Record ID the mutation names.
    pub fn id(&self) -> (res: &Vec<u8>)
        ensures
            res@ == self@.id(),
    {
        match self {
            Mutation::Insert(record) => record.id(),
            Mutation::Upsert(record) => record.id(),
            Mutation::Delete(id) => id,
        }
    }
}

/// How an upsert found its record.
#[derive(Clone, Copy, Debug, PartialEq, Eq, Structural)]
#[non_exhaustive]
pub enum UpsertResult {
    /// The Record ID did not exist.
    Created,
    /// The record was replaced.
    Replaced,
}

/// The outcome of one applied mutation.
#[derive(Clone, Copy, Debug, PartialEq, Eq, Structural)]
#[non_exhaustive]
pub enum MutationOutcome {
    /// The record was inserted.
    Inserted,
    /// The record was inserted or replaced.
    Upserted {
        /// Whether the Record ID existed.
        replaced: bool,
    },
    /// The record was removed, if it existed.
    Deleted {
        /// Whether the Record ID existed.
        existed: bool,
    },
}

/// Returns the result of one insert, given the outcomes of its batch. Another
/// outcome than an insert's comes from a faulty backend.
pub fn insert_result(outcomes: &Vec<MutationOutcome>) -> (res: Result<()>)
    ensures
        match res {
            Ok(()) => outcomes@.len() > 0 && outcomes@[0] == MutationOutcome::Inserted,
            Err(error) => {
                &&& !(outcomes@.len() > 0 && outcomes@[0] == MutationOutcome::Inserted)
                &&& error == plain_error(ErrorKind::Backend)
            },
        },
{
    if outcomes.len() > 0 {
        if let MutationOutcome::Inserted = outcomes[0] {
            return Ok(());
        }
    }
    Err(Error::new(ErrorKind::Backend))
}

/// Returns the result of one upsert, given the outcomes of its batch. Another
/// outcome than an upsert's comes from a faulty backend.
pub fn upsert_result(outcomes: &Vec<MutationOutcome>) -> (res: Result<UpsertResult>)
    ensures
        match res {
            Ok(found) => {
                &&& outcomes@.len() > 0
                &&& outcomes@[0] == (MutationOutcome::Upserted {
                    replaced: found == UpsertResult::Replaced,
                })
            },
            Err(error) => {
                &&& outcomes@.len() > 0 ==> !(outcomes@[0] is Upserted)
                &&& error == plain_error(ErrorKind::Backend)
            },
        },
{
    if outcomes.len() > 0 {
        if let MutationOutcome::Upserted { replaced } = outcomes[0] {
            return if replaced {
                Ok(UpsertResult::Replaced)
            } else {
                Ok(UpsertResult::Created)
            };
        }
    }
    Err(Error::new(ErrorKind::Backend))
}

/// Returns whether one deleted record existed, given the outcomes of its
/// batch. Another outcome than a delete's comes from a faulty backend.
pub fn delete_result(outcomes: &Vec<MutationOutcome>) -> (res: Result<bool>)
    ensures
        match res {
            Ok(existed) => outcomes@.len() > 0 && outcomes@[0] == (MutationOutcome::Deleted {
                existed,
            }),
            Err(error) => {
                &&& outcomes@.len() > 0 ==> !(outcomes@[0] is Deleted)
                &&& error == plain_error(ErrorKind::Backend)
            },
        },
{
    if outcomes.len() > 0 {
        if let MutationOutcome::Deleted { existed } = outcomes[0] {
            return Ok(existed);
        }
    }
    Err(Error::new(ErrorKind::Backend))
}

/// The content of a batch.
pub open spec fn batch_view(mutations: Seq<Mutation>) -> Seq<MutationView> {
    mutations.map_values(|mutation: Mutation| mutation@)
}

/// Whether the mutation at `position` is to blame: its Record ID is not 1 to
/// 256 bytes or repeats an earlier one, or its record does not fit the index.
pub open spec fn bad_mutation(
    batch: Seq<MutationView>,
    position: int,
    dimension: int,
    schema: Seq<FieldSchemaView>,
) -> bool {
    ||| !valid_id(batch[position].id())
    ||| exists|earlier: int|
        0 <= earlier < position && #[trigger] batch[earlier].id() == batch[position].id()
    ||| !batch[position].fits(dimension, schema)
}

fn repeats_id(mutations: &Vec<Mutation>, position: usize) -> (res: bool)
    requires
        position < mutations@.len(),
    ensures
        res == exists|earlier: int|
            0 <= earlier < position && #[trigger] batch_view(mutations@)[earlier].id()
                == batch_view(mutations@)[position as int].id(),
{
    let ghost batch = batch_view(mutations@);
    let mut earlier: usize = 0;
    while earlier < position
        invariant
            earlier <= position < mutations@.len(),
            batch == batch_view(mutations@),
            forall|i: int|
                0 <= i < earlier ==> #[trigger] batch[i].id() != batch[position as int].id(),
        decreases position - earlier,
    {
        assert(batch[earlier as int].id() == mutations@[earlier as int]@.id());
        assert(batch[position as int].id() == mutations@[position as int]@.id());
        if same_bytes(mutations[earlier].id(), mutations[position].id()) {
            return true;
        }
        earlier = earlier + 1;
    }
    false
}

/// Whether the first `n` mutations are acceptable and canonicalized.
pub open spec fn accepted_prefix(
    before: Seq<MutationView>,
    after: Seq<MutationView>,
    n: int,
    dimension: int,
    schema: Seq<FieldSchemaView>,
) -> bool {
    &&& after.len() == before.len()
    &&& forall|i: int| 0 <= i < n ==> !#[trigger] bad_mutation(before, i, dimension, schema)
    &&& forall|i: int| 0 <= i < n ==> before[i].canonicalized(#[trigger] after[i], true)
}

/// Whether the mutations from `n` on are untouched.
pub open spec fn untouched_suffix(
    before: Seq<MutationView>,
    after: Seq<MutationView>,
    n: int,
) -> bool {
    forall|i: int| n <= i < before.len() ==> #[trigger] after[i] == before[i]
}

/// Accepts a batch of distinct mutations that fit an index, canonicalizing
/// their records; otherwise blames the first mutation that is at fault.
pub fn validate_mutations(
    mutations: &mut Vec<Mutation>,
    dimension: usize,
    schema: &Vec<FieldSchema>,
) -> (res: Result<()>)
    ensures
        ({
            let before = batch_view(old(mutations)@);
            let after = batch_view(final(mutations)@);
            let view = schema_view(schema@);
            match res {
                Ok(()) => accepted_prefix(
                    before,
                    after,
                    before.len() as int,
                    dimension as int,
                    view,
                ),
                Err(error) => {
                    &&& error@.kind == ErrorKind::InvalidArgument
                    &&& error@.source is None
                    &&& error@.position matches Some(position) && {
                        &&& position < before.len()
                        &&& bad_mutation(before, position as int, dimension as int, view)
                        &&& accepted_prefix(
                            before,
                            after,
                            position as int,
                            dimension as int,
                            view,
                        )
                        &&& before[position as int].canonicalized(after[position as int], false)
                        &&& untouched_suffix(before, after, position + 1)
                    }
                },
            }
        }),
{
    let ghost before = batch_view(mutations@);
    let ghost view = schema_view(schema@);
    let mut position: usize = 0;
    while position < mutations.len()
        invariant
            before == batch_view(old(mutations)@),
            view == schema_view(schema@),
            mutations@.len() == before.len(),
            position <= before.len(),
            accepted_prefix(
                before,
                batch_view(mutations@),
                position as int,
                dimension as int,
                view,
            ),
            untouched_suffix(before, batch_view(mutations@), position as int),
        decreases before.len() - position,
    {
        let ghost now = mutations@;
        let ghost now_view = batch_view(now);
        proof {
            assert(now_view[position as int] == now[position as int]@);
            assert forall|i: int| 0 <= i <= position implies #[trigger] now_view[i].id()
                == before[i].id() by {
                if i < position {
                    assert(before[i].canonicalized(now_view[i], true));
                }
            }
            assert(before[position as int].canonicalized(now_view[position as int], false));
        }
        let invalid = validate_id(mutations[position].id()).is_err();
        if invalid || repeats_id(mutations, position) {
            proof {
                if !invalid {
                    let i = choose|earlier: int|
                        0 <= earlier < position && #[trigger] now_view[earlier].id()
                            == now_view[position as int].id();
                    assert(before[i].id() == before[position as int].id());
                }
                assert(bad_mutation(before, position as int, dimension as int, view));
            }
            return Err(Error::invalid_argument().at_position(position));
        }
        proof {
            assert forall|earlier: int| 0 <= earlier < position implies #[trigger]
                before[earlier].id() != before[position as int].id() by {
                assert(now_view[earlier].id() == before[earlier].id());
            }
        }
        let checked = match &mut mutations[position] {
            Mutation::Insert(record) => record.validate(dimension, schema),
            Mutation::Upsert(record) => record.validate(dimension, schema),
            Mutation::Delete(_) => Ok(()),
        };
        proof {
            let next = batch_view(mutations@);
            assert(mutations@.len() == now.len());
            assert forall|i: int| 0 <= i < now.len() && i != position implies #[trigger] next[i]
                == now_view[i] by {
                assert(mutations@[i] == now[i]);
            }
            assert(next[position as int] == mutations@[position as int]@);
            assert(before[position as int].canonicalized(next[position as int], checked is Ok));
            if checked is Ok {
                assert(!bad_mutation(before, position as int, dimension as int, view));
            }
        }
        match checked {
            Ok(()) => {},
            Err(error) => {
                assert(bad_mutation(before, position as int, dimension as int, view));
                return Err(error.at_position(position));
            },
        }
        position = position + 1;
    }
    Ok(())
}

/// A validated batch never names one Record ID twice.
pub proof fn accepted_batches_name_distinct_records(
    batch: Seq<MutationView>,
    dimension: int,
    schema: Seq<FieldSchemaView>,
    a: int,
    b: int,
)
    requires
        forall|i: int| 0 <= i < batch.len() ==> !#[trigger] bad_mutation(batch, i, dimension, schema),
        0 <= a < b < batch.len(),
    ensures
        batch[a].id() != batch[b].id(),
{
    assert(!bad_mutation(batch, b, dimension, schema));
}

/// Point-read options.
#[derive(Clone, Copy, Debug, PartialEq, Eq, Structural)]
#[non_exhaustive]
pub struct GetOptions {
    /// Whether the Opaque Payload is loaded.
    include_payload: bool,
}

/// The mathematical content of point-read options.
pub ghost struct GetOptionsView {
    /// Whether the Opaque Payload is loaded.
    pub include_payload: bool,
}

impl View for GetOptions {
    type V = GetOptionsView;

    closed spec fn view(&self) -> GetOptionsView {
        GetOptionsView {
            include_payload: self.include_payload,
        }
    }
}

impl Default for GetOptions {
    fn default() -> (res: Self)
        ensures
            !res@.include_payload,
    {
        GetOptions { include_payload: false }
    }
}

impl GetOptions {
    /// Requests the Opaque Payload.
    pub fn with_payload(self) -> (res: Self)
        ensures
            res@ == (GetOptionsView { include_payload: true }),
    {
        GetOptions { include_payload: true }
    }

    /// Returns whether the Opaque Payload is loaded.
    pub fn includes_payload(self) -> (res: bool)
        ensures
            res == self@.include_payload,
    {
        self.include_payload
    }
}

/// Import Session options.
#[derive(Clone, Copy, Debug, PartialEq, Eq, Structural)]
#[non_exhaustive]
pub struct ImportOptions {
    /// The concurrency ceiling override.
    in_flight_batches: Option<usize>,
}

/// The mathematical content of Import Session options.
pub ghost struct ImportOptionsView {
    /// The concurrency ceiling override.
    pub in_flight_batches: Option<usize>,
}

impl View for ImportOptions {
    type V = ImportOptionsView;

    closed spec fn view(&self) -> ImportOptionsView {
        ImportOptionsView {
            in_flight_batches: self.in_flight_batches,
        }
    }
}

impl Default for ImportOptions {
    fn default() -> (res: Self)
        ensures
            res@.in_flight_batches is None,
    {
        ImportOptions { in_flight_batches: None }
    }
}

impl ImportOptions {
    /// Overrides the positive concurrency ceiling.
    pub fn with_in_flight_batches(self, batches: usize) -> (res: Result<Self>)
        ensures
            match res {
                Ok(options) => batches > 0 && options@ == (ImportOptionsView {
                    in_flight_batches: Some(batches),
                }),
                Err(error) => batches == 0 && error == plain_error(ErrorKind::InvalidArgument),
            },
    {
        if batches == 0 {
            return Err(Error::invalid_argument());
        }
        Ok(ImportOptions { in_flight_batches: Some(batches) })
    }

    /// Returns the concurrency ceiling override.
    pub fn in_flight_batches(self) -> (res: Option<usize>)
        ensures
            res == self@.in_flight_batches,
    {
        self.in_flight_batches
    }
}

/// The result of one accepted import batch.
pub struct ImportBatchResult {
    /// The batch's token.
    pub token: BatchToken,
    /// The batch's outcomes in input order, or its failure.
    pub result: Result<Vec<MutationOutcome>>,
}

/// An accepted batch is as long as it was, and each of its mutations passes on
/// its own and stays the caller's; what a refused batch did not reach is
/// untouched.
pub proof fn accepted_batches_pass_one_by_one(
    before: Seq<MutationView>,
    after: Seq<MutationView>,
    n: int,
    dimension: int,
    schema: Seq<FieldSchemaView>,
    i: int,
)
    requires
        accepted_prefix(before, after, n, dimension, schema),
        n <= before.len(),
    ensures
        after.len() == before.len(),
        0 <= i < n ==> 1 <= before[i].id().len() <= 256 && before[i].fits(dimension, schema)
            && before[i].canonicalized(after[i], true),
        forall|j: int|
            0 <= j < i && i < n ==> #[trigger] before[j].id() != before[i].id(),
        untouched_suffix(before, after, n) && n <= i < before.len() ==> after[i] == before[i],
{
    if 0 <= i < n {
        assert(!bad_mutation(before, i, dimension, schema));
        assert(before[i].canonicalized(after[i], true));
        assert forall|j: int| 0 <= j < i implies #[trigger] before[j].id() != before[i].id() by {}
    }
}

} // verus!
