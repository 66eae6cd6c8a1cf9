//! Descriptions that never show caller data.

use vstd::prelude::*;

use super::error::{append_decimal, decimal};
use super::identifiers::IndexName;
use super::operation::Mutation;
use super::record::{PayloadProjection, Record, StoredRecord};
use super::schema::{Predicate, Value};
use super::search::{SearchHit, SearchRequest};
use super::verify::{VerifyIssue, VerifyIssueKind};
use crate::maintenance::training::SplitCentroids;

verus! {

impl IndexName {
    /// Describes a name without showing it.
    pub fn describe(&self) -> (res: &'static str)
        ensures
            res@ == "IndexName([REDACTED])"@,
    {
        "IndexName([REDACTED])"
    }
}

impl Predicate {
    /// Describes a predicate without showing it.
    pub fn describe(&self) -> (res: &'static str)
        ensures
            res@ == "Predicate([REDACTED])"@,
    {
        "Predicate([REDACTED])"
    }
}

impl Value {
    /// The text of [`Value::describe`]: the type of the value.
    pub open spec fn description(&self) -> Seq<char> {
        match self {
            Value::Null => "Null"@,
            Value::Bool(_) => "Bool([REDACTED])"@,
            Value::I64(_) => "I64([REDACTED])"@,
            Value::F64(_) => "F64([REDACTED])"@,
            Value::String(_) => "String([REDACTED])"@,
        }
    }

    /// Describes a value by its type alone.
    pub fn describe(&self) -> (res: &'static str)
        ensures
            res@ == self.description(),
    {
        match self {
            Value::Null => "Null",
            Value::Bool(_) => "Bool([REDACTED])",
            Value::I64(_) => "I64([REDACTED])",
            Value::F64(_) => "F64([REDACTED])",
            Value::String(_) => "String([REDACTED])",
        }
    }
}

impl PayloadProjection {
    /// The text of [`PayloadProjection::describe`]: whether there is a payload.
    pub open spec fn description(&self) -> Seq<char> {
        match self {
            PayloadProjection::NotLoaded => "NotLoaded"@,
            PayloadProjection::Absent => "Absent"@,
            PayloadProjection::Present(_) => "Present([REDACTED])"@,
        }
    }

    /// Describes a projection without showing the payload.
    pub fn describe(&self) -> (res: &'static str)
        ensures
            res@ == self.description(),
    {
        match self {
            PayloadProjection::NotLoaded => "NotLoaded",
            PayloadProjection::Absent => "Absent",
            PayloadProjection::Present(_) => "Present([REDACTED])",
        }
    }
}

impl Mutation {
    /// The text of [`Mutation::describe`]: which mutation it is.
    pub open spec fn description(&self) -> Seq<char> {
        match self {
            Mutation::Insert(_) => "Insert([REDACTED])"@,
            Mutation::Upsert(_) => "Upsert([REDACTED])"@,
            Mutation::Delete(_) => "Delete([REDACTED])"@,
        }
    }

    /// Describes a mutation without showing its record.
    pub fn describe(&self) -> (res: &'static str)
        ensures
            res@ == self.description(),
    {
        match self {
            Mutation::Insert(_) => "Insert([REDACTED])",
            Mutation::Upsert(_) => "Upsert([REDACTED])",
            Mutation::Delete(_) => "Delete([REDACTED])",
        }
    }
}

/// How a record with a payload is described.
pub const WITH_PAYLOAD: &'static str =
    "Record { id: \"[REDACTED]\", vector: \"[REDACTED]\", fields: \"[REDACTED]\", payload: Some(\"[REDACTED]\") }";

/// How a record without a payload is described.
pub const WITHOUT_PAYLOAD: &'static str =
    "Record { id: \"[REDACTED]\", vector: \"[REDACTED]\", fields: \"[REDACTED]\", payload: None }";

/// How a stored record is described.
pub const STORED: &'static str =
    "StoredRecord { id: \"[REDACTED]\", vector: \"[REDACTED]\", fields: \"[REDACTED]\", payload: \"[REDACTED]\" }";

impl Record {
    /// The text of [`Record::describe`]: whether there is a payload.
    pub open spec fn description(&self) -> Seq<char> {
        if self@.payload is Some {
            WITH_PAYLOAD@
        } else {
            WITHOUT_PAYLOAD@
        }
    }

    /// Describes a record by whether it has a payload.
    pub fn describe(&self) -> (res: &'static str)
        ensures
            res@ == self.description(),
    {
        if self.payload().is_some() {
            WITH_PAYLOAD
        } else {
            WITHOUT_PAYLOAD
        }
    }
}

impl StoredRecord {
    /// Describes a stored record without showing it.
    pub fn describe(&self) -> (res: &'static str)
        ensures
            res@ == STORED@,
    {
        STORED
    }
}

impl SplitCentroids {
    /// Describes centroids without showing them.
    pub fn describe(&self) -> (res: &'static str)
        ensures
            res@ == "SplitCentroids([REDACTED])"@,
    {
        "SplitCentroids([REDACTED])"
    }
}

/// How an optional number is described.
pub open spec fn optional_number(value: Option<u32>) -> Seq<char> {
    match value {
        Some(number) => "Some("@ + decimal(number as nat) + ")"@,
        None => "None"@,
    }
}

pub(crate) fn append_optional(text: &mut String, value: Option<u32>)
    ensures
        final(text)@ == old(text)@ + optional_number(value),
{
    let ghost before = text@;
    match value {
        Some(number) => {
            text.append("Some(");
            append_decimal(text, number as u64);
            text.append(")");
            assert(text@ =~= before + optional_number(value));
        },
        None => text.append("None"),
    }
}

/// How something that may be there, and is not shown, is described.
pub open spec fn optional_redacted(present: bool) -> Seq<char> {
    if present {
        "Some(\"[REDACTED]\")"@
    } else {
        "None"@
    }
}

fn append_redacted(text: &mut String, present: bool)
    ensures
        final(text)@ == old(text)@ + optional_redacted(present),
{
    if present {
        text.append("Some(\"[REDACTED]\")");
    } else {
        text.append("None");
    }
}

impl SearchRequest {
    /// The text of [`SearchRequest::describe`]: the hit count, whether there is
    /// a Filter Predicate, and the overrides.
    pub open spec fn description(&self) -> Seq<char> {
        "SearchRequest { vector: \"[REDACTED]\", k: "@ + decimal(self.spec_k() as nat)
            + ", predicate: "@ + optional_redacted(self.spec_predicate() is Some) + ", options: "@
            + self.spec_options().description() + " }"@
    }

    /// Describes a request without showing its vector and Filter Predicate.
    pub fn describe(&self) -> (res: String)
        ensures
            res@ == self.description(),
    {
        let mut text = String::new();
        text.append("SearchRequest { vector: \"[REDACTED]\", k: ");
        append_decimal(&mut text, self.k() as u64);
        text.append(", predicate: ");
        append_redacted(&mut text, self.predicate().is_some());
        text.append(", options: ");
        self.options().append_to(&mut text);
        text.append(" }");
        assert(text@ =~= self.description());
        text
    }
}

/// The text of a hit whose distance renders as `distance`.
pub open spec fn hit_description(distance: Seq<char>) -> Seq<char> {
    "SearchHit { id: \"[REDACTED]\", distance: "@ + distance + " }"@
}

impl SearchHit {
    /// Describes a hit, given how its distance renders, without showing its
    /// Record ID.
    pub fn describe(&self, distance: &str) -> (res: String)
        ensures
            res@ == hit_description(distance@),
    {
        let mut text = String::new();
        text.append("SearchHit { id: \"[REDACTED]\", distance: ");
        text.append(distance);
        text.append(" }");
        assert(text@ =~= hit_description(distance@));
        text
    }
}

impl VerifyIssueKind {
    /// The category's name.
    pub open spec fn name_text(self) -> Seq<char> {
        match self {
            VerifyIssueKind::InvalidEncoding => "InvalidEncoding"@,
            VerifyIssueKind::Reachability => "Reachability"@,
            VerifyIssueKind::Membership => "Membership"@,
            VerifyIssueKind::CountMismatch => "CountMismatch"@,
            VerifyIssueKind::RecordProjectionMismatch => "RecordProjectionMismatch"@,
            VerifyIssueKind::SynopsisNotConservative => "SynopsisNotConservative"@,
        }
    }

    /// Returns the category's name.
    pub fn name(self) -> (res: &'static str)
        ensures
            res@ == self.name_text(),
    {
        match self {
            VerifyIssueKind::InvalidEncoding => "InvalidEncoding",
            VerifyIssueKind::Reachability => "Reachability",
            VerifyIssueKind::Membership => "Membership",
            VerifyIssueKind::CountMismatch => "CountMismatch",
            VerifyIssueKind::RecordProjectionMismatch => "RecordProjectionMismatch",
            VerifyIssueKind::SynopsisNotConservative => "SynopsisNotConservative",
        }
    }
}

/// The first `n` bytes, as a list of numbers.
pub open spec fn listed_bytes(bytes: Seq<u8>, n: nat) -> Seq<char>
    decreases n,
{
    if n == 0 {
        Seq::empty()
    } else if n == 1 {
        decimal(bytes[0] as nat)
    } else {
        listed_bytes(bytes, (n - 1) as nat) + ", "@ + decimal(bytes[n - 1] as nat)
    }
}

fn append_hash(text: &mut String, hash: &[u8; 32])
    ensures
        final(text)@ == old(text)@ + "["@ + listed_bytes(hash@, 32) + "]"@,
{
    let ghost before = text@;
    text.append("[");
    let mut at: usize = 0;
    while at < 32
        invariant
            at <= 32,
            text@ == before + "["@ + listed_bytes(hash@, at as nat),
        decreases 32 - at,
    {
        if at > 0 {
            text.append(", ");
        }
        append_decimal(text, hash[at] as u64);
        assert(text@ =~= before + "["@ + listed_bytes(hash@, (at + 1) as nat));
        at = at + 1;
    }
    text.append("]");
}

impl VerifyIssue {
    /// The text of [`VerifyIssue::describe`]: the safe identifiers, and
    /// whether there is a Record ID.
    pub open spec fn description(&self) -> Seq<char> {
        "VerifyIssue { kind: "@ + self.kind.name_text() + ", logical_index_id: LogicalIndexId("@
            + decimal(self.logical_index_id@ as nat) + "), tree_key_hash: "@ + "["@ + listed_bytes(
            self.tree_key_hash@,
            32,
        ) + "]"@ + ", partition_key: PartitionKey("@ + decimal(self.partition_key@ as nat)
            + "), record_id: "@ + optional_redacted(self.record_id is Some) + " }"@
    }

    /// Describes an issue without showing its Record ID.
    pub fn describe(&self) -> (res: String)
        ensures
            res@ == self.description(),
    {
        let mut text = String::new();
        text.append("VerifyIssue { kind: ");
        text.append(self.kind.name());
        text.append(", logical_index_id: LogicalIndexId(");
        append_decimal(&mut text, self.logical_index_id.get());
        text.append("), tree_key_hash: ");
        append_hash(&mut text, &self.tree_key_hash);
        text.append(", partition_key: PartitionKey(");
        append_decimal(&mut text, self.partition_key.get());
        text.append("), record_id: ");
        append_redacted(&mut text, self.record_id.is_some());
        text.append(" }");
        assert(text@ =~= self.description());
        text
    }
}

/// Two records, values or mutations of one shape have one description,
/// whatever the caller put into them.
pub proof fn descriptions_hold_no_caller_data(
    a: Record,
    b: Record,
    first: Value,
    second: Value,
    id: Vec<u8>,
    other: Vec<u8>,
)
    ensures
        (a@.payload is Some) == (b@.payload is Some) ==> a.description() == b.description(),
        first is Bool && second is Bool ==> first.description() == second.description(),
        first is I64 && second is I64 ==> first.description() == second.description(),
        first is F64 && second is F64 ==> first.description() == second.description(),
        first is String && second is String ==> first.description() == second.description(),
        Mutation::Insert(a).description() == Mutation::Insert(b).description(),
        Mutation::Upsert(a).description() == Mutation::Upsert(b).description(),
        Mutation::Delete(id).description() == Mutation::Delete(other).description(),
        PayloadProjection::Present(id).description() == PayloadProjection::Present(
            other,
        ).description(),
{
}

/// Two requests of one hit count and the same overrides have one description,
/// whatever vectors and Filter Predicates they hold, and two issues at one
/// place have one, whatever records they name.
pub proof fn requests_and_issues_hold_no_caller_data(
    a: SearchRequest,
    b: SearchRequest,
    first: VerifyIssue,
    second: VerifyIssue,
)
    requires
        a.spec_k() == b.spec_k(),
        (a.spec_predicate() is Some) == (b.spec_predicate() is Some),
        a.spec_options() == b.spec_options(),
        first.kind == second.kind,
        first.logical_index_id == second.logical_index_id,
        first.tree_key_hash == second.tree_key_hash,
        first.partition_key == second.partition_key,
        (first.record_id is Some) == (second.record_id is Some),
    ensures
        a.description() == b.description(),
        first.description() == second.description(),
{
}

} // verus!
