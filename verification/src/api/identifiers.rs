//! Backend-neutral identifiers.

use vstd::prelude::*;
use vstd::std_specs::cmp::PartialOrdSpec;
use vstd::utf8::encode_utf8;

use super::error::{plain_error, Error, ErrorKind, Result};

verus! {

/// The number of UTF-8 bytes of a text.
pub open spec fn byte_len(text: Seq<char>) -> nat {
    encode_utf8(text).len()
}

/// Returns the number of UTF-8 bytes of `text`.
pub fn byte_length(text: &String) -> (res: usize)
    ensures
        res == byte_len(text@),
{
    text.as_str().as_bytes().len()
}

/// The longest accepted Index Name, in UTF-8 bytes.
pub const MAX_INDEX_NAME_BYTES: usize = 255;

/// The caller-chosen name of one Logical Index: 1 to 255 UTF-8 bytes.
#[derive(PartialEq, Eq, PartialOrd, Ord, Hash)]
pub struct IndexName {
    name: String,
}

impl Clone for IndexName {
    fn clone(&self) -> (res: Self)
        ensures
            res == *self,
    {
        proof {
            use_type_invariant(self);
        }
        IndexName { name: self.name.clone() }
    }
}

impl View for IndexName {
    type V = Seq<char>;

    closed spec fn view(&self) -> Seq<char> {
        self.name@
    }
}

/// Whether `name` is an acceptable Index Name.
pub open spec fn valid_index_name(name: Seq<char>) -> bool {
    1 <= byte_len(name) <= MAX_INDEX_NAME_BYTES
}

impl IndexName {
    #[verifier::type_invariant]
    spec fn accepted(self) -> bool {
        valid_index_name(self.name@)
    }

    /// Accepts a name of 1 to 255 UTF-8 bytes.
    pub fn new(name: String) -> (res: Result<Self>)
        ensures
            match res {
                Ok(accepted) => valid_index_name(name@) && accepted@ == name@,
                Err(error) => !valid_index_name(name@) && error == plain_error(
                    ErrorKind::InvalidArgument,
                ),
            },
    {
        let length: usize = byte_length(&name);
        if length == 0 || length > MAX_INDEX_NAME_BYTES {
            return Err(Error::invalid_argument());
        }
        Ok(IndexName { name })
    }

    /// Returns the name unchanged.
    pub fn as_str(&self) -> (res: &str)
        ensures
            res@ == self@,
            valid_index_name(res@),
    {
        proof {
            use_type_invariant(self);
        }
        self.name.as_str()
    }
}

/// The never-reused identity of one Logical Index: a nonzero integer.
#[derive(Clone, Copy, Debug, PartialEq, Eq, Ord, Hash, Structural)]
pub struct LogicalIndexId {
    value: u64,
}

impl PartialOrd for LogicalIndexId {
    fn partial_cmp(&self, other: &Self) -> (res: Option<core::cmp::Ordering>) {
        if self.value < other.value {
            Some(core::cmp::Ordering::Less)
        } else if self.value == other.value {
            Some(core::cmp::Ordering::Equal)
        } else {
            Some(core::cmp::Ordering::Greater)
        }
    }
}

impl vstd::std_specs::cmp::PartialOrdSpecImpl for LogicalIndexId {
    open spec fn obeys_partial_cmp_spec() -> bool {
        true
    }

    open spec fn partial_cmp_spec(&self, other: &Self) -> Option<core::cmp::Ordering> {
        if self@ < other@ {
            Some(core::cmp::Ordering::Less)
        } else if self@ == other@ {
            Some(core::cmp::Ordering::Equal)
        } else {
            Some(core::cmp::Ordering::Greater)
        }
    }
}

impl View for LogicalIndexId {
    type V = u64;

    closed spec fn view(&self) -> u64 {
        self.value
    }
}

impl LogicalIndexId {
    #[verifier::type_invariant]
    spec fn nonzero(self) -> bool {
        self.value != 0
    }

    /// Accepts a nonzero identity.
    pub fn new(value: u64) -> (res: Result<Self>)
        ensures
            match res {
                Ok(id) => value != 0 && id@ == value,
                Err(error) => value == 0 && error == plain_error(ErrorKind::InvalidArgument),
            },
    {
        if value == 0 {
            Err(Error::invalid_argument())
        } else {
            Ok(LogicalIndexId { value })
        }
    }

    /// Returns the identity as an integer.
    pub fn get(self) -> (res: u64)
        ensures
            res == self@,
            res != 0,
    {
        proof {
            use_type_invariant(&self);
        }
        self.value
    }

    /// Two identities with the same integer are the same identity.
    pub proof fn view_injective(a: Self, b: Self)
        ensures
            a@ == b@ ==> a == b,
    {
    }
}

/// The identity of one partition within its tree: a nonzero integer.
#[derive(Clone, Copy, Debug, PartialEq, Eq, Ord, Hash, Structural)]
pub struct PartitionKey {
    value: u64,
}

impl PartialOrd for PartitionKey {
    fn partial_cmp(&self, other: &Self) -> (res: Option<core::cmp::Ordering>) {
        if self.value < other.value {
            Some(core::cmp::Ordering::Less)
        } else if self.value == other.value {
            Some(core::cmp::Ordering::Equal)
        } else {
            Some(core::cmp::Ordering::Greater)
        }
    }
}

impl vstd::std_specs::cmp::PartialOrdSpecImpl for PartitionKey {
    open spec fn obeys_partial_cmp_spec() -> bool {
        true
    }

    open spec fn partial_cmp_spec(&self, other: &Self) -> Option<core::cmp::Ordering> {
        if self@ < other@ {
            Some(core::cmp::Ordering::Less)
        } else if self@ == other@ {
            Some(core::cmp::Ordering::Equal)
        } else {
            Some(core::cmp::Ordering::Greater)
        }
    }
}

impl View for PartitionKey {
    type V = u64;

    closed spec fn view(&self) -> u64 {
        self.value
    }
}

impl PartitionKey {
    #[verifier::type_invariant]
    spec fn nonzero(self) -> bool {
        self.value != 0
    }

    /// The partition key with the given integer.
    pub closed spec fn of(value: u64) -> Self {
        PartitionKey { value }
    }

    /// Accepts a nonzero key.
    pub fn new(value: u64) -> (res: Result<Self>)
        ensures
            match res {
                Ok(key) => value != 0 && key@ == value,
                Err(error) => value == 0 && error == plain_error(ErrorKind::InvalidArgument),
            },
    {
        if value == 0 {
            Err(Error::invalid_argument())
        } else {
            Ok(PartitionKey { value })
        }
    }

    /// Returns the key as an integer.
    pub fn get(self) -> (res: u64)
        ensures
            res == self@,
            res != 0,
    {
        proof {
            use_type_invariant(&self);
        }
        self.value
    }

    /// The stable root partition of every tree.
    pub fn root() -> (res: Self)
        ensures
            res@ == 1,
            res == PartitionKey::of(1),
    {
        PartitionKey { value: 1 }
    }
}

/// A partition key is determined by its integer.
pub broadcast proof fn partition_key_of_view(key: PartitionKey)
    ensures
        PartitionKey::of(#[trigger] key@) == key,
{
}

/// The integer of the key with a given integer.
pub broadcast proof fn partition_key_view_of(value: u64)
    ensures
        (#[trigger] PartitionKey::of(value))@ == value,
{
}

/// Nonzero identifiers order as their integers do, and are equal exactly when
/// their integers are.
pub proof fn identifiers_order_as_integers(
    a: PartitionKey,
    b: PartitionKey,
    first: LogicalIndexId,
    second: LogicalIndexId,
    one: BatchToken,
    other: BatchToken,
)
    ensures
        a.partial_cmp_spec(&b) == Some(core::cmp::Ordering::Less) <==> a@ < b@,
        a.partial_cmp_spec(&b) == Some(core::cmp::Ordering::Greater) <==> a@ > b@,
        a.partial_cmp_spec(&b) == Some(core::cmp::Ordering::Equal) <==> a == b,
        a == b <==> a@ == b@,
        first.partial_cmp_spec(&second) == Some(core::cmp::Ordering::Less) <==> first@ < second@,
        first.partial_cmp_spec(&second) == Some(core::cmp::Ordering::Equal) <==> first == second,
        first == second <==> first@ == second@,
        one.partial_cmp_spec(&other) == Some(core::cmp::Ordering::Less) <==> one@ < other@,
        one.partial_cmp_spec(&other) == Some(core::cmp::Ordering::Equal) <==> one == other,
        one == other <==> one@ == other@,
{
}

/// The position of one field within a Vector Record schema.
#[derive(Clone, Copy, Debug, PartialEq, Eq, PartialOrd, Ord, Hash, Structural)]
pub struct FieldId(pub u16);

/// The identity of one accepted import batch within its session: nonzero.
#[derive(Clone, Copy, Debug, PartialEq, Eq, Ord, Hash, Structural)]
pub struct BatchToken {
    value: u64,
}

impl PartialOrd for BatchToken {
    fn partial_cmp(&self, other: &Self) -> (res: Option<core::cmp::Ordering>) {
        if self.value < other.value {
            Some(core::cmp::Ordering::Less)
        } else if self.value == other.value {
            Some(core::cmp::Ordering::Equal)
        } else {
            Some(core::cmp::Ordering::Greater)
        }
    }
}

impl vstd::std_specs::cmp::PartialOrdSpecImpl for BatchToken {
    open spec fn obeys_partial_cmp_spec() -> bool {
        true
    }

    open spec fn partial_cmp_spec(&self, other: &Self) -> Option<core::cmp::Ordering> {
        if self@ < other@ {
            Some(core::cmp::Ordering::Less)
        } else if self@ == other@ {
            Some(core::cmp::Ordering::Equal)
        } else {
            Some(core::cmp::Ordering::Greater)
        }
    }
}

impl View for BatchToken {
    type V = u64;

    closed spec fn view(&self) -> u64 {
        self.value
    }
}

impl BatchToken {
    #[verifier::type_invariant]
    spec fn nonzero(self) -> bool {
        self.value != 0
    }

    /// Accepts a nonzero token.
    pub fn new(value: u64) -> (res: Result<Self>)
        ensures
            match res {
                Ok(token) => value != 0 && token@ == value,
                Err(error) => value == 0 && error == plain_error(ErrorKind::InvalidArgument),
            },
    {
        if value == 0 {
            Err(Error::invalid_argument())
        } else {
            Ok(BatchToken { value })
        }
    }

    /// Returns the token as an integer.
    pub fn get(self) -> (res: u64)
        ensures
            res == self@,
            res != 0,
    {
        proof {
            use_type_invariant(&self);
        }
        self.value
    }
}

} // verus!
