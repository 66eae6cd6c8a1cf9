//! Structured public errors.

use vstd::prelude::*;

verus! {

/// A result whose error is the structured [`Error`].
pub type Result<T> = core::result::Result<T, Error>;

/// The stable category of one failure.
#[derive(Clone, Copy, Debug, PartialEq, Eq, Structural)]
#[non_exhaustive]
pub enum ErrorKind {
    /// A caller value violates the documented limits.
    InvalidArgument,
    /// The Index Name already maps to a differently configured index.
    IndexAlreadyExists,
    /// No index exists under the name.
    IndexNotFound,
    /// The index is being dropped.
    IndexDropping,
    /// An insert names a Record ID that already exists.
    RecordAlreadyExists,
    /// The persisted format is not supported.
    UnsupportedFormat,
    /// The backend does not support the operation.
    Unsupported,
    /// The transaction exceeds the backend's admission limits.
    TransactionTooLarge,
    /// A resource limit was reached.
    LimitExceeded,
    /// Bounded contention retries were exhausted.
    ContentionExhausted,
    /// The transaction definitely aborted and may be retried.
    RetryableAbort,
    /// Whether the commit applied is unknown.
    CommitOutcomeUnknown,
    /// An identifier space has no unused value left.
    IdExhausted,
    /// The operation's deadline passed.
    DeadlineExceeded,
    /// The operation was cancelled.
    Cancelled,
    /// The runtime no longer admits work.
    RuntimeClosed,
    /// The backend failed.
    Backend,
    /// An unclassified backend failure.
    Other,
    /// Persisted state violates an invariant.
    Corruption,
}

impl ErrorKind {
    /// The text of [`ErrorKind::message`].
    pub open spec fn text(self) -> Seq<char> {
        match self {
            ErrorKind::InvalidArgument => "invalid argument"@,
            ErrorKind::IndexAlreadyExists => "index already exists"@,
            ErrorKind::IndexNotFound => "index not found"@,
            ErrorKind::IndexDropping => "index is being dropped"@,
            ErrorKind::RecordAlreadyExists => "record already exists"@,
            ErrorKind::UnsupportedFormat => "unsupported format"@,
            ErrorKind::Unsupported => "backend does not support operation"@,
            ErrorKind::TransactionTooLarge => "transaction too large"@,
            ErrorKind::LimitExceeded => "limit exceeded"@,
            ErrorKind::ContentionExhausted => "contention retries exhausted"@,
            ErrorKind::RetryableAbort => "transaction aborted, retry"@,
            ErrorKind::CommitOutcomeUnknown => "commit outcome unknown"@,
            ErrorKind::IdExhausted => "identifier space exhausted"@,
            ErrorKind::DeadlineExceeded => "deadline exceeded"@,
            ErrorKind::Cancelled => "operation cancelled"@,
            ErrorKind::RuntimeClosed => "runtime closed"@,
            ErrorKind::Backend => "backend error"@,
            ErrorKind::Other => "unclassified backend error"@,
            ErrorKind::Corruption => "corruption detected"@,
        }
    }

    /// The stable human-readable message of this category.
    pub fn message(self) -> (res: &'static str)
        ensures
            res@ == self.text(),
    {
        match self {
            ErrorKind::InvalidArgument => "invalid argument",
            ErrorKind::IndexAlreadyExists => "index already exists",
            ErrorKind::IndexNotFound => "index not found",
            ErrorKind::IndexDropping => "index is being dropped",
            ErrorKind::RecordAlreadyExists => "record already exists",
            ErrorKind::UnsupportedFormat => "unsupported format",
            ErrorKind::Unsupported => "backend does not support operation",
            ErrorKind::TransactionTooLarge => "transaction too large",
            ErrorKind::LimitExceeded => "limit exceeded",
            ErrorKind::ContentionExhausted => "contention retries exhausted",
            ErrorKind::RetryableAbort => "transaction aborted, retry",
            ErrorKind::CommitOutcomeUnknown => "commit outcome unknown",
            ErrorKind::IdExhausted => "identifier space exhausted",
            ErrorKind::DeadlineExceeded => "deadline exceeded",
            ErrorKind::Cancelled => "operation cancelled",
            ErrorKind::RuntimeClosed => "runtime closed",
            ErrorKind::Backend => "backend error",
            ErrorKind::Other => "unclassified backend error",
            ErrorKind::Corruption => "corruption detected",
        }
    }
}

/// One failure: its category, the failing batch input position where one is
/// to blame, and the rendered text of the failure that caused it.
pub struct Error {
    /// The stable category.
    kind: ErrorKind,
    /// The zero-based batch input position.
    position: Option<usize>,
    /// The rendered underlying cause, kept for diagnostics only.
    source: Option<String>,
}

/// The mathematical content of an error.
pub ghost struct ErrorView {
    /// The stable category.
    pub kind: ErrorKind,
    /// The zero-based batch input position.
    pub position: Option<usize>,
    /// The rendered underlying cause, kept for diagnostics only.
    pub source: Option<Seq<char>>,
}

impl View for Error {
    type V = ErrorView;

    closed spec fn view(&self) -> ErrorView {
        ErrorView {
            kind: self.kind,
            position: self.position,
            source: match self.source {
                Some(text) => Some(text@),
                None => None,
            },
        }
    }
}

impl Clone for Error {
    fn clone(&self) -> (res: Self)
        ensures
            res == *self,
    {
        let source = match &self.source {
            Some(text) => Some(text.clone()),
            None => None,
        };
        Error { kind: self.kind, position: self.position, source }
    }
}

/// The error of one category with neither position nor cause.
pub closed spec fn plain_error(kind: ErrorKind) -> Error {
    Error { kind, position: None, source: None }
}

/// A plain error holds its category alone.
pub broadcast proof fn plain_error_view(kind: ErrorKind)
    ensures
        (#[trigger] plain_error(kind))@ == (ErrorView { kind, position: None, source: None }),
{
}

/// The decimal digits of `n`, most significant first.
pub open spec fn decimal(n: nat) -> Seq<char>
    decreases n,
{
    if n < 10 {
        seq![digit(n)]
    } else {
        decimal(n / 10).push(digit(n % 10))
    }
}

/// The character of one decimal digit.
pub open spec fn digit(d: nat) -> char {
    (('0' as int) + d) as char
}

/// Appends the decimal digits of `n` to `out`.
pub(crate) fn append_decimal(out: &mut String, n: u64)
    ensures
        final(out)@ == old(out)@ + decimal(n as nat),
    decreases n,
{
    if n >= 10 {
        append_decimal(out, n / 10);
    }
    let d: u64 = n % 10;
    let ghost before = out@;
    proof {
        reveal_strlit("0");
        reveal_strlit("1");
        reveal_strlit("2");
        reveal_strlit("3");
        reveal_strlit("4");
        reveal_strlit("5");
        reveal_strlit("6");
        reveal_strlit("7");
        reveal_strlit("8");
        reveal_strlit("9");
    }
    let text = if d == 0 {
        "0"
    } else if d == 1 {
        "1"
    } else if d == 2 {
        "2"
    } else if d == 3 {
        "3"
    } else if d == 4 {
        "4"
    } else if d == 5 {
        "5"
    } else if d == 6 {
        "6"
    } else if d == 7 {
        "7"
    } else if d == 8 {
        "8"
    } else {
        "9"
    };
    assert(text@ =~= seq![digit(d as nat)]);
    out.append(text);
    if n >= 10 {
        assert(out@ =~= old(out)@ + decimal((n / 10) as nat).push(digit(d as nat)));
    } else {
        assert(out@ =~= old(out)@ + seq![digit(d as nat)]);
    }
}

impl Error {
    /// Creates an error of one category.
    pub fn new(kind: ErrorKind) -> (res: Self)
        ensures
            res == plain_error(kind),
    {
        Error { kind, position: None, source: None }
    }

    /// Creates an error of one category that keeps its rendered cause.
    pub fn with_source(kind: ErrorKind, source: String) -> (res: Self)
        ensures
            res@ == (ErrorView { kind, position: None, source: Some(source@) }),
    {
        Error { kind, position: None, source: Some(source) }
    }

    /// Returns the stable category.
    pub fn kind(&self) -> (res: ErrorKind)
        ensures
            res == self@.kind,
    {
        self.kind
    }

    /// Returns the zero-based batch input position to blame, if any.
    pub fn position(&self) -> (res: Option<usize>)
        ensures
            res == self@.position,
    {
        self.position
    }

    /// The error of a caller value outside the documented limits.
    pub fn invalid_argument() -> (res: Self)
        ensures
            res == plain_error(ErrorKind::InvalidArgument),
    {
        Error::new(ErrorKind::InvalidArgument)
    }

    /// Blames one batch input position, keeping category and cause.
    pub fn at_position(self, position: usize) -> (res: Self)
        ensures
            res@ == (ErrorView { position: Some(position), ..self@ }),
    {
        Error { kind: self.kind, position: Some(position), source: self.source }
    }

    /// The text of [`Error::describe`].
    pub open spec fn description(&self) -> Seq<char> {
        match self@.position {
            Some(position) => self@.kind.text() + " at input position "@ + decimal(position as nat),
            None => self@.kind.text(),
        }
    }

    /// Renders the category's message and, when present, the input position.
    /// The cause is never rendered.
    pub fn describe(&self) -> (res: String)
        ensures
            res@ == self.description(),
    {
        let mut text = String::new();
        text.append(self.kind.message());
        assert(text@ =~= self.kind.text());
        if let Some(position) = self.position {
            text.append(" at input position ");
            append_decimal(&mut text, position as u64);
        }
        text
    }
}

} // verus!
