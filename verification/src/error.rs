//! The ways in which a query on a document can fail.
use vstd::prelude::*;

verus! {

/// What went wrong, in mathematical form: text as sequences of characters.
pub enum Fault {
    /// A segment opens with `[` but is not `[`, decimal digits, `]`.
    ArrayAccessWithoutIndex,
    /// A segment is `[`, decimal digits, `]`, and the number does not fit an index.
    ArrayAccessWithInvalidIndex,
    /// A key is missing, and the caller asked for that to be an error.
    IdentifierNotFoundInDocument(Seq<char>),
    /// An index is past the end of an array: the index, then the array's length.
    IndexOutOfBounds(usize, nat),
    /// A table was asked for an index.
    NoIndexInTable(usize),
    /// An array was asked for a key.
    NoIdentifierInArray(Seq<char>),
    /// A leaf was asked for a key.
    QueryingValueAsTable(Seq<char>),
    /// A leaf was asked for an index.
    QueryingValueAsArray(usize),
    /// Nothing is stored at the path.
    NotAvailable(Seq<char>),
    /// The node at the path has another type: the expected name, then the actual one.
    TypeError(Seq<char>, Seq<char>),
}

/// What went wrong.
#[derive(Debug, Clone, PartialEq, Eq)]
pub enum ErrorKind {
    /// A segment opens with `[` but is not `[`, decimal digits, `]`.
    ArrayAccessWithoutIndex,
    /// A segment is `[`, decimal digits, `]`, and the number does not fit an index.
    ArrayAccessWithInvalidIndex,
    /// A key is missing, and the caller asked for that to be an error.
    IdentifierNotFoundInDocument(String),
    /// An index is past the end of an array: the index, then the array's length.
    IndexOutOfBounds(usize, usize),
    /// A table was asked for an index.
    NoIndexInTable(usize),
    /// An array was asked for a key.
    NoIdentifierInArray(String),
    /// A leaf was asked for a key.
    QueryingValueAsTable(String),
    /// A leaf was asked for an index.
    QueryingValueAsArray(usize),
    /// Nothing is stored at the path.
    NotAvailable(String),
    /// The node at the path has another type: the expected name, then the actual one.
    TypeError(&'static str, &'static str),
}

impl View for ErrorKind {
    type V = Fault;

    open spec fn view(&self) -> Fault {
        match self {
            ErrorKind::ArrayAccessWithoutIndex => Fault::ArrayAccessWithoutIndex,
            ErrorKind::ArrayAccessWithInvalidIndex => Fault::ArrayAccessWithInvalidIndex,
            ErrorKind::IdentifierNotFoundInDocument(k) => Fault::IdentifierNotFoundInDocument(k@),
            ErrorKind::IndexOutOfBounds(i, n) => Fault::IndexOutOfBounds(*i, *n as nat),
            ErrorKind::NoIndexInTable(i) => Fault::NoIndexInTable(*i),
            ErrorKind::NoIdentifierInArray(k) => Fault::NoIdentifierInArray(k@),
            ErrorKind::QueryingValueAsTable(k) => Fault::QueryingValueAsTable(k@),
            ErrorKind::QueryingValueAsArray(i) => Fault::QueryingValueAsArray(*i),
            ErrorKind::NotAvailable(p) => Fault::NotAvailable(p@),
            ErrorKind::TypeError(expected, actual) => Fault::TypeError(expected@, actual@),
        }
    }
}

/// An error of this library: a kind, and nothing else.
#[derive(Debug, Clone, PartialEq, Eq)]
pub struct Error {
    kind: ErrorKind,
}

impl View for Error {
    type V = Fault;

    closed spec fn view(&self) -> Fault {
        self.kind@
    }
}

impl Error {
    /// The error of the given kind.
    pub fn from_kind(kind: ErrorKind) -> (e: Error)
        ensures
            e@ == kind@,
    {
        Error { kind }
    }

    /// The kind of this error.
    pub fn kind(&self) -> (k: &ErrorKind)
        ensures
            k@ == self@,
    {
        &self.kind
    }
}

} // verus!
