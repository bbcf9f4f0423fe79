//! The error taxonomy shared by every fallible operation of the library.
//!
//! Conditions the caller can fix map to [`ErrorClass::CallerFixable`];
//! operational failures inside the library or its storage map to
//! [`ErrorClass::Operational`].

use vstd::prelude::*;

use crate::text::{concat_str, decimal, decimal_string};

verus! {

#[verifier::external_type_specification]
#[verifier::external_body]
pub struct ExIoError(std::io::Error);

/// Classification of an [`Error`]: who can act on it.
#[derive(Debug, Clone, Copy, PartialEq, Eq, Structural)]
pub enum ErrorClass {
    /// The caller can correct the condition and retry.
    CallerFixable,
    /// Operational failure; retrying with unchanged input will not help.
    Operational,
}

/// The error taxonomy for every fallible operation.
#[derive(Debug)]
pub enum Error {
    /// Search admission shed this call instead of queueing it.
    Busy,
    /// A vector's dimensionality does not match the Table's fixed dimension.
    DimensionMismatch { expected: u32, actual: u32 },
    /// The input violates the Table's declared Metadata Schema.
    SchemaViolation { reason: String },
    /// No Table with the given name exists.
    TableNotFound { name: String },
    /// An underlying filesystem operation failed.
    Io(std::io::Error),
    /// A Segment failed validation before use.
    CorruptSegment { detail: String },
}

/// Convenience alias so every fallible signature reads uniformly.
pub type Result<T> = core::result::Result<T, Error>;

/// The class of an error, as a function of its variant alone.
pub open spec fn class_of(e: &Error) -> ErrorClass {
    match e {
        Error::Busy | Error::DimensionMismatch { .. } | Error::SchemaViolation { .. }
        | Error::TableNotFound { .. } => ErrorClass::CallerFixable,
        Error::Io(_) | Error::CorruptSegment { .. } => ErrorClass::Operational,
    }
}

/// The text of every error whose message is fully determined by its fields.
/// (`Io` is excluded: its text embeds the operating system's own message.)
pub open spec fn message_of(e: &Error) -> Seq<char> {
    match e {
        Error::Busy => "search admission shed this call; retry later"@,
        Error::DimensionMismatch { expected, actual } =>
            "dimension mismatch: table expects "@ + decimal(*expected as nat) + ", got "@
                + decimal(*actual as nat),
        Error::SchemaViolation { reason } => "schema violation: "@ + reason@,
        Error::TableNotFound { name } => "table not found: "@ + name@,
        Error::Io(_) => "io error: "@,
        Error::CorruptSegment { detail } => "corrupt segment: "@ + detail@,
    }
}

/// The operating system's description of an I/O error.
///
/// Calls `ToString::to_string` through `io::Error`'s `Display`; nothing is
/// claimed of the text it returns.
#[verifier::external_body]
fn io_error_text(source: &std::io::Error) -> String {
    source.to_string()
}

impl Error {
    /// Reports whether the condition is caller-fixable or operational.
    pub fn class(&self) -> (c: ErrorClass)
        ensures
            c == class_of(self),
    {
        match self {
            Error::Busy
            | Error::DimensionMismatch { .. }
            | Error::SchemaViolation { .. }
            | Error::TableNotFound { .. } => ErrorClass::CallerFixable,
            Error::Io(_) | Error::CorruptSegment { .. } => ErrorClass::Operational,
        }
    }

    /// Human-readable description of the error.
    ///
    /// For every variant but `Io` the text is exactly [`message_of`]; an `Io`
    /// error's text starts with `"io error: "` and continues with the
    /// operating system's description.
    pub fn to_string(&self) -> (s: String)
        ensures
            !(self is Io) ==> s@ == message_of(self),
            self is Io ==> s@.len() >= 10 && s@.subrange(0, 10) == message_of(self),
    {
        match self {
            Error::Busy => String::from_str("search admission shed this call; retry later"),
            Error::DimensionMismatch { expected, actual } => {
                let mut s = String::from_str("dimension mismatch: table expects ");
                let e = decimal_string(*expected as u64);
                s.append(e.as_str());
                s.append(", got ");
                let a = decimal_string(*actual as u64);
                s.append(a.as_str());
                s
            },
            Error::SchemaViolation { reason } => concat_str("schema violation: ", reason.as_str()),
            Error::TableNotFound { name } => concat_str("table not found: ", name.as_str()),
            Error::Io(source) => {
                let text = io_error_text(source);
                let s = concat_str("io error: ", text.as_str());
                proof {
                    reveal_strlit("io error: ");
                    assert(s@.subrange(0, 10) =~= "io error: "@);
                }
                s
            },
            Error::CorruptSegment { detail } => concat_str("corrupt segment: ", detail.as_str()),
        }
    }

    /// The underlying I/O error, the only variant that carries a source.
    pub fn io_source(&self) -> (r: Option<&std::io::Error>)
        ensures
            r is Some <==> self is Io,
    {
        match self {
            Error::Io(source) => Some(source),
            _ => None,
        }
    }

    /// Wraps an I/O failure.
    pub fn from_io(source: std::io::Error) -> (e: Error)
        ensures
            e is Io,
            class_of(&e) == ErrorClass::Operational,
    {
        Error::Io(source)
    }
}

} // verus!
