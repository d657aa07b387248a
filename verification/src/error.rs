use vstd::prelude::*;

use crate::text::cat;

verus! {

/// Errors that reject a CPML document while building the model.
#[derive(Debug)]
pub enum CpmlError {
    DateParseError(String),
    ValidationError(String),
    ReferenceError(String),
    DuplicateIdError(String),
    TypeMismatchError(String),
}

/// The kind of an error, without its detail.
#[derive(Clone, Copy, Debug, PartialEq, Eq, Structural)]
pub enum ErrorKind {
    DateParse,
    Validation,
    Reference,
    DuplicateId,
    TypeMismatch,
}

/// A failure: the kind of error and its detail text.
pub type Failure = (ErrorKind, Seq<char>);

/// Whether an error is of the given kind with the given detail text.
pub open spec fn fails_with(e: CpmlError, f: Failure) -> bool {
    match e {
        CpmlError::DateParseError(m) => f.0 == ErrorKind::DateParse && m@ == f.1,
        CpmlError::ValidationError(m) => f.0 == ErrorKind::Validation && m@ == f.1,
        CpmlError::ReferenceError(m) => f.0 == ErrorKind::Reference && m@ == f.1,
        CpmlError::DuplicateIdError(m) => f.0 == ErrorKind::DuplicateId && m@ == f.1,
        CpmlError::TypeMismatchError(m) => f.0 == ErrorKind::TypeMismatch && m@ == f.1,
    }
}

/// The text an error displays: its kind, a colon and its detail.
pub open spec fn error_text(e: CpmlError) -> Seq<char> {
    match e {
        CpmlError::DateParseError(m) => "Date parse error: "@ + m@,
        CpmlError::ValidationError(m) => "Validation error: "@ + m@,
        CpmlError::ReferenceError(m) => "Reference not found: "@ + m@,
        CpmlError::DuplicateIdError(m) => "Duplicate ID: "@ + m@,
        CpmlError::TypeMismatchError(m) => "Type mismatch: "@ + m@,
    }
}

impl CpmlError {
    /// The text this error displays, e.g. `Validation error: ...`.
    pub fn message(&self) -> (s: String)
        ensures
            s@ == error_text(*self),
    {
        match self {
            CpmlError::DateParseError(m) => cat("Date parse error: ", m.as_str()),
            CpmlError::ValidationError(m) => cat("Validation error: ", m.as_str()),
            CpmlError::ReferenceError(m) => cat("Reference not found: ", m.as_str()),
            CpmlError::DuplicateIdError(m) => cat("Duplicate ID: ", m.as_str()),
            CpmlError::TypeMismatchError(m) => cat("Type mismatch: ", m.as_str()),
        }
    }
}

} // verus!
