//! Error values surfaced to API callers: per-field validation errors and
//! general errors carrying a code and a message.
use vstd::prelude::*;

verus! {

/// The broad classes of failure an operation can report.
#[derive(PartialEq, Eq, Structural, Clone, Copy)]
pub enum ErrorCode {
    NotFound,
    Unauthorized,
    Conflict,
    ServerError,
}

/// A validation error tied to one named input field.
pub struct FieldError {
    pub field: String,
    pub message: String,
}

impl FieldError {
    /// A field error from its two texts.
    pub fn new(field: &str, message: &str) -> (r: FieldError)
        ensures
            r.field@ == field@,
            r.message@ == message@,
    {
        FieldError { field: field.to_owned(), message: message.to_owned() }
    }
}

/// The texts of a list of field errors.
pub open spec fn fe_views(s: Seq<FieldError>) -> Seq<(Seq<char>, Seq<char>)> {
    s.map_values(|f: FieldError| (f.field@, f.message@))
}

/// An ordered collection of field errors.
pub struct FieldErrors {
    pub errors: Vec<FieldError>,
}

impl FieldErrors {
    /// An empty collection.
    pub fn new() -> (r: FieldErrors)
        ensures
            r.errors@.len() == 0,
    {
        FieldErrors { errors: Vec::new() }
    }

    /// Append one error.
    pub fn push(&mut self, error: FieldError)
        ensures
            final(self).errors@ == old(self).errors@.push(error),
    {
        self.errors.push(error);
    }

    /// Whether no error was recorded.
    pub fn empty(&self) -> (r: bool)
        ensures
            r == (self.errors@.len() == 0),
    {
        self.errors.len() == 0
    }
}

/// A general failure: a code and a human-readable message.
pub struct GeneralError {
    pub code: ErrorCode,
    pub message: String,
}

} // verus!
