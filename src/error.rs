//! The errors of the conversions.
use vstd::prelude::*;

verus! {

/// What went wrong in a conversion.
#[derive(Clone, Copy, Debug, PartialEq, Eq, Structural)]
pub enum AiracErrorKind {
    /// The text is not a date of the form `YYYY-MM-DD`, or names a day that
    /// does not exist.
    ParseError,
    /// The identifier does not split into two two-digit parts; it carries
    /// the identifier that was given.
    InvalidIdentifier(u16),
}

/// An error of a conversion: its kind and a message for people.
#[derive(Debug)]
pub struct AiracError {
    pub kind: AiracErrorKind,
    pub details: String,
}

impl AiracError {
    pub fn new(kind: AiracErrorKind, msg: &str) -> (r: AiracError)
        ensures
            r.kind == kind,
            r.details@ == msg@,
    {
        AiracError { kind, details: msg.to_string() }
    }

    /// The message for people.
    pub fn details(&self) -> (r: &str)
        ensures
            r@ == self.details@,
    {
        self.details.as_str()
    }
}

} // verus!
