//! The error returned when a template string cannot be parsed.

use vstd::prelude::*;

verus! {

/// The error a template construction might return.
#[derive(Clone, Copy, Debug, PartialEq, Eq, Structural)]
pub enum EdoError {
    /// An error occurred while parsing the template.
    ParsingError,
}

impl EdoError {
    /// A short human-readable description of the error.
    pub fn description(&self) -> (r: &'static str)
        ensures
            r@ == "Parsing error"@,
    {
        match *self {
            EdoError::ParsingError => "Parsing error",
        }
    }
}

} // verus!
