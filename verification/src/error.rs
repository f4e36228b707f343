//! The errors of the solver.

use vstd::prelude::*;

verus! {

/// The error of the `regex` crate, carried through as it came.
#[verifier::external_type_specification]
#[verifier::external_body]
pub struct ExRegexError(regex::Error);

/// `Clone` of `regex::Error`, which the derived `Clone` below calls. Nothing
/// is claimed of the copy.
pub assume_specification[ <regex::Error as Clone>::clone ](e: &regex::Error) -> regex::Error;

/// Why a row was not applied, or the patterns not compiled.
#[derive(Debug, Clone)]
pub enum SolverError {
    /// The row has not as many cells as the word has letters.
    CellLengthMismatch,
    /// The `regex` crate refused a pattern.
    RegexError(regex::Error),
    /// There are more patterns than the `regex` crate can number.
    TooManyPatterns,
}

impl From<regex::Error> for SolverError {
    fn from(e: regex::Error) -> (error: Self) {
        SolverError::RegexError(e)
    }
}

impl vstd::std_specs::convert::FromSpecImpl<regex::Error> for SolverError {
    open spec fn obeys_from_spec() -> bool {
        true
    }

    open spec fn from_spec(e: regex::Error) -> Self {
        SolverError::RegexError(e)
    }
}

} // verus!
