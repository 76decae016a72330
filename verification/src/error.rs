//! Errors.
use vstd::prelude::*;

verus! {

/// What can go wrong.
#[derive(Debug)]
pub enum Error {
    /// A required parameter has no text.
    MissingParameter(String),
}

} // verus!
