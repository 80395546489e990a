//! The error of the library's readers.
use vstd::prelude::*;

verus! {

/// Why a text could not be read.
#[derive(Debug)]
pub enum MgdError {
    /// The text does not have the expected shape; the message says which.
    Parse(String),
    /// The text stands where a number is expected, and is none.
    Number(String),
}

} // verus!
