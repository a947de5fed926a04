use vstd::prelude::*;

verus! {

/// Errors of the utility functions.
#[derive(Debug, Clone, PartialEq, Eq)]
pub enum Error {
    /// The bytes are not valid UTF-8: they are up to `valid_up_to`, and the
    /// message says where and how they break.
    Utf8 { valid_up_to: usize, message: String },
    /// An integer did not fit into the target type; the message names both
    /// types.
    Arithmetic(String),
}

} // verus!
