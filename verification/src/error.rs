//! The errors of the library.
use vstd::prelude::*;

verus! {

/// What went wrong.
#[derive(Debug)]
pub enum GitAiError {
    /// The input of an agent hook cannot be used.
    PresetError(String),
    /// A text is not a JSON document, or a document could not be printed.
    JsonError(String),
    /// Something outside the library failed: reading a repository, writing a file.
    Generic(String),
}

} // verus!
