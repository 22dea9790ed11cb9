//! What can go wrong with a diary.

use vstd::prelude::*;

verus! {

/// The failures that the diary reports.
#[derive(Clone, Copy, Debug, PartialEq, Eq, Structural)]
pub enum StoreError {
    /// No table was found where one was expected.
    NotFound,
    /// A table stands where a new one was to be made.
    AlreadyExists,
    /// The place of the table could not be read or written.
    Io,
    /// The table refused a read or a write, or holds what no diary wrote.
    Storage,
    /// An argument is not what the command takes.
    Validation,
}

} // verus!
