//! The error taxonomy of the engine.

use vstd::prelude::*;

verus! {

/// Everything that can go wrong inside the engine or at its storage edge.
///
/// `DuplicateTitle` reports an insert conflict: fatal for a single create,
/// a skip-and-warn during a bulk rebuild. `NotFound` reports an absent
/// query or rename target. `StoreUnavailable` means the backing index file
/// could not be reached; `FileSystemError` a failed read, write or rename of
/// a note file. `InvalidTitle` rejects an empty or reserved-prefix title
/// before any mutation happens.
#[derive(Clone, Copy, PartialEq, Eq, Debug)]
pub enum EngineError {
    DuplicateTitle,
    NotFound,
    StoreUnavailable,
    FileSystemError,
    InvalidTitle,
}

impl EngineError {
    /// A short diagnostic text for each refusal, for the surrounding
    /// application to print.
    pub fn message(&self) -> (r: &'static str)
        ensures
            r@ == self.spec_message(),
    {
        match self {
            EngineError::DuplicateTitle => "a note with that title already exists",
            EngineError::NotFound => "no note with that title",
            EngineError::StoreUnavailable => "the index store could not be reached",
            EngineError::FileSystemError => "a note file could not be read or written",
            EngineError::InvalidTitle => "empty/dotfile titles are not accepted",
        }
    }

    pub open spec fn spec_message(&self) -> Seq<char> {
        match self {
            EngineError::DuplicateTitle => "a note with that title already exists"@,
            EngineError::NotFound => "no note with that title"@,
            EngineError::StoreUnavailable => "the index store could not be reached"@,
            EngineError::FileSystemError => "a note file could not be read or written"@,
            EngineError::InvalidTitle => "empty/dotfile titles are not accepted"@,
        }
    }
}

} // verus!
