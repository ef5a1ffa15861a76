//! The failures the engine reports.

use vstd::prelude::*;

verus! {

/// What can go wrong in the engine.
#[derive(Debug, Clone, Copy, PartialEq, Eq, Structural)]
pub enum EngineError {
    /// An explicit lookup named a document that the store does not hold.
    NotFound,
    /// The document store could not take or give a record.
    Storage,
    /// The full-text index failed to ingest or to search.
    Index,
    /// The chunk size and the overlap do not fit together.
    Configuration,
}

/// What is said of a document that is not there.
pub const NOT_FOUND: &'static str = "document not found";

/// What is said of a failure of the store.
pub const STORAGE_FAILED: &'static str = "the document store failed";

/// What is said of a failure of the index.
pub const INDEX_FAILED: &'static str = "the full-text index failed";

/// What is said of sizes that do not fit together.
pub const BAD_CONFIGURATION: &'static str = "the overlap must be smaller than the chunk size";

impl EngineError {
    /// The failure in words.
    pub open spec fn text(self) -> Seq<char> {
        match self {
            EngineError::NotFound => NOT_FOUND@,
            EngineError::Storage => STORAGE_FAILED@,
            EngineError::Index => INDEX_FAILED@,
            EngineError::Configuration => BAD_CONFIGURATION@,
        }
    }

    /// The failure in words.
    pub fn message(&self) -> (r: String)
        ensures
            r@ == self.text(),
    {
        match self {
            EngineError::NotFound => NOT_FOUND.to_owned(),
            EngineError::Storage => STORAGE_FAILED.to_owned(),
            EngineError::Index => INDEX_FAILED.to_owned(),
            EngineError::Configuration => BAD_CONFIGURATION.to_owned(),
        }
    }
}

} // verus!
