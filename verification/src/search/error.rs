//! Errors that may be returned by the search engine program.

use vstd::prelude::*;
use crate::host::ProgramError;

verus! {

/// Errors that may be returned by the search engine program.
#[derive(Clone, Copy, Debug, PartialEq, Eq, Structural)]
pub enum SearchEngineError {
    /// Invalid instruction number passed in.
    InvalidInstruction,
    /// The database is full of data and needs to be resized.
    DatabaseFull,
    /// A database bucket can't hold any more addresses.
    BucketFull,
    /// Someone is trying to register intent for a resource that does not
    /// exist in the database.
    ResourceNotRegistered,
}

impl SearchEngineError {
    /// The numeric code under which the host reports this error.
    pub open spec fn spec_code(self) -> u32 {
        match self {
            SearchEngineError::InvalidInstruction => 0,
            SearchEngineError::DatabaseFull => 1,
            SearchEngineError::BucketFull => 2,
            SearchEngineError::ResourceNotRegistered => 3,
        }
    }

    pub fn code(self) -> (r: u32)
        ensures
            r == self.spec_code(),
    {
        match self {
            SearchEngineError::InvalidInstruction => 0,
            SearchEngineError::DatabaseFull => 1,
            SearchEngineError::BucketFull => 2,
            SearchEngineError::ResourceNotRegistered => 3,
        }
    }

    /// The host-level error value this program error is surfaced as.
    pub open spec fn spec_to_program_error(self) -> ProgramError {
        ProgramError::Custom(self.spec_code())
    }
}

impl From<SearchEngineError> for ProgramError {
    fn from(e: SearchEngineError) -> (r: ProgramError) {
        ProgramError::Custom(e.code())
    }
}

impl vstd::std_specs::convert::FromSpecImpl<SearchEngineError> for ProgramError {
    open spec fn obeys_from_spec() -> bool {
        true
    }

    open spec fn from_spec(e: SearchEngineError) -> ProgramError {
        e.spec_to_program_error()
    }
}

} // verus!
