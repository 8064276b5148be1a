//! Errors that may be returned by the resource distribution program.

use vstd::prelude::*;
use crate::host::ProgramError;

verus! {

/// Errors that may be returned by the resource distribution program.
#[derive(Clone, Copy, Debug, PartialEq, Eq, Structural)]
pub enum ResourceError {
    /// Invalid instruction number passed in.
    InvalidInstruction,
    /// Someone is trying to record a resource instance but there is no empty
    /// space in the array.
    NoResourceInstanceSpace,
    /// Someone is trying to either record a resource instance or re-initiate
    /// a resource distribution, but the resource is being distributed and
    /// can't be modified.
    ResourceInDistribution,
    /// A challenge was recorded while the resource is not being distributed.
    ResourceNotInDistribution,
}

impl ResourceError {
    /// The numeric code under which the host reports this error.
    pub open spec fn spec_code(self) -> u32 {
        match self {
            ResourceError::InvalidInstruction => 0,
            ResourceError::NoResourceInstanceSpace => 1,
            ResourceError::ResourceInDistribution => 2,
            ResourceError::ResourceNotInDistribution => 3,
        }
    }

    pub fn code(self) -> (r: u32)
        ensures
            r == self.spec_code(),
    {
        match self {
            ResourceError::InvalidInstruction => 0,
            ResourceError::NoResourceInstanceSpace => 1,
            ResourceError::ResourceInDistribution => 2,
            ResourceError::ResourceNotInDistribution => 3,
        }
    }

    /// The host-level error value this program error is surfaced as.
    pub open spec fn spec_to_program_error(self) -> ProgramError {
        ProgramError::Custom(self.spec_code())
    }
}

impl From<ResourceError> for ProgramError {
    fn from(e: ResourceError) -> (r: ProgramError) {
        ProgramError::Custom(e.code())
    }
}

impl vstd::std_specs::convert::FromSpecImpl<ResourceError> for ProgramError {
    open spec fn obeys_from_spec() -> bool {
        true
    }

    open spec fn from_spec(e: ResourceError) -> ProgramError {
        e.spec_to_program_error()
    }
}

} // verus!
