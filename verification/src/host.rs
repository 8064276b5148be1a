//! The host-facing boundary types: the error channel shared by both programs
//! and the plain view of an account that the host hands to an invocation.

use vstd::prelude::*;
use crate::bytes::Address;

verus! {

/// The error channel of the host runtime.  A program-specific error is
/// surfaced as `Custom` carrying that error's numeric code; the remaining
/// variants are the host-level errors the programs raise themselves.
#[derive(Clone, Copy, Debug, PartialEq, Eq, Structural)]
pub enum ProgramError {
    /// A program-specific error, by its numeric code.
    Custom(u32),
    /// A recognized instruction carried a malformed payload, or a command's
    /// argument was rejected.
    InvalidInstructionData,
    /// An account buffer was missing or did not hold a well-formed record.
    InvalidAccountData,
}

/// One account as the host presents it: its address and the mutable byte
/// buffer backing it.  The programs only ever rewrite bytes in place; the
/// buffer's length never changes.
#[derive(Clone)]
pub struct Account {
    pub key: Address,
    pub data: Vec<u8>,
}

} // verus!
