//! On-chain program logic for a resource distribution ledger and a companion
//! resource search index.
//!
//! The host runtime hands each program a list of accounts (an address plus a
//! fixed-capacity byte buffer) and a raw instruction byte string.  Everything
//! the programs do — decoding instructions, maintaining the fixed-layout
//! records stored in the account buffers, and enforcing the distribution and
//! challenge protocol — is plain computation on those bytes and is verified
//! here.  Reading the buffers from the host and writing them back is the
//! host's side of the boundary.

pub mod bytes;
pub mod host;
pub mod resource;
pub mod search;
pub mod scan;
