//! The record types stored in the search engine's accounts, the instruction
//! opcodes and the capacity constants of the account layout.

use vstd::prelude::*;
pub use crate::bytes::{Address, PUBLIC_KEY_SIZE};

verus! {

pub const INSTRUCTION_DEFAULT: u8 = 0;

pub const INSTRUCTION_UPDATE_ACCOUNT: u8 = 1;

pub const INSTRUCTION_REGISTER_RESOURCE: u8 = 2;

pub const INSTRUCTION_REGISTER_INTENT: u8 = 3;

/// One trust relation: how much the account's owner trusts `to`.
#[derive(Clone, Copy, Debug, PartialEq, Eq)]
pub struct TrustTableEntry {
    pub to: Address,
    pub value: u8,
}

pub const MAX_TRUST_TABLE_SIZE: usize = 1;

pub const MAX_FRIENDLY_NAME_SIZE: usize = 32;

pub const MAX_NUM_INTENTS: usize = 3;

/// A participant's profile account: a display name, the trust table, and the
/// cached intents the participant registered.
#[derive(Clone, Copy, Debug, PartialEq, Eq)]
pub struct SearchEngineAccount {
    pub friendly_name: [u8; MAX_FRIENDLY_NAME_SIZE],
    pub trust_table: [TrustTableEntry; MAX_TRUST_TABLE_SIZE],
    pub intents: [Address; MAX_NUM_INTENTS],
}

pub const MAX_ZIP_SIZE: usize = 32;

/// A location, keyed by zip code bytes.
#[derive(Clone, Copy, Debug, PartialEq, Eq)]
pub struct Location {
    pub zip: [u8; MAX_ZIP_SIZE],
}

/// A resource registered with the search engine.
#[derive(Clone, Copy, Debug, PartialEq, Eq)]
pub struct Resource {
    pub address: Address,
    pub name: [u8; MAX_FRIENDLY_NAME_SIZE],
    pub location: Location,
    pub trust_threshold: u8,
}

pub const MAX_NUM_RESOURCE_IN_BUCKET: usize = 3;

/// The resources registered under one location.
#[derive(Clone, Copy, Debug, PartialEq, Eq)]
pub struct ResourceBucket {
    pub location: Location,
    pub addresses: [Address; MAX_NUM_RESOURCE_IN_BUCKET],
}

pub const MAX_INDEX_BUCKETS: usize = 3;

/// The search engine's database: a fixed number of location buckets, claimed
/// left to right as locations are first seen.
#[derive(Clone, Copy, Debug, PartialEq, Eq)]
pub struct ResourceIndex {
    pub buckets: [ResourceBucket; MAX_INDEX_BUCKETS],
}

/// Encoded size of a `TrustTableEntry`.
pub const TRUST_TABLE_ENTRY_SIZE: usize = 33;

/// Encoded size of a `SearchEngineAccount`.
pub const SEARCH_ENGINE_ACCOUNT_SIZE: usize = 161;

/// Encoded size of a `Resource`.
pub const RESOURCE_SIZE: usize = 97;

/// Encoded size of a `ResourceBucket`.
pub const RESOURCE_BUCKET_SIZE: usize = 128;

/// Encoded size of a `ResourceIndex`.
pub const RESOURCE_INDEX_SIZE: usize = 384;

} // verus!
