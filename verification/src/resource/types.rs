//! The record types stored in the resource program's accounts, together with
//! the instruction opcodes and the capacity constants baked into the account
//! layout.

use vstd::prelude::*;
use crate::bytes::spec_empty_address;
pub use crate::bytes::{Address, PUBLIC_KEY_SIZE};

verus! {

pub const INSTRUCTION_DEFAULT: u8 = 0;

pub const INSTRUCTION_RECORD_INTENT: u8 = 1;

pub const INSTRUCTION_RECORD_RESOURCE_INSTANCE: u8 = 2;

pub const INSTRUCTION_INITIATE_DISTRIBUTION: u8 = 3;

pub const INSTRUCTION_RECORD_CHALLENGE: u8 = 4;

pub const INSTRUCTION_CLAIM_CHALLENGE: u8 = 5;

/// One trust relation of a search-engine account.
#[derive(Clone, Copy, Debug, PartialEq, Eq)]
pub struct TrustTableEntry {
    pub to: Address,
    pub value: u8,
}

pub const MAX_TRUST_TABLE_SIZE: usize = 1;

pub const MAX_FRIENDLY_NAME_SIZE: usize = 32;

/// A participant's profile account as the companion search engine lays it out.
#[derive(Clone, Copy, Debug, PartialEq, Eq)]
pub struct SearchEngineAccount {
    pub friendly_name: [u8; MAX_FRIENDLY_NAME_SIZE],
    pub trust_table: [TrustTableEntry; MAX_TRUST_TABLE_SIZE],
}

pub const MAX_ZIP_SIZE: usize = 32;

/// A location, keyed by zip code bytes.
#[derive(Clone, Copy, Debug, PartialEq, Eq)]
pub struct Location {
    pub zip: [u8; MAX_ZIP_SIZE],
}

/// A resource as registered with the companion search engine.
#[derive(Clone, Copy, Debug, PartialEq, Eq)]
pub struct Resource {
    pub address: Address,
    pub name: [u8; MAX_FRIENDLY_NAME_SIZE],
    pub location: Location,
    pub trust_threshold: u8,
}

pub const MAX_NUM_RESOURCE_IN_BUCKET: usize = 3;

/// The resources registered under one location.
#[derive(Clone, Copy, Debug, PartialEq, Eq)]
pub struct ResourceBucket {
    pub location: Location,
    pub addresses: [Address; MAX_NUM_RESOURCE_IN_BUCKET],
}

pub const MAX_INDEX_BUCKETS: usize = 3;

/// The fixed-capacity location index of the companion search engine.
#[derive(Clone, Copy, Debug, PartialEq, Eq)]
pub struct ResourceIndex {
    pub buckets: [ResourceBucket; MAX_INDEX_BUCKETS],
}

/// A pairwise attestation from one participant about another.
#[derive(Clone, Copy, Debug, PartialEq, Eq)]
pub struct Challenge {
    pub from: Address,
    pub to: Address,
    pub value: bool,
}

/// One participant's contributed quantity of the resource.
#[derive(Clone, Copy, Debug, PartialEq, Eq)]
pub struct ResourceInstance {
    pub from: Address,
    pub quantity: u8,
}

pub const MAX_NUM_RECIPIENTS: usize = 4;

pub const MAX_NUM_RESOURCE_INSTANCES: usize = MAX_NUM_RECIPIENTS;

pub const MAX_NUM_CHALLENGES: usize = MAX_NUM_RECIPIENTS * MAX_NUM_RECIPIENTS;

/// The root persistent record of the resource program.  Empty slots in every
/// collection are marked by the all-zero sentinel address in their `from`
/// (respectively key) field.
#[derive(Clone, Copy, Debug, PartialEq, Eq)]
pub struct ResourceDatabase {
    pub is_distributed: bool,
    pub final_quantity: u8,
    pub intents: [Address; MAX_NUM_RECIPIENTS],
    pub instances: [ResourceInstance; MAX_NUM_RESOURCE_INSTANCES],
    pub challenges: [Challenge; MAX_NUM_CHALLENGES],
    pub claims: [Address; MAX_NUM_RECIPIENTS],
}

/// Total encoded size of a `ResourceDatabase`.
pub const RESOURCE_DATABASE_SIZE: usize = 1430;

/// An unused resource-instance slot.
pub open spec fn spec_empty_instance() -> ResourceInstance {
    ResourceInstance { from: spec_empty_address(), quantity: 0u8 }
}

/// An unused challenge slot.
pub open spec fn spec_empty_challenge() -> Challenge {
    Challenge { from: spec_empty_address(), to: spec_empty_address(), value: false }
}

} // verus!
