//! The resource search engine: a fixed-capacity index of resources keyed by
//! location, plus per-participant profile accounts that cache trust relations
//! and registered intents.

pub mod codec;
pub mod entry;
pub mod error;
pub mod instruction;
pub mod types;
