//! The resource distribution program: a fixed-capacity on-chain database of
//! participant intents, contributed resource instances and pairwise
//! challenges, driven by a small instruction set.

pub mod codec;
pub mod instruction;
pub mod laws;
pub mod entry;
pub mod error;
pub mod state;
pub mod types;
