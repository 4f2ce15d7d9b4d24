//! Duplicate-file detection: content fingerprints, traversal filtering,
//! bounded scan bookkeeping, write retries and duplicate-set resolution.

pub mod command;
pub mod digest;
pub mod filter;
pub mod hex;
pub mod order;
pub mod record;
pub mod resolver;
pub mod scan;
pub mod writer;
