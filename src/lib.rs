//! A hash-linked ledger: transactions and blocks with deterministic digests,
//! a chain that enforces linkage by digest, and loading from a document stream.
pub mod hash;
pub mod block;
pub mod chain;
pub mod decimal;
pub mod document;
pub mod hex;
pub mod transaction;
