//! Core logic of a concurrent batch uploader for an object store: file-list
//! partitioning, remote-key derivation, per-file outcome records, and the
//! success/failure tally, each with a verified contract.

pub mod chunks;
pub mod cli;
pub mod keys;
pub mod outcome;
pub mod plan;
pub mod tally;
pub mod walk;
