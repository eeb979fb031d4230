//! An offline NTLM password-recovery engine: a one-shot MD4 digest,
//! a target-hash set with a sound cheap pre-filter, and the pure
//! candidate-matching and batching logic of a multi-worker pipeline.

pub mod codec;
pub mod dispatch;
pub mod lines;
pub mod md4;
pub mod targets;
pub mod worker;
