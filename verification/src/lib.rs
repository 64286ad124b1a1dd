//! Snapshot block codec.
//!
//! A full block is encoded into a compact, parent-independent buffer for
//! storage inside a snapshot chunk, and decoded back given the parent hash
//! and block number that the chain walk supplies.

pub mod block;
pub mod codec;
pub mod compress;
pub mod dirs;
pub mod hash;
pub mod wire;
