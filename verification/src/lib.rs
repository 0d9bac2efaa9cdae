//! A certified static-asset index.
//!
//! The crate keeps a path-to-asset map together with an authenticated binary
//! search tree over the same paths, produces a compact witness that a path's
//! value (or absence) is consistent with the published root digest, and builds
//! the certification header that carries the witness to a remote verifier.

pub mod assets;
pub mod hash_tree;
pub mod hashing;
pub mod order;
pub mod tree;
