//! Deterministic, content-addressed fingerprinting of key-value store
//! contents.
//!
//! The library computes, for every key of a simple
//! string/list/set/hash/sorted-set store, a stable 64-bit digest of the
//! key's value in a canonical, order-independent form, and renders one
//! log line per key.  The surrounding binary does the store and file
//! I/O; everything that decides what a fingerprint *is* lives here and
//! is verified.

pub mod canon;
pub mod digest;
pub mod order;
pub mod pipeline;
pub mod record;
