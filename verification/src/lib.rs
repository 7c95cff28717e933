//! A typed access layer over a transactional, sorted key-value store.
//!
//! The store keeps each database as a sequence of byte-string entries in
//! sorted order, supports read-only snapshot transactions beside a single
//! read-write transaction, and exposes typed tables and positional cursors
//! on top of the raw byte-level operations.

pub mod codec;
pub mod cursor;
pub mod error;
pub mod flags;
pub mod laws;
pub mod order;
pub mod store;
pub mod table;
pub mod txn;
