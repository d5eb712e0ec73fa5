//! Persisting and retrieving row batches through a byte-addressable
//! source.

pub mod adapter;
pub mod memory;
