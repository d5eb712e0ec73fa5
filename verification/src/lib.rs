//! A columnar, typed in-memory data format together with a protocol for
//! persisting and retrieving batches of that data through a byte-addressable
//! medium.
//!
//! The core pieces are the columnar memory model (data types, buffers,
//! growable builders, null-aware arrays, columns, tables and row batches)
//! and an adapter that serializes a row batch into an addressable byte
//! source and reconstructs it from a stored position.

pub mod array;
pub mod bits;
pub mod buffer;
pub mod column;
pub mod error;
pub mod ipc;
pub mod pool;
pub mod table;
pub mod ty;
