//! Keyed state for stream operators: a byte-oriented storage backend, typed
//! indices over it, a timer service ordered by logical time, and snapshots
//! from which an operator's state can be rebuilt.

pub mod backend;
pub mod codec;
pub mod dataflow;
pub mod error;
pub mod function;
pub mod index;
pub mod laws;
pub mod metrics;
pub mod operator;
pub mod sink;
pub mod snapshot;
pub mod source;
pub mod table;
