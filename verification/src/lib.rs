//! MycoKV: an in-memory key-value store with dotted, hierarchical keys,
//! reads of whole subtrees as JSON, expiration of keys, and recovery from a
//! write-ahead log. This crate is the engine; every function in it is
//! verified against its contract.
//!
//! - `operation` reads one command line as an operation, `kvmap` processes
//!   operations, `radixtree` is the key index, `atomicheap` the queue of
//!   expirations, `wal` the log as a value.
//! - `kvmap::model` describes the engine as a value and each operation as
//!   a function on such values; `kvmap::theorems` holds what follows.

pub mod atomicheap;
pub mod clock;
pub mod errors;
pub mod eventbroker;
pub mod kvmap;
pub mod num;
pub mod operation;
pub mod parser;
pub mod radixtree;
pub mod text;
pub mod wal;
pub mod worker;
