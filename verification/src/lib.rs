//! A layered configuration resolution engine.
//!
//! The library discovers a chain of configuration documents across nested
//! directories, merges them by proximity-based priority, resolves deferred
//! `{{ ... }}` expression values through a caller-supplied command runner,
//! and decrypts an optional encrypted secrets layer.

pub mod document;
pub mod envmap;
pub mod errors;
pub mod kvseq;
pub mod lookup;
pub mod options;
pub mod paths;
pub mod resolver;
pub mod secrets;
pub mod stackutil;
pub mod store;
pub mod strutil;
pub mod substitute;
pub mod value;
