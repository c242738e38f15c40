//! An embeddable graph database core: a directed, typed, property-bearing
//! multigraph engine with a composable query algebra, an in-memory
//! datastore behind a single reader-writer lock, and a binary wire codec.
//!
//! Every operation of the engine carries a contract over the mathematical
//! value of the store, and the codec's decoders are proved to recover
//! exactly what the encoders wrote.

pub mod errors;
pub mod ident;
pub mod types;
pub mod models;
pub mod json;
pub mod queries;
pub mod engine;
pub mod datastore;
pub mod codec;
pub mod laws;
pub mod keys;
