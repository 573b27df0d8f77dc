//! Verified integer, key, checkpoint and scheduling core of a sampled
//! external-sampling MCCFR solver for multiway poker.

pub mod types;
pub mod float_bits;
pub mod errors;
pub mod keys;
pub mod order;
pub mod digest;
pub mod domains;
pub mod storage;
pub mod config;
pub mod schedule;
pub mod continuation;
pub mod preflop;
pub mod store;
pub mod merge;
pub mod streams;
pub mod census;
pub mod deviator;
pub mod endpoint;
pub mod worker;
pub mod resume;
