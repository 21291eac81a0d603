//! The rules of pruning: how a version is classified and what becomes of it. Nothing here
//! reads a clock, a file or the network; the current time is always an argument.

pub mod digests;
pub mod laws;
pub mod plan;
pub mod tag;
