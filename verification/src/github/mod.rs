//! The two APIs that a run talks to, GitHub Packages and the OCI registry: what to ask for, and
//! what to make of the answers. The requests themselves are sent by the caller.

pub mod auth;
pub mod client;
pub mod models;
pub mod packages;
pub mod registry;
