//! Safe pruning of old per-build container images from the GitHub Container Registry.
//!
//! A build leaves an image with a tag of its own behind. This library decides which of these old
//! images, and which of the untagged manifests that they leave behind, can be deleted, without ever
//! touching a version with another tag, or an untagged manifest that a retained tagged version
//! refers to.
//!
//! * [`domain`] holds the rules: how tags are classified, what a plan deletes and keeps, and the
//!   laws that hold of every plan.
//! * [`prune`] makes a run of them, decision by decision, and [`report`] tells what happened.
//! * [`github`] knows the two APIs: what to ask for, and what to make of the answers.
//! * [`cli`], [`config`] and [`policy`] are the settings, [`error`] what can go wrong.
//! * [`text`] and [`time`] are what the rest is written with.
//!
//! The library sends no requests, and reads neither clock nor files. What comes from outside is
//! always an argument, so that each decision is verified for every answer that may come.

pub mod cli;
pub mod config;
pub mod domain;
pub mod error;
pub mod github;
pub mod policy;
pub mod prune;
pub mod report;
pub mod text;
pub mod time;

pub use config::Config;
pub use error::Error;
pub use report::Summary;
