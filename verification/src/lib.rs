//! Tracks a chosen set of configuration files in a manifest and keeps an
//! archive of their contents in line with it.
//!
//! The library decides; it does not touch the filesystem. A caller hands in
//! what it found (paths, listings, outcomes) and carries out the steps that
//! come back.

pub mod address;
pub mod archive;
pub mod directories;
pub mod error;
pub mod import;
pub mod lifecycle;
pub mod manifest;
pub mod prompt;
pub mod prune;
pub mod repository;
pub mod sync;
pub mod text;
