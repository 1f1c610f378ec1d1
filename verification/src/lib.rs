//! Finds Cargo projects under a set of scan roots and decides, project by
//! project, whether their build output directory may be removed.
//!
//! The file-system work is done by the caller: the scan, the config lookup,
//! the cleanup and the size walk are state machines that say which path to
//! look at next and take in what was found there.

pub mod cleanup;
pub mod cli;
pub mod config;
pub mod confirm;
pub mod discovery;
pub mod manifest;
pub mod path;
pub mod progress;
pub mod roots;
pub mod size;
pub mod text;
pub mod types;
