//! Verified core of a desktop-application launcher backend.
//!
//! The library discovers launchable applications from desktop-entry files:
//! it parses the `Name=` and `Exec=` fields out of file contents, merges the
//! per-worker parse results into a single catalog in which user-directory
//! entries override system-directory ones, and selects the entry matching a
//! chosen display label.  All filesystem, environment and subprocess work
//! stays outside the library; every function here operates on plain byte
//! values and carries a proved contract.

pub mod catalog;
pub mod entry;
pub mod errors;
pub mod parse;
pub mod paths;
pub mod shards;
pub mod text;
