//! A duplicate-file detection engine.
//!
//! The library scans nothing itself: a caller walks the file system, reads
//! each file's bytes, and feeds them to [`db::HashDB`], which digests the
//! content, records first-seen files, detects duplicates, and decides — via
//! a cache of per-directory-pair rules — which file-system action resolves
//! each conflict. The caller performs the returned action.

pub mod cli;
pub mod db;
pub mod digest;
pub mod paths;
pub mod rule;
