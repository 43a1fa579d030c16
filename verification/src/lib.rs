//! Resolution and pruning engine for a multi-generation package lockfile.
//!
//! A loaded document records, for every workspace of a monorepo, which
//! dependency specifiers were requested and which exact package keys they
//! resolved to, together with a global package registry, global overrides
//! and patch annotations.  The engine answers resolution queries against
//! such a document and produces reduced ("pruned") documents that cover
//! only a chosen subset of workspaces and packages.

pub mod data;
pub mod keys;
pub mod laws;
pub mod mapx;
pub mod prune;
pub mod strutil;
pub mod yamlval;

pub use data::Error;
pub use data::Package;
pub use data::PnpmLockfileData;
