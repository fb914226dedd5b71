//! Decides how a local directory tree and a remote storage zone are brought
//! in line with each other, from file sizes and modification times.
//!
//! The crate holds the decisions only: how paths of the two sides map onto
//! each other, which entries an exclusion list removes, how a remote
//! namespace is walked level by level, and which transfers and deletions a
//! run consists of. Reading directories, talking to the storage service and
//! writing files are left to the caller.

pub mod config;
pub mod exclude;
pub mod filemap;
pub mod laws;
pub mod model;
pub mod paths;
pub mod remote;
pub mod sync;
pub mod text;
