//! A minimal version-control plumbing layer: a content-addressed object
//! store (hashing, compression, header grammar, type validation), a staging
//! index (path-keyed change tracking with metadata-based dirty detection),
//! and the path resolution that derives deterministic storage paths.
//!
//! The crate holds the storage engine itself; reading and writing the files
//! on disk is left to the caller, which hands byte strings in and out.

pub mod cat_file;
pub mod db;
pub mod index;
pub mod paths;
