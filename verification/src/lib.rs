//! Engine for PK2 archives: a single container file that packs a tree of
//! named files, each node described by an encrypted 128-byte record.
//!
//! The library holds everything that can be decided from bytes already in
//! memory: the record codec, the walk along a directory's chain of children,
//! path resolution, and the plans for extracting and patching a file. Reading
//! and writing the container, and the block cipher that protects the records,
//! belong to the caller, which hands in decrypted records and performs the
//! reads and writes the library asks for.
//!
//! - `helpers`, `endian`: the format's constants and little-endian numbers;
//! - `entry`: the record and its codec;
//! - `walker`: the children of a directory;
//! - `path`, `resolver`: the entry that a path names;
//! - `engine`: the archive, extraction and patching;
//! - `run`, `patching`: what the operations come to on a whole container,
//!   and the laws that hold of them;
//! - `wire`, `text`: the calls into the `bytes` crate and into std that the
//!   proofs rest on without proving them.

pub mod endian;
pub mod engine;
pub mod entry;
pub mod error;
pub mod helpers;
pub mod patching;
pub mod path;
pub mod resolver;
pub mod run;
pub mod scan;
pub mod text;
pub mod walker;
mod wire;
