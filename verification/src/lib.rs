//! Cache layer of a virtual filesystem over a remote drive: a pool of
//! directory snapshots with bounded staleness, sequential streaming readers,
//! and a size-bounded disk cache of files with deferred write-back.
//!
//! Everything here is a decision procedure over plain values. Network and
//! disk transfers are carried out by the caller, which feeds their outcomes
//! back in.

pub mod error;
pub mod lru;
pub mod slab;
pub mod download;
pub mod stream;
pub mod cache;
pub mod dir;
pub mod disk;
pub mod file;
