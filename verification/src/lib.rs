//! Verified core of a Rust package-ecosystem mirror.
//!
//! The crate models the synchronization engine of an offline mirror: the
//! sharded archive store, the interactive repair tool's input grammar, the
//! manifest-driven toolchain download lists, channel history bookkeeping and
//! generation-based cleanup, the hash-verifying downloader's decision
//! machine, and the path and header computations of the HTTP gateway.
//! Network and file-system work is left to a thin unverified shell that
//! feeds plain values into these functions.

pub mod crates;
pub mod crates_index;
pub mod download;
pub mod json;
pub mod mirror;
pub mod rustup;
pub mod serve;
pub mod text;
pub mod verify;
