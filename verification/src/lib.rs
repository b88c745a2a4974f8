//! Block-level deduplication engine for copy-on-write filesystems.
//!
//! The library decides which files may share storage: it validates
//! candidate paths, parses per-extent content checksums, enumerates
//! candidate pairs, and compares two files' checksum sequences to find
//! the extent ranges that are eligible for an extent-sharing request.
//! All filesystem access (stat calls, running the checksum dump tool,
//! issuing share requests) is left to the caller, which hands the
//! results in as plain values.

pub mod checksum;
pub mod driver;
pub mod pairing;
pub mod resolve;
pub mod validate;
pub mod walk;
