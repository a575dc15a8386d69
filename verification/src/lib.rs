//! Vanity-hash mining for version-control commit objects.
//!
//! A commit object is an ordered block of header lines followed by a body.
//! Its identity is the SHA-1 digest of the serialized text under a fixed
//! length-prefixed framing. This crate models the commit object, the exact
//! framing and digest rendering, the partitioned candidate generator that
//! assigns disjoint slices of the search space to parallel workers, and the
//! channel-based coordinator that races the workers to the first candidate
//! whose digest starts with a wanted hexadecimal prefix.

pub mod commit_info;
pub mod config;
pub mod digits;
pub mod lines;
pub mod search;
pub mod search_manager;
pub mod search_space;
