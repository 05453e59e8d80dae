//! Core of an audiobook library scanner: extension classification, tag
//! field resolution, author identity, work aggregation and deduplication,
//! chapter derivation, and cover-art cache naming.
//!
//! All I/O (filesystem walking, tag reading, container parsing, persistence)
//! lives outside this crate; the functions here are pure decision and
//! computation steps over plain values, each with a verified contract.

pub mod chapters;
pub mod covers;
pub mod engine;
pub mod ext;
pub mod folder;
pub mod ids;
pub mod registry;
pub mod strutil;
pub mod tags;
pub mod types;
pub mod work;

