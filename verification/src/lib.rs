//! Streaming deduplication of text corpora by 64-bit content fingerprint.
//!
//! Records (raw lines, or structured sentences whose synthetic root token is
//! ignored) are mapped to xxHash64 digests under a per-run seed.  A dedup
//! engine keeps the first occurrence of each fingerprint; a disjoin engine
//! removes from a keep stream every record whose fingerprint occurs in a
//! remove stream.  Both preserve input order and report how many records and
//! how many distinct fingerprints they saw.

pub mod engine;
pub mod fingerprint;
pub mod pipeline;
pub mod sentence;
