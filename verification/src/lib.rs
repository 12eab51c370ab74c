//! Verified core of an e-book to audiobook conversion pipeline.
//!
//! The library covers the logic of the pipeline: text normalization,
//! sentence-aligned chunking, content-addressed cache keys for synthesized
//! speech, selection of speech engines and audio encoders with fallback
//! ordering, per-chapter output planning, and playlist assembly. File and
//! process I/O stay with the caller, which hands plain values in and out.

pub mod config;
pub mod textutil;
pub mod chunk;
pub mod normalize;
pub mod cachekey;
pub mod naming;
pub mod tools;
pub mod cachestore;
pub mod playlist;
pub mod orchestrate;
pub mod extract;
pub mod meta;
pub mod pipeline;
