//! A library for finding duplicate images by perceptual fingerprint.
//!
//! The pipeline splits a list of image paths into balanced chunks, computes a
//! fingerprint per decodable file, merges the per-chunk results, and resolves
//! fingerprint collisions into originals and duplicates using a pixel-count
//! quality tie-break.

pub mod aggregate;
pub mod hashing;
pub mod images;
pub mod quality;
pub mod records;
pub mod resolve;
pub mod split;
pub mod stats;
