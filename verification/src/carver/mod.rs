//! Signature-based carving of files out of raw disk bytes.
pub mod engine;
pub mod signatures;
