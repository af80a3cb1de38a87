//! Parser for the ART drawing-application document format.
//!
//! An ART file holds a small fixed header, an optional set of named pins,
//! and a compressed payload: application state followed by an ordered
//! action log (strokes, pen changes, layer edits).  The crate provides
//! the arithmetic-coded decompressor that expands the payload and the
//! container parser that walks the decompressed stream, both with full
//! functional contracts.
//!
//! Fields that the wire format stores as IEEE-754 single-precision
//! numbers are kept here as their raw 32-bit patterns, so that every
//! structure stays within verifiable integer arithmetic; callers may
//! reinterpret the bits as they see fit.

pub mod art;
pub mod lzspec;
pub mod lzunpack;
pub mod parser;
pub mod parsespec;

pub use art::{ArtError, ArtFile};
pub use lzunpack::decompress;
