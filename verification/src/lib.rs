//! Reconstructs whitespace-aligned tabular text (the output of process- or
//! disk-listing utilities, for instance) as a header plus rows: a tokenizer
//! over grapheme clusters, a set-once header model, a nearest-column row
//! aligner, and a type-inference engine over a bounded sample of rows.

pub mod literals;
pub mod schema;
pub mod parser;
pub mod segment;
