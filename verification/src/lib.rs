//! Verified cores of a small family of text-processing command-line tools.
//!
//! The centrepiece is the selector language of a `cut`-style tool: a parser
//! that turns a string such as `"1,7,3-5"` into an ordered list of half-open,
//! zero-based index ranges, and an extractor that applies those ranges to a
//! line of text by byte, by character, or by delimited field.

pub mod extract;
pub mod find;
pub mod head;
pub mod numeral;
pub mod rat;
pub mod selector;
pub mod text;
pub mod uniq;
pub mod wc;
