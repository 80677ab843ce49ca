//! Field, byte and character selection: the selection-list parser and what
//! stands around it.

pub mod delimiter;
pub mod error;
pub mod laws;
pub mod parser;
pub mod selection;

pub use delimiter::{delimiter_byte, InvalidDelimiter};
pub use error::ParseError;
pub use parser::{
    parse_extraction, parse_position, parse_selector, parse_token, tokenize, Extraction,
    ParsedSelector,
};

use vstd::prelude::*;

verus! {

/// What a run extracts from each line, with the ranges to take.
#[derive(Debug)]
pub enum Extract {
    /// Whole fields, told apart by the delimiter.
    Fields(Extraction),
    /// Bytes.
    Bytes(Extraction),
    /// Characters.
    Chars(Extraction),
}

} // verus!
