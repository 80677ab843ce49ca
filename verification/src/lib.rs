//! Verified building blocks for a small family of text utilities.
//!
//! Each module holds the rules of one tool as functions from plain values to
//! plain values, with contracts that say what they return:
//!
//! - `cutr`: the parser for selection lists such as `1,3,6-8`, and the check
//!   of the field delimiter;
//! - `wcr`: counting lines, words, characters and bytes, and the report line;
//! - `headr`: the first lines or bytes of an input, and the header line;
//! - `catr`: numbering lines;
//! - `uniqr`: reporting each line once, with how often it occurs;
//! - `findr`: choosing entries of a directory tree by kind and by name;
//! - `text`: what the others share, such as writing numbers in decimal.
//!
//! Nothing here reads a file or writes to a stream: a program hands the
//! library what it has read and prints what the library gives back.

pub mod catr;
pub mod cutr;
pub mod findr;
pub mod headr;
pub mod text;
pub mod uniqr;
pub mod wcr;
