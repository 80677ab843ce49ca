//! The field delimiter: one byte, given as text.

use vstd::prelude::*;
use vstd::string::{StringExecFns, StringSliceAdditionalSpecFns};

verus! {

/// A delimiter that is longer than one byte.
#[derive(Debug, PartialEq, Eq)]
pub struct InvalidDelimiter {
    /// The delimiter as it was given.
    pub delimiter: String,
}

/// The diagnostic for a delimiter that is no single byte.
pub open spec fn delimiter_message(delimiter: Seq<char>) -> Seq<char> {
    "delimiter \""@ + delimiter + "\" is invalid. It must be a single byte"@
}

impl InvalidDelimiter {
    /// Renders the diagnostic.
    pub fn to_string(&self) -> (text: String)
        ensures
            text@ == delimiter_message(self.delimiter@),
    {
        let mut text = String::from_str("delimiter \"");
        text.append(self.delimiter.as_str());
        text.append("\" is invalid. It must be a single byte");
        text
    }
}

/// Takes the byte that a delimiter consists of. A delimiter of more than
/// one byte, such as two letters or one letter beyond ASCII, is refused.
pub fn delimiter_byte(delimiter: &str) -> (res: Result<u8, InvalidDelimiter>)
    requires
        delimiter@.len() > 0,
    ensures
        match res {
            Ok(byte) => delimiter.spec_bytes() == seq![byte],
            Err(error) => delimiter.spec_bytes().len() > 1 && error.delimiter@ == delimiter@,
        },
{
    let bytes = delimiter.as_bytes();
    if bytes.len() > 1 {
        return Err(InvalidDelimiter { delimiter: String::from_str(delimiter) });
    }
    proof {
        vstd::utf8::encode_utf8_first_scalar(delimiter@);
    }
    Ok(bytes[0])
}

} // verus!
