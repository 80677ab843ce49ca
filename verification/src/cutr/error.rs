//! Why a selection list is refused, and the words it is refused with.

use crate::cutr::selection::Rejection;
use crate::text::{decimal, push_decimal};
use vstd::prelude::*;
use vstd::string::StringExecFns;

verus! {

/// The failure of a parse. It carries what its message quotes.
#[derive(Debug, PartialEq, Eq)]
pub enum ParseError {
    /// A token, or one number of a range, that cannot be taken: the text is
    /// kept as it was written.
    IllegalListValue(String),
    /// A range whose first number is not lower than its second.
    InvalidRangeOrder(usize, usize),
}

impl View for ParseError {
    type V = Rejection;

    open spec fn view(&self) -> Rejection {
        match self {
            ParseError::IllegalListValue(text) => Rejection::IllegalListValue(text@),
            ParseError::InvalidRangeOrder(first, second) => Rejection::InvalidRangeOrder(
                *first as nat,
                *second as nat,
            ),
        }
    }
}

/// The diagnostic for a rejection, letter for letter.
pub open spec fn message(rejection: Rejection) -> Seq<char> {
    match rejection {
        Rejection::IllegalListValue(text) => "illegal list value: \""@ + text + "\""@,
        Rejection::InvalidRangeOrder(first, second) => "First number in range ("@ + decimal(first)
            + ") must be lower than second number ("@ + decimal(second) + ")"@,
    }
}

impl ParseError {
    /// Renders the diagnostic.
    pub fn to_string(&self) -> (text: String)
        ensures
            text@ == message(self@),
    {
        match self {
            ParseError::IllegalListValue(value) => {
                let mut text = String::from_str("illegal list value: \"");
                text.append(value.as_str());
                text.append("\"");
                text
            },
            ParseError::InvalidRangeOrder(first, second) => {
                let mut text = String::from_str("First number in range (");
                push_decimal(&mut text, *first);
                text.append(") must be lower than second number (");
                push_decimal(&mut text, *second);
                text.append(")");
                text
            },
        }
    }
}

} // verus!
