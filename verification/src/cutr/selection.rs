//! The mathematical model of a selection list such as `1,3,6-8`.
//!
//! A selection list is a sequence of characters. It is cut into tokens at
//! every comma; each token is either a positive decimal number `n`, which
//! selects the half-open span `[n - 1, n)`, or two such numbers joined by a
//! dash, `a-b` with `a < b`, which selects `[a - 1, b)`.

use crate::text::{first_index, lemma_first_index};
use vstd::prelude::*;

verus! {

/// A half-open span `[start, end)` of zero-based positions.
pub struct Span {
    pub start: nat,
    pub end: nat,
}

/// What one token asks for, in the one-based positions that the user wrote.
pub enum Selector {
    /// The single position `n`.
    Single(nat),
    /// The positions from `first` to `second`, both included.
    RangePair(nat, nat),
}

/// What a selection list or one of its tokens is rejected for.
pub enum Rejection {
    /// The quoted text is not a positive number that fits the machine, or
    /// the token it stands for has no recognised shape.
    IllegalListValue(Seq<char>),
    /// A range whose first number is not below its second.
    InvalidRangeOrder(nat, nat),
}

/// An ASCII decimal digit.
pub open spec fn is_digit(c: char) -> bool {
    '0' <= c <= '9'
}

/// The value of a decimal digit.
pub open spec fn digit_value(c: char) -> nat
    recommends
        is_digit(c),
{
    (c as int - '0' as int) as nat
}

/// One or more decimal digits and nothing else.
pub open spec fn is_digits(s: Seq<char>) -> bool {
    &&& s.len() > 0
    &&& forall|i: int| 0 <= i < s.len() ==> is_digit(#[trigger] s[i])
}

/// The number that a string of decimal digits denotes, of any size.
pub open spec fn digits_value(s: Seq<char>) -> nat
    decreases s.len(),
{
    if s.len() == 0 {
        0
    } else {
        10 * digits_value(s.drop_last()) + digit_value(s.last())
    }
}

/// A number that can name a position: at least one, and no larger than the
/// machine's word.
pub open spec fn is_position(n: nat) -> bool {
    1 <= n <= usize::MAX
}

/// The tokens of a selection list: the texts between its commas, in order.
/// A list without a comma is one token, also when it is empty.
pub open spec fn tokens(s: Seq<char>) -> Seq<Seq<char>>
    decreases s.len(),
{
    let comma = first_index(s, ',') as int;
    if comma >= s.len() {
        seq![s]
    } else {
        seq![s.take(comma)] + tokens(s.skip(comma + 1))
    }
}

/// `token` is digits, a dash at `dash`, and digits again.
pub open spec fn splits_at(token: Seq<char>, dash: int) -> bool {
    &&& 0 <= dash < token.len()
    &&& token[dash] == '-'
    &&& is_digits(token.take(dash))
    &&& is_digits(token.skip(dash + 1))
}

/// The token has the shape of a range, `digits-digits`.
pub open spec fn is_range_token(token: Seq<char>) -> bool {
    exists|dash: int| splits_at(token, dash)
}

/// Where the dash of a range token stands.
pub open spec fn dash_of(token: Seq<char>) -> int {
    choose|dash: int| splits_at(token, dash)
}

/// Reads a number that is to name a position: the text must be digits, and
/// what they denote must be a position. A text that fails is rejected as it
/// stands.
pub open spec fn position(text: Seq<char>) -> Result<nat, Rejection> {
    if is_digits(text) && is_position(digits_value(text)) {
        Ok(digits_value(text))
    } else {
        Err(Rejection::IllegalListValue(text))
    }
}

/// Reads one token: its shape, then its numbers.
///
/// The numbers of a range token are read one after the other, each by
/// itself, so that a range is rejected for the first of its numbers that is
/// no position and for that number alone. Any other token is read as one
/// number and rejected whole.
pub open spec fn classify(token: Seq<char>) -> Result<Selector, Rejection> {
    if is_range_token(token) {
        match position(token.take(dash_of(token))) {
            Err(rejection) => Err(rejection),
            Ok(first) => match position(token.skip(dash_of(token) + 1)) {
                Err(rejection) => Err(rejection),
                Ok(second) => Ok(Selector::RangePair(first, second)),
            },
        }
    } else {
        match position(token) {
            Err(rejection) => Err(rejection),
            Ok(n) => Ok(Selector::Single(n)),
        }
    }
}

/// Turns a selector into the zero-based half-open span it names, after
/// checking that a range runs upwards.
pub open spec fn span_of(selector: Selector) -> Result<Span, Rejection> {
    match selector {
        Selector::Single(n) => Ok(Span { start: (n - 1) as nat, end: n }),
        Selector::RangePair(first, second) => if first >= second {
            Err(Rejection::InvalidRangeOrder(first, second))
        } else {
            Ok(Span { start: (first - 1) as nat, end: second })
        },
    }
}

/// The span that one token selects, or why it selects none.
pub open spec fn token_span(token: Seq<char>) -> Result<Span, Rejection> {
    match classify(token) {
        Ok(selector) => span_of(selector),
        Err(rejection) => Err(rejection),
    }
}

/// A token that is written as the grammar asks and whose numbers are
/// positions: digits alone, or digits, a dash and digits with the first
/// number below the second.
pub open spec fn is_well_formed(token: Seq<char>) -> bool {
    ||| is_digits(token) && is_position(digits_value(token))
    ||| exists|dash: int|
        {
            &&& #[trigger] splits_at(token, dash)
            &&& is_position(digits_value(token.take(dash)))
            &&& is_position(digits_value(token.skip(dash + 1)))
            &&& digits_value(token.take(dash)) < digits_value(token.skip(dash + 1))
        }
}

/// `at` is the first token of `list` that selects nothing.
pub open spec fn first_rejected(list: Seq<Seq<char>>, at: int) -> bool {
    &&& 0 <= at < list.len()
    &&& token_span(list[at]) is Err
    &&& forall|i: int| 0 <= i < at ==> token_span(#[trigger] list[i]) is Ok
}

/// The spans of a sequence of tokens, one for each and in their order, or
/// the rejection of the first token that has none.
pub open spec fn spans_of(list: Seq<Seq<char>>) -> Result<Seq<Span>, Rejection> {
    if exists|at: int| first_rejected(list, at) {
        let at = choose|at: int| first_rejected(list, at);
        Err(token_span(list[at])->Err_0)
    } else {
        Ok(Seq::new(list.len(), |i: int| token_span(list[i])->Ok_0))
    }
}

/// What a selection list means: the spans of its tokens.
pub open spec fn parse(s: Seq<char>) -> Result<Seq<Span>, Rejection> {
    spans_of(tokens(s))
}

/// A prefix of a digit string never denotes more than the whole.
pub proof fn lemma_prefix_value(s: Seq<char>, k: int)
    requires
        0 <= k <= s.len(),
    ensures
        digits_value(s.take(k)) <= digits_value(s),
    decreases s.len(),
{
    if k == s.len() {
        assert(s.take(k) == s);
    } else {
        assert(s.drop_last().take(k) == s.take(k));
        lemma_prefix_value(s.drop_last(), k);
    }
}

/// The dash of a range token is the first dash of the token.
pub proof fn lemma_dash_is_first(token: Seq<char>, dash: int)
    requires
        splits_at(token, dash),
    ensures
        dash == first_index(token, '-'),
{
    lemma_first_index(token, '-');
    let first = first_index(token, '-') as int;
    if first < dash {
        assert(token.take(dash)[first] == '-');
    }
}

/// Only one position can be the first rejected token of a list.
pub proof fn lemma_first_rejected_unique(list: Seq<Seq<char>>, a: int, b: int)
    requires
        first_rejected(list, a),
        first_rejected(list, b),
    ensures
        a == b,
{
}

} // verus!
