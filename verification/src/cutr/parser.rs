//! The executable parser, proved against the model in `selection`.
//!
//! It works in the steps of the model: `tokenize` cuts the list at its
//! commas, `parse_selector` tells the shape of a token and reads its numbers
//! with `parse_position`, `ParsedSelector::range` checks the order of a range
//! and shifts to zero-based positions, and `parse_extraction` gathers the
//! ranges and stops at the first token that has none.

use crate::cutr::error::ParseError;
use crate::cutr::laws::lemma_accepted_iff_well_formed;
use crate::cutr::selection::{
    classify, dash_of, digits_value, first_rejected, is_digit, is_digits, is_range_token,
    is_well_formed, lemma_dash_is_first, lemma_first_rejected_unique, lemma_prefix_value,
    parse, position, span_of, spans_of, splits_at, token_span, tokens, Rejection, Selector,
    Span,
};
use crate::text::{chars_of, find_char, lemma_first_index, string_of, texts};
use std::ops::Range;
use vstd::prelude::*;

verus! {

/// The result of a successful parse: zero-based half-open ranges, one for
/// each token and in the order of the tokens.
pub type Extraction = Vec<Range<usize>>;

/// One token after its numbers were read, still in one-based positions.
#[derive(Debug, Clone, Copy, PartialEq, Eq)]
pub enum ParsedSelector {
    /// A single position.
    Single(usize),
    /// A first and a last position.
    RangePair(usize, usize),
}

impl View for ParsedSelector {
    type V = Selector;

    open spec fn view(&self) -> Selector {
        match self {
            ParsedSelector::Single(n) => Selector::Single(*n as nat),
            ParsedSelector::RangePair(first, second) => Selector::RangePair(
                *first as nat,
                *second as nat,
            ),
        }
    }
}

/// The span that a range stands for.
pub open spec fn span(range: Range<usize>) -> Span {
    Span { start: range.start as nat, end: range.end as nat }
}

/// The spans that a sequence of ranges stands for.
pub open spec fn spans(ranges: Seq<Range<usize>>) -> Seq<Span> {
    Seq::new(ranges.len(), |i: int| span(ranges[i]))
}

/// What a result of the parser says, in terms of the model.
pub open spec fn outcome(res: Result<Extraction, ParseError>) -> Result<Seq<Span>, Rejection> {
    match res {
        Ok(ranges) => Ok(spans(ranges@)),
        Err(error) => Err(error@),
    }
}

/// Cuts a selection list into its tokens: the texts between its commas.
pub fn tokenize(list: &str) -> (found: Vec<String>)
    ensures
        texts(found@) == tokens(list@),
{
    let chars = chars_of(list);
    let n = chars.len();
    let mut found: Vec<String> = Vec::new();
    let mut start: usize = 0;
    assert(chars@.skip(0) == chars@);
    loop
        invariant
            n == chars@.len(),
            chars@ == list@,
            start <= n,
            tokens(chars@) == texts(found@) + tokens(chars@.skip(start as int)),
        decreases n - start,
    {
        let end = find_char(&chars, start, n, ',');
        let token = string_of(&chars, start, end);
        let ghost rest = chars@.skip(start as int);
        assert(token@ == rest.take(end - start));
        found.push(token);
        if end == n {
            return found;
        }
        assert(rest.skip(end - start + 1) == chars@.skip(end + 1));
        start = end + 1;
    }
}

/// Tells whether `chars[from..to]` is one or more decimal digits.
fn all_digits(chars: &Vec<char>, from: usize, to: usize) -> (yes: bool)
    requires
        from <= to <= chars@.len(),
    ensures
        yes == is_digits(chars@.subrange(from as int, to as int)),
{
    let ghost part = chars@.subrange(from as int, to as int);
    if from == to {
        return false;
    }
    let mut i: usize = from;
    while i < to
        invariant
            from <= i <= to <= chars@.len(),
            part == chars@.subrange(from as int, to as int),
            forall|j: int| 0 <= j < i - from ==> is_digit(#[trigger] part[j]),
        decreases to - i,
    {
        let c = chars[i];
        if c < '0' || c > '9' {
            assert(!is_digit(part[i - from]));
            return false;
        }
        i += 1;
    }
    true
}

/// Reads the digits `chars[from..to]` as a number, if the machine can hold
/// it.
fn number_at(chars: &Vec<char>, from: usize, to: usize) -> (number: Option<usize>)
    requires
        from <= to <= chars@.len(),
        is_digits(chars@.subrange(from as int, to as int)),
    ensures
        match number {
            Some(n) => n == digits_value(chars@.subrange(from as int, to as int)),
            None => digits_value(chars@.subrange(from as int, to as int)) > usize::MAX,
        },
{
    let ghost part = chars@.subrange(from as int, to as int);
    let mut value: usize = 0;
    let mut i: usize = from;
    while i < to
        invariant
            from <= i <= to <= chars@.len(),
            part == chars@.subrange(from as int, to as int),
            is_digits(part),
            value == digits_value(part.take(i - from)),
        decreases to - i,
    {
        let c = chars[i];
        assert(is_digit(part[i - from]));
        let digit: usize = (c as u32 - '0' as u32) as usize;
        proof {
            let next = part.take(i - from + 1);
            assert(next.drop_last() == part.take(i - from));
            lemma_prefix_value(part, i - from + 1);
        }
        let tenfold = match value.checked_mul(10) {
            Some(t) => t,
            None => {
                return None;
            },
        };
        value = match tenfold.checked_add(digit) {
            Some(v) => v,
            None => {
                return None;
            },
        };
        i += 1;
    }
    assert(part.take(to - from) == part);
    Some(value)
}

/// Reads `chars[from..to]` as a number that names a position.
fn position_at(chars: &Vec<char>, from: usize, to: usize) -> (res: Result<usize, ParseError>)
    requires
        from <= to <= chars@.len(),
    ensures
        match res {
            Ok(n) => position(chars@.subrange(from as int, to as int)) == Ok::<nat, Rejection>(
                n as nat,
            ),
            Err(error) => position(chars@.subrange(from as int, to as int)) == Err::<
                nat,
                Rejection,
            >(error@),
        },
{
    if all_digits(chars, from, to) {
        match number_at(chars, from, to) {
            Some(n) if n >= 1 => {
                return Ok(n);
            },
            _ => {},
        }
    }
    Err(ParseError::IllegalListValue(string_of(chars, from, to)))
}

/// Reads the token `chars[from..to]`: its shape and its numbers.
fn classify_at(chars: &Vec<char>, from: usize, to: usize) -> (res: Result<
    ParsedSelector,
    ParseError,
>)
    requires
        from <= to <= chars@.len(),
    ensures
        match res {
            Ok(selector) => classify(chars@.subrange(from as int, to as int)) == Ok::<
                Selector,
                Rejection,
            >(selector@),
            Err(error) => classify(chars@.subrange(from as int, to as int)) == Err::<
                Selector,
                Rejection,
            >(error@),
        },
{
    let ghost token = chars@.subrange(from as int, to as int);
    let dash = find_char(chars, from, to, '-');
    if dash < to && all_digits(chars, from, dash) && all_digits(chars, dash + 1, to) {
        proof {
            assert(token.take(dash - from) == chars@.subrange(from as int, dash as int));
            assert(token.skip(dash - from + 1) == chars@.subrange(dash + 1, to as int));
            lemma_first_index(token, '-');
            assert(splits_at(token, dash - from));
            lemma_dash_is_first(token, dash_of(token));
        }
        let first = position_at(chars, from, dash)?;
        let second = position_at(chars, dash + 1, to)?;
        Ok(ParsedSelector::RangePair(first, second))
    } else {
        proof {
            if is_range_token(token) {
                lemma_dash_is_first(token, dash_of(token));
                assert(token.take(dash - from) == chars@.subrange(from as int, dash as int));
                assert(token.skip(dash - from + 1) == chars@.subrange(dash + 1, to as int));
            }
        }
        let n = position_at(chars, from, to)?;
        Ok(ParsedSelector::Single(n))
    }
}

/// Reads a number that is to name a position: decimal digits that denote a
/// number from one up to the largest that the machine's word holds.
pub fn parse_position(text: &str) -> (res: Result<usize, ParseError>)
    ensures
        match res {
            Ok(n) => position(text@) == Ok::<nat, Rejection>(n as nat),
            Err(error) => position(text@) == Err::<nat, Rejection>(error@),
        },
{
    let chars = chars_of(text);
    assert(chars@.subrange(0, chars@.len() as int) == text@);
    position_at(&chars, 0, chars.len())
}

/// Reads one token, such as `3` or `6-8`, without judging the order of a
/// range.
pub fn parse_selector(token: &str) -> (res: Result<ParsedSelector, ParseError>)
    ensures
        match res {
            Ok(selector) => classify(token@) == Ok::<Selector, Rejection>(selector@)
                && selector.is_valid(),
            Err(error) => classify(token@) == Err::<Selector, Rejection>(error@),
        },
{
    let chars = chars_of(token);
    assert(chars@.subrange(0, chars@.len() as int) == token@);
    classify_at(&chars, 0, chars.len())
}

impl ParsedSelector {
    /// Both numbers name a position: they are at least one.
    pub open spec fn is_valid(&self) -> bool {
        match self {
            ParsedSelector::Single(n) => *n >= 1,
            ParsedSelector::RangePair(first, second) => *first >= 1 && *second >= 1,
        }
    }

    /// Turns the selector into the zero-based half-open range it names. A
    /// range that does not run upwards is refused.
    pub fn range(&self) -> (res: Result<Range<usize>, ParseError>)
        requires
            self.is_valid(),
        ensures
            match res {
                Ok(range) => span_of(self@) == Ok::<Span, Rejection>(span(range)),
                Err(error) => span_of(self@) == Err::<Span, Rejection>(error@),
            },
    {
        match *self {
            ParsedSelector::Single(n) => Ok(n - 1..n),
            ParsedSelector::RangePair(first, second) => {
                if first >= second {
                    Err(ParseError::InvalidRangeOrder(first, second))
                } else {
                    Ok(first - 1..second)
                }
            },
        }
    }
}

/// Reads one token down to the range it selects.
pub fn parse_token(token: &str) -> (res: Result<Range<usize>, ParseError>)
    ensures
        match res {
            Ok(range) => token_span(token@) == Ok::<Span, Rejection>(span(range)),
            Err(error) => token_span(token@) == Err::<Span, Rejection>(error@),
        },
{
    parse_selector(token)?.range()
}

/// Parses a selection list such as `1,3,6-8` into zero-based half-open
/// ranges, one for each token and in their order. The first token that
/// cannot be taken ends the parse with its error.
pub fn parse_extraction(range: &str) -> (res: Result<Extraction, ParseError>)
    ensures
        outcome(res) == parse(range@),
        res is Ok <==> forall|i: int|
            0 <= i < tokens(range@).len() ==> is_well_formed(#[trigger] tokens(range@)[i]),
        res matches Ok(ranges) ==> ranges@.len() == tokens(range@).len() && forall|i: int|
            0 <= i < ranges@.len() ==> 0 <= (#[trigger] ranges@[i]).start < ranges@[i].end,
{
    proof {
        lemma_accepted_iff_well_formed(range@);
    }
    let list = tokenize(range);
    let ghost all = tokens(range@);
    let mut ranges: Extraction = Vec::new();
    let mut i: usize = 0;
    while i < list.len()
        invariant
            i <= list@.len(),
            all == tokens(range@),
            all == texts(list@),
            parse(range@) is Ok <==> forall|k: int|
                0 <= k < all.len() ==> is_well_formed(#[trigger] all[k]),
            ranges@.len() == i,
            forall|k: int|
                0 <= k < i ==> token_span(#[trigger] all[k]) == Ok::<Span, Rejection>(
                    span(ranges@[k]),
                ),
            forall|k: int| 0 <= k < i ==> (#[trigger] ranges@[k]).start < ranges@[k].end,
        decreases list@.len() - i,
    {
        match parse_token(list[i].as_str()) {
            Ok(found) => {
                ranges.push(found);
            },
            Err(error) => {
                proof {
                    lemma_first_rejected_unique(
                        all,
                        i as int,
                        choose|k: int| first_rejected(all, k),
                    );
                }
                return Err(error);
            },
        }
        i += 1;
    }
    assert(spans_of(all)->Ok_0 == spans(ranges@));
    Ok(ranges)
}

} // verus!
