//! What holds of every selection list, proved of the model that the parser
//! is held to.

use crate::cutr::error::{message, ParseError};
use crate::cutr::parser::{outcome, spans, Extraction};
use crate::cutr::selection::{
    dash_of, digits_value, first_rejected, is_digit, is_digits, is_position, is_range_token,
    is_well_formed, lemma_dash_is_first, parse, spans_of, splits_at, token_span, tokens,
    Rejection, Span,
};
use crate::text::{
    decimal, first_index, joined, lemma_first_index, lemma_first_index_unique,
};
use vstd::prelude::*;

verus! {

/// A token selects a span exactly when it is well formed.
pub proof fn lemma_token_accepted_iff_well_formed(token: Seq<char>)
    ensures
        token_span(token) is Ok <==> is_well_formed(token),
{
    if is_range_token(token) {
        let dash = dash_of(token);
        lemma_dash_is_first(token, dash);
        if is_well_formed(token) {
            let other = choose|other: int|
                {
                    &&& #[trigger] splits_at(token, other)
                    &&& is_position(digits_value(token.take(other)))
                    &&& is_position(digits_value(token.skip(other + 1)))
                    &&& digits_value(token.take(other)) < digits_value(token.skip(other + 1))
                };
            lemma_dash_is_first(token, other);
        }
    }
}

/// Where some token is rejected, one of them is the first.
pub proof fn lemma_some_rejected_has_first(list: Seq<Seq<char>>, at: int)
    requires
        0 <= at < list.len(),
        token_span(list[at]) is Err,
    ensures
        exists|first: int| first_rejected(list, first),
    decreases at,
{
    if forall|i: int| 0 <= i < at ==> token_span(#[trigger] list[i]) is Ok {
        assert(first_rejected(list, at));
    } else {
        let earlier = choose|i: int| 0 <= i < at && !(token_span(#[trigger] list[i]) is Ok);
        lemma_some_rejected_has_first(list, earlier);
    }
}

/// A list of tokens has spans exactly when every token has one, and then
/// there is one span for each token, in the order of the tokens.
pub proof fn lemma_spans_of_accepts(list: Seq<Seq<char>>)
    ensures
        spans_of(list) is Ok <==> forall|i: int|
            0 <= i < list.len() ==> token_span(#[trigger] list[i]) is Ok,
        spans_of(list) matches Ok(found) ==> found.len() == list.len() && forall|i: int|
            0 <= i < list.len() ==> token_span(list[i]) == Ok::<Span, Rejection>(#[trigger] found[i]),
{
    if !exists|at: int| first_rejected(list, at) {
        assert forall|i: int| 0 <= i < list.len() implies token_span(#[trigger] list[i]) is Ok by {
            if token_span(list[i]) is Err {
                lemma_some_rejected_has_first(list, i);
            }
        }
    }
}

/// A rejected list is rejected for its first token that has no span, with
/// that token's own rejection.
pub proof fn lemma_rejected_for_first_bad_token(list: Seq<char>)
    requires
        parse(list) is Err,
    ensures
        exists|at: int|
            first_rejected(tokens(list), at) && parse(list) == Err::<Seq<Span>, Rejection>(
                token_span(tokens(list)[at])->Err_0,
            ),
{
}

/// A selection list is accepted exactly when each of its tokens is well
/// formed, and the answer then has one span for each token.
pub proof fn lemma_accepted_iff_well_formed(list: Seq<char>)
    ensures
        parse(list) is Ok <==> forall|i: int|
            0 <= i < tokens(list).len() ==> is_well_formed(#[trigger] tokens(list)[i]),
        parse(list) matches Ok(found) ==> found.len() == tokens(list).len(),
{
    let all = tokens(list);
    lemma_spans_of_accepts(all);
    assert forall|i: int| 0 <= i < all.len() implies (token_span(#[trigger] all[i]) is Ok
        <==> is_well_formed(all[i])) by {
        lemma_token_accepted_iff_well_formed(all[i]);
    }
}

/// Every span of an accepted list starts at zero or later, ends after its
/// start, and ends within the machine's word.
pub proof fn lemma_spans_are_not_empty(list: Seq<char>)
    requires
        parse(list) is Ok,
    ensures
        forall|i: int|
            0 <= i < parse(list)->Ok_0.len() ==> {
                let found = #[trigger] parse(list)->Ok_0[i];
                0 <= found.start < found.end <= usize::MAX
            },
{
    lemma_spans_of_accepts(tokens(list));
}

/// Two results that the parser may give for one list are the same: the
/// same ranges, or the same error with the same message.
pub proof fn lemma_one_list_one_result(
    list: Seq<char>,
    one: Result<Extraction, ParseError>,
    other: Result<Extraction, ParseError>,
)
    requires
        outcome(one) == parse(list),
        outcome(other) == parse(list),
    ensures
        one is Ok <==> other is Ok,
        one matches Ok(ranges) ==> other->Ok_0@ == ranges@,
        one matches Err(error) ==> other->Err_0@ == error@ && message(other->Err_0@) == message(
            error@,
        ),
{
    if let Ok(ranges) = one {
        let others = other->Ok_0;
        assert(spans(ranges@) == spans(others@));
        assert forall|i: int| 0 <= i < ranges@.len() implies ranges@[i] == others@[i] by {
            assert(spans(ranges@)[i] == spans(others@)[i]);
        }
    }
}

/// Cutting a list at its commas loses nothing: the tokens hold no comma,
/// and joined again they spell the list.
pub proof fn lemma_tokens_rejoin(list: Seq<char>)
    ensures
        tokens(list).len() >= 1,
        forall|k: int| 0 <= k < tokens(list).len() ==> !(#[trigger] tokens(list)[k]).contains(','),
        joined(tokens(list), ',') == list,
    decreases list.len(),
{
    lemma_first_index(list, ',');
    let comma = first_index(list, ',') as int;
    if comma < list.len() {
        let rest = list.skip(comma + 1);
        lemma_tokens_rejoin(rest);
        let all = tokens(list);
        assert(all.drop_first() == tokens(rest));
    }
}

/// Texts without a comma, joined by commas, are cut into themselves again.
pub proof fn lemma_tokens_of_join(list: Seq<Seq<char>>)
    requires
        list.len() >= 1,
        forall|k: int| 0 <= k < list.len() ==> !(#[trigger] list[k]).contains(','),
    ensures
        tokens(joined(list, ',')) == list,
    decreases list.len(),
{
    let head = list[0];
    if list.len() == 1 {
        lemma_first_index_unique(head, ',', head.len() as int);
    } else {
        let tail = list.drop_first();
        lemma_tokens_of_join(tail);
        let whole = joined(list, ',');
        lemma_first_index_unique(whole, ',', head.len() as int);
        assert(whole.take(head.len() as int) == head);
        assert(whole.skip(head.len() as int + 1) == joined(tail, ','));
    }
}

/// Every character of a list is a comma or stands in one of its tokens.
pub proof fn lemma_chars_stand_in_tokens(list: Seq<char>, i: int)
    requires
        0 <= i < list.len(),
        list[i] != ',',
    ensures
        exists|k: int, j: int|
            0 <= k < tokens(list).len() && 0 <= j < tokens(list)[k].len() && (
            #[trigger] tokens(list)[k][j]) == list[i],
    decreases list.len(),
{
    lemma_first_index(list, ',');
    let comma = first_index(list, ',') as int;
    if comma >= list.len() || i < comma {
        assert(tokens(list)[0][i] == list[i]);
    } else {
        let rest = list.skip(comma + 1);
        lemma_chars_stand_in_tokens(rest, i - comma - 1);
        let (k, j) = choose|k: int, j: int|
            0 <= k < tokens(rest).len() && 0 <= j < tokens(rest)[k].len() && (
            #[trigger] tokens(rest)[k][j]) == rest[i - comma - 1];
        assert(tokens(list)[k + 1][j] == list[i]);
    }
}

/// A well-formed token is not empty, begins and ends with a digit, and holds
/// digits and dashes only.
pub proof fn lemma_well_formed_tokens_are_strict(token: Seq<char>)
    requires
        is_well_formed(token),
    ensures
        token.len() > 0,
        is_digit(token.first()),
        is_digit(token.last()),
        forall|j: int| 0 <= j < token.len() ==> is_digit(#[trigger] token[j]) || token[j] == '-',
{
    if !(is_digits(token) && is_position(digits_value(token))) {
        let dash = choose|dash: int| #[trigger] splits_at(token, dash);
        let first = token.take(dash);
        let second = token.skip(dash + 1);
        assert(is_digit(first[0]));
        assert forall|j: int| 0 <= j < token.len() implies is_digit(#[trigger] token[j])
            || token[j] == '-' by {
            if j < dash {
                assert(is_digit(first[j]));
            } else if j > dash {
                assert(is_digit(second[j - dash - 1]));
            }
        }
    }
}

/// An accepted list holds digits, commas and dashes and nothing else: no
/// white space and no plus sign. None of its tokens is empty, and each
/// begins and ends with a digit, so that none carries a sign.
pub proof fn lemma_accepted_lists_are_strict(list: Seq<char>)
    requires
        parse(list) is Ok,
    ensures
        forall|i: int|
            0 <= i < list.len() ==> is_digit(#[trigger] list[i]) || list[i] == ',' || list[i]
                == '-',
        forall|k: int|
            0 <= k < tokens(list).len() ==> {
                let token = #[trigger] tokens(list)[k];
                token.len() > 0 && is_digit(token.first()) && is_digit(token.last())
            },
{
    lemma_accepted_iff_well_formed(list);
    let all = tokens(list);
    assert forall|k: int| 0 <= k < all.len() implies {
        let token = #[trigger] all[k];
        token.len() > 0 && is_digit(token.first()) && is_digit(token.last())
    } by {
        lemma_well_formed_tokens_are_strict(all[k]);
    }
    assert forall|i: int| 0 <= i < list.len() implies is_digit(#[trigger] list[i]) || list[i] == ','
        || list[i] == '-' by {
        if list[i] != ',' {
            lemma_chars_stand_in_tokens(list, i);
            let (k, j) = choose|k: int, j: int|
                0 <= k < all.len() && 0 <= j < all[k].len() && (#[trigger] all[k][j]) == list[i];
            lemma_well_formed_tokens_are_strict(all[k]);
        }
    }
}

/// A number written in decimal is a string of digits that denotes the
/// number: what a message spells reads back as what was parsed.
pub proof fn lemma_decimal_reads_back(n: nat)
    ensures
        is_digits(decimal(n)),
        digits_value(decimal(n)) == n,
    decreases n,
{
    if n < 10 {
        assert(digits_value(decimal(n).drop_last()) == 0);
    } else {
        lemma_decimal_reads_back(n / 10);
        assert(decimal(n).drop_last() == decimal(n / 10));
    }
}

} // verus!
