//! Character-level helpers shared by the tools.

use vstd::prelude::*;
use vstd::string::StringExecFns;

verus! {

/// Taken on trust of the standard library: `String::push` appends the
/// character to the end of the string and changes nothing else of it.
pub assume_specification[ String::push ](s: &mut String, c: char)
    ensures
        final(s)@ == old(s)@.push(c),
;

/// Whether a character is white space as `char::is_whitespace` judges it,
/// that is, by the Unicode property `White_Space`. Which characters these
/// are is not written down here.
pub uninterp spec fn is_white_space(c: char) -> bool;

/// Taken on trust of the standard library: what `char::is_whitespace`
/// answers depends on the character alone, so that it can bear the name
/// `is_white_space`.
pub assume_specification[ char::is_whitespace ](c: char) -> (yes: bool)
    ensures
        yes == is_white_space(c),
;

/// The position of the first `x` in `s`, or the length of `s` where it
/// holds none.
pub open spec fn first_index<T>(s: Seq<T>, x: T) -> nat
    decreases s.len(),
{
    if s.len() == 0 || s[0] == x {
        0
    } else {
        1 + first_index(s.drop_first(), x)
    }
}

/// `first_index` stops at the first occurrence and nowhere before it.
pub proof fn lemma_first_index<T>(s: Seq<T>, x: T)
    ensures
        first_index(s, x) <= s.len(),
        forall|i: int| 0 <= i < first_index(s, x) ==> s[i] != x,
        first_index(s, x) < s.len() ==> s[first_index(s, x) as int] == x,
    decreases s.len(),
{
    if s.len() > 0 && s[0] != x {
        let rest = s.drop_first();
        lemma_first_index(rest, x);
        assert forall|i: int| 0 <= i < first_index(s, x) implies s[i] != x by {
            if i > 0 {
                assert(s[i] == rest[i - 1]);
            }
        }
    }
}

/// A position that no `x` precedes, and that holds `x` or is the end, is
/// the one `first_index` gives.
pub proof fn lemma_first_index_unique<T>(s: Seq<T>, x: T, k: int)
    requires
        0 <= k <= s.len(),
        forall|i: int| 0 <= i < k ==> s[i] != x,
        k < s.len() ==> s[k] == x,
    ensures
        first_index(s, x) == k,
{
    lemma_first_index(s, x);
}

/// How often `x` occurs in `s`.
pub open spec fn occurrences<T>(s: Seq<T>, x: T) -> nat
    decreases s.len(),
{
    if s.len() == 0 {
        0
    } else {
        occurrences(s.drop_last(), x) + if s.last() == x {
            1nat
        } else {
            0nat
        }
    }
}

/// Nothing occurs more often than the sequence is long.
pub proof fn lemma_occurrences_bound<T>(s: Seq<T>, x: T)
    ensures
        occurrences(s, x) <= s.len(),
    decreases s.len(),
{
    if s.len() > 0 {
        lemma_occurrences_bound(s.drop_last(), x);
    }
}

/// What does not occur is counted zero times.
pub proof fn lemma_absent_occurs_never<T>(s: Seq<T>, x: T)
    requires
        !s.contains(x),
    ensures
        occurrences(s, x) == 0,
    decreases s.len(),
{
    if s.len() > 0 {
        lemma_absent_occurs_never(s.drop_last(), x);
    }
}

/// The occurrences in two sequences add up in the two put together.
pub proof fn lemma_occurrences_add<T>(a: Seq<T>, b: Seq<T>, x: T)
    ensures
        occurrences(a + b, x) == occurrences(a, x) + occurrences(b, x),
    decreases b.len(),
{
    if b.len() > 0 {
        assert((a + b).drop_last() == a + b.drop_last());
        lemma_occurrences_add(a, b.drop_last(), x);
    }
}

/// The texts that a sequence of strings spells.
pub open spec fn texts(lines: Seq<String>) -> Seq<Seq<char>> {
    Seq::new(lines.len(), |i: int| lines[i]@)
}

/// The texts of `list` written one after the other with `separator` between
/// each two.
pub open spec fn joined(list: Seq<Seq<char>>, separator: char) -> Seq<char>
    decreases list.len(),
{
    if list.len() == 0 {
        Seq::empty()
    } else if list.len() == 1 {
        list[0]
    } else {
        list[0] + seq![separator] + joined(list.drop_first(), separator)
    }
}

/// Joining one more text appends the separator and the text, or the text
/// alone where it is the first.
pub proof fn lemma_joined_push(list: Seq<Seq<char>>, separator: char, text: Seq<char>)
    ensures
        joined(list.push(text), separator) == if list.len() == 0 {
            text
        } else {
            joined(list, separator) + seq![separator] + text
        },
    decreases list.len(),
{
    if list.len() > 0 {
        assert(list.push(text).drop_first() == list.drop_first().push(text));
        lemma_joined_push(list.drop_first(), separator, text);
    }
}

/// Collects the characters of `s` into a vector.
pub fn chars_of(s: &str) -> (chars: Vec<char>)
    ensures
        chars@ == s@,
{
    let mut chars: Vec<char> = Vec::new();
    for c in it: s.chars()
        invariant
            chars@ == it.seq().take(it.index()),
            it.seq() == s@,
    {
        chars.push(c);
    }
    chars
}

/// Builds the string that spells `chars[from..to]`.
pub fn string_of(chars: &Vec<char>, from: usize, to: usize) -> (s: String)
    requires
        from <= to <= chars@.len(),
    ensures
        s@ == chars@.subrange(from as int, to as int),
{
    let mut s = String::new();
    let mut i: usize = from;
    while i < to
        invariant
            from <= i <= to <= chars@.len(),
            s@ == chars@.subrange(from as int, i as int),
        decreases to - i,
    {
        s.push(chars[i]);
        i += 1;
    }
    s
}

/// Finds the first `byte` in `bytes[from..]`; gives the length of `bytes`
/// where there is none.
pub fn find_byte(bytes: &[u8], from: usize, byte: u8) -> (at: usize)
    requires
        from <= bytes@.len(),
    ensures
        from <= at <= bytes@.len(),
        at == from + first_index(bytes@.skip(from as int), byte),
{
    let ghost part = bytes@.skip(from as int);
    let mut at: usize = from;
    while at < bytes.len() && bytes[at] != byte
        invariant
            from <= at <= bytes@.len(),
            part == bytes@.skip(from as int),
            forall|i: int| 0 <= i < at - from ==> part[i] != byte,
        decreases bytes@.len() - at,
    {
        at += 1;
    }
    proof {
        lemma_first_index_unique(part, byte, at - from);
    }
    at
}

/// Finds the first `c` in `chars[from..to]`; gives `to` where there is
/// none.
pub fn find_char(chars: &Vec<char>, from: usize, to: usize, c: char) -> (at: usize)
    requires
        from <= to <= chars@.len(),
    ensures
        from <= at <= to,
        at == from + first_index(chars@.subrange(from as int, to as int), c),
{
    let ghost part = chars@.subrange(from as int, to as int);
    let mut at: usize = from;
    while at < to && chars[at] != c
        invariant
            from <= at <= to <= chars@.len(),
            part == chars@.subrange(from as int, to as int),
            forall|i: int| 0 <= i < at - from ==> part[i] != c,
        decreases to - at,
    {
        at += 1;
    }
    proof {
        lemma_first_index_unique(part, c, at - from);
    }
    at
}

/// The character that writes a digit below ten.
pub open spec fn digit_char(d: nat) -> char
    recommends
        d < 10,
{
    ('0' as nat + d) as char
}

/// A number in decimal: no sign, no leading zero, `0` for zero.
pub open spec fn decimal(n: nat) -> Seq<char>
    decreases n,
{
    if n < 10 {
        seq![digit_char(n)]
    } else {
        decimal(n / 10).push(digit_char(n % 10))
    }
}

/// Spaces, `count` of them.
pub open spec fn blanks(count: nat) -> Seq<char> {
    Seq::new(count, |i: int| ' ')
}

/// `text` moved to the right edge of a column of `width` characters. Text
/// that is wider than the column stays whole.
pub open spec fn right_aligned(text: Seq<char>, width: nat) -> Seq<char> {
    if text.len() >= width {
        text
    } else {
        blanks((width - text.len()) as nat) + text
    }
}

/// Appends the decimal digits of `n` to `out`.
fn push_digits(out: &mut Vec<char>, n: usize)
    ensures
        final(out)@ == old(out)@ + decimal(n as nat),
    decreases n,
{
    if n >= 10 {
        push_digits(out, n / 10);
    }
    let digit: u8 = (n % 10) as u8;
    out.push(('0' as u8 + digit) as char);
}

/// Appends `chars` to `out`.
fn push_chars(out: &mut String, chars: &Vec<char>)
    ensures
        final(out)@ == old(out)@ + chars@,
{
    let mut i: usize = 0;
    while i < chars.len()
        invariant
            i <= chars@.len(),
            out@ == old(out)@ + chars@.take(i as int),
        decreases chars@.len() - i,
    {
        out.push(chars[i]);
        i += 1;
    }
}

/// Appends `n` in decimal to `out`.
pub fn push_decimal(out: &mut String, n: usize)
    ensures
        final(out)@ == old(out)@ + decimal(n as nat),
{
    let mut digits: Vec<char> = Vec::new();
    push_digits(&mut digits, n);
    push_chars(out, &digits);
}

/// Appends `n` in decimal to `out`, moved to the right edge of a column of
/// `width` characters.
pub fn push_right_aligned(out: &mut String, n: usize, width: usize)
    ensures
        final(out)@ == old(out)@ + right_aligned(decimal(n as nat), width as nat),
{
    let mut digits: Vec<char> = Vec::new();
    push_digits(&mut digits, n);
    let mut used: usize = digits.len();
    while used < width
        invariant
            digits@.len() <= used,
            used <= width || used == digits@.len(),
            out@ == old(out)@ + blanks((used - digits@.len()) as nat),
        decreases width - used,
    {
        out.push(' ');
        used += 1;
    }
    push_chars(out, &digits);
}

/// Writes `lines` one after the other with `separator` between each two.
pub fn join(lines: &Vec<String>, separator: char) -> (text: String)
    ensures
        text@ == joined(texts(lines@), separator),
{
    let ghost all = texts(lines@);
    let mut text = String::new();
    let mut i: usize = 0;
    while i < lines.len()
        invariant
            i <= lines@.len(),
            all == texts(lines@),
            text@ == joined(all.take(i as int), separator),
        decreases lines@.len() - i,
    {
        proof {
            assert(all.take(i + 1) == all.take(i as int).push(lines@[i as int]@));
            lemma_joined_push(all.take(i as int), separator, lines@[i as int]@);
        }
        if i > 0 {
            text.push(separator);
        }
        text.append(lines[i].as_str());
        i += 1;
    }
    assert(all.take(lines@.len() as int) == all);
    text
}

} // verus!
