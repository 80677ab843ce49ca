//! Counting the lines, words, characters and bytes of a text.

use crate::text::{
    decimal, is_white_space, lemma_occurrences_add, occurrences, push_right_aligned,
    right_aligned,
};
use vstd::prelude::*;
use vstd::utf8::encode_utf8;
use vstd::string::{StrSliceExecFns, StringExecFns};

verus! {

/// What to count and where: the files, and one switch for each column of
/// the report.
#[derive(Debug, PartialEq, Eq)]
pub struct Args {
    /// The files to count, `-` for the standard input.
    pub files: Vec<String>,
    /// Show the number of lines.
    pub lines: bool,
    /// Show the number of words.
    pub words: bool,
    /// Show the number of bytes.
    pub bytes: bool,
    /// Show the number of characters.
    pub chars: bool,
}

/// The counts of one text, or the sum of the counts of several.
#[derive(Debug, Clone, Copy, PartialEq, Eq)]
pub struct FileInfo {
    pub num_lines: usize,
    pub num_words: usize,
    pub num_bytes: usize,
    pub num_chars: usize,
}

/// The lines of a text: one for each line feed, and one more for what
/// follows the last line feed, if anything does.
pub open spec fn line_count(s: Seq<char>) -> nat {
    occurrences(s, '\n') + if s.len() > 0 && s.last() != '\n' {
        1nat
    } else {
        0nat
    }
}

/// A word begins at `i`: a character that is no white space, at the start
/// of the text or after white space.
pub open spec fn starts_word(s: Seq<char>, i: int) -> bool {
    &&& 0 <= i < s.len()
    &&& !is_white_space(s[i])
    &&& (i == 0 || is_white_space(s[i - 1]))
}

/// How many words begin before position `upto`.
pub open spec fn word_starts(s: Seq<char>, upto: int) -> nat
    decreases upto,
{
    if upto <= 0 {
        0
    } else {
        word_starts(s, upto - 1) + if starts_word(s, upto - 1) {
            1nat
        } else {
            0nat
        }
    }
}

/// The words of a text: its runs of characters that are no white space.
pub open spec fn word_count(s: Seq<char>) -> nat {
    word_starts(s, s.len() as int)
}

impl FileInfo {
    /// The counts of the empty text.
    pub fn new() -> (info: Self)
        ensures
            info.num_lines == 0,
            info.num_words == 0,
            info.num_bytes == 0,
            info.num_chars == 0,
    {
        FileInfo { num_lines: 0, num_words: 0, num_bytes: 0, num_chars: 0 }
    }

    /// These are the counts of the text `s`.
    pub open spec fn counts(&self, s: Seq<char>) -> bool {
        &&& self.num_lines == line_count(s)
        &&& self.num_words == word_count(s)
        &&& self.num_chars == s.len()
        &&& self.num_bytes == encode_utf8(s).len()
    }

    /// Adds the counts of `other` to these, column by column.
    pub fn sum(&mut self, other: &FileInfo)
        requires
            old(self).num_lines + other.num_lines <= usize::MAX,
            old(self).num_words + other.num_words <= usize::MAX,
            old(self).num_bytes + other.num_bytes <= usize::MAX,
            old(self).num_chars + other.num_chars <= usize::MAX,
        ensures
            final(self).num_lines == old(self).num_lines + other.num_lines,
            final(self).num_words == old(self).num_words + other.num_words,
            final(self).num_bytes == old(self).num_bytes + other.num_bytes,
            final(self).num_chars == old(self).num_chars + other.num_chars,
    {
        self.num_lines += other.num_lines;
        self.num_words += other.num_words;
        self.num_bytes += other.num_bytes;
        self.num_chars += other.num_chars;
    }
}

/// Counts the lines, words, characters and bytes of `text`.
pub fn count(text: &str) -> (info: FileInfo)
    ensures
        info.counts(text@),
{
    let num_bytes = text.as_bytes().len();
    let num_chars = text.unicode_len();
    let mut num_lines: usize = 0;
    let mut num_words: usize = 0;
    let mut after_blank = true;
    let mut last_is_feed = true;
    for c in it: text.chars()
        invariant
            it.seq() == text@,
            num_chars == text@.len(),
            num_lines <= it.index(),
            !last_is_feed ==> num_lines < it.index(),
            num_words <= it.index(),
            num_lines == occurrences(text@.take(it.index()), '\n'),
            num_words == word_starts(text@, it.index()),
            after_blank == (it.index() == 0 || is_white_space(text@[it.index() - 1])),
            last_is_feed == (it.index() == 0 || text@[it.index() - 1] == '\n'),
    {
        assert(text@.take(it.index() + 1).drop_last() == text@.take(it.index()));
        last_is_feed = c == '\n';
        if last_is_feed {
            num_lines += 1;
        }
        let blank = c.is_whitespace();
        if after_blank && !blank {
            num_words += 1;
        }
        after_blank = blank;
    }
    assert(text@.take(text@.len() as int) == text@);
    if !last_is_feed {
        num_lines += 1;
    }
    FileInfo { num_lines, num_words, num_bytes, num_chars }
}

/// One column of the report: the number, right-aligned in eight
/// characters, or nothing where the column is switched off.
pub open spec fn column(on: bool, n: usize) -> Seq<char> {
    if on {
        right_aligned(decimal(n as nat), 8)
    } else {
        Seq::empty()
    }
}

/// One line of the report: the columns for lines, words, characters and
/// bytes, in this order, then a space and the file's name unless the name is
/// `-`.
pub open spec fn shown(filename: Seq<char>, info: FileInfo, args: Args) -> Seq<char> {
    column(args.lines, info.num_lines) + column(args.words, info.num_words) + column(
        args.chars,
        info.num_chars,
    ) + column(args.bytes, info.num_bytes) + if filename == seq!['-'] {
        Seq::<char>::empty()
    } else {
        seq![' '] + filename
    }
}

/// Renders the counts of one file as a line of the report, without a line
/// feed.
pub fn show(filename: &String, info: &FileInfo, args: &Args) -> (output: String)
    ensures
        output@ == shown(filename@, *info, *args),
{
    let mut output = String::new();
    if args.lines {
        push_right_aligned(&mut output, info.num_lines, 8);
    }
    if args.words {
        push_right_aligned(&mut output, info.num_words, 8);
    }
    if args.chars {
        push_right_aligned(&mut output, info.num_chars, 8);
    }
    if args.bytes {
        push_right_aligned(&mut output, info.num_bytes, 8);
    }
    let name = filename.as_str();
    let is_dash = name.unicode_len() == 1 && name.get_char(0) == '-';
    assert(is_dash == (filename@ =~= seq!['-']));
    if !is_dash {
        output.push(' ');
        output.append(name);
    }
    output
}

/// Where no column is asked for, switches on the lines, the words and the
/// bytes. Any other choice stays as it is.
pub fn apply_defaults(args: &mut Args)
    ensures
        final(args).files == old(args).files,
        final(args).chars == old(args).chars,
        if !old(args).lines && !old(args).words && !old(args).bytes && !old(args).chars {
            final(args).lines && final(args).words && final(args).bytes
        } else {
            &&& final(args).lines == old(args).lines
            &&& final(args).words == old(args).words
            &&& final(args).bytes == old(args).bytes
        },
{
    if !args.lines && !args.words && !args.bytes && !args.chars {
        args.lines = true;
        args.words = true;
        args.bytes = true;
    }
}

/// The bytes of two texts add up in the two put together.
pub proof fn lemma_bytes_add(first: Seq<char>, rest: Seq<char>)
    ensures
        encode_utf8(first + rest) == encode_utf8(first) + encode_utf8(rest),
    decreases first.len(),
{
    if first.len() > 0 {
        assert((first + rest).drop_first() == first.drop_first() + rest);
        lemma_bytes_add(first.drop_first(), rest);
    }
}

/// Behind white space, or at the start, the words of a text begin where
/// they begin in the text alone.
proof fn lemma_word_starts_shift(first: Seq<char>, rest: Seq<char>, upto: int)
    requires
        first.len() > 0 ==> is_white_space(first.last()),
        0 <= upto <= rest.len(),
    ensures
        word_starts(first + rest, first.len() + upto) == word_starts(first, first.len() as int)
            + word_starts(rest, upto),
    decreases upto,
{
    if upto == 0 {
        lemma_word_starts_prefix(first, rest, first.len() as int);
    } else {
        lemma_word_starts_shift(first, rest, upto - 1);
    }
}

/// The words that begin in the first part of a text do not depend on what
/// follows it.
proof fn lemma_word_starts_prefix(first: Seq<char>, rest: Seq<char>, upto: int)
    requires
        0 <= upto <= first.len(),
    ensures
        word_starts(first + rest, upto) == word_starts(first, upto),
    decreases upto,
{
    if upto > 0 {
        lemma_word_starts_prefix(first, rest, upto - 1);
    }
}

/// A text may be counted piece by piece: where the first piece is empty or
/// ends in a line feed that is white space, the counts of the pieces add
/// up to the counts of the whole.
pub proof fn lemma_counts_add(first: Seq<char>, rest: Seq<char>)
    requires
        first.len() > 0 ==> first.last() == '\n' && is_white_space('\n'),
    ensures
        line_count(first + rest) == line_count(first) + line_count(rest),
        word_count(first + rest) == word_count(first) + word_count(rest),
        (first + rest).len() == first.len() + rest.len(),
        encode_utf8(first + rest).len() == encode_utf8(first).len() + encode_utf8(rest).len(),
{
    lemma_occurrences_add(first, rest, '\n');
    lemma_word_starts_shift(first, rest, rest.len() as int);
    lemma_bytes_add(first, rest);
}

} // verus!
