//! The head of an input: its first lines or its first bytes.

use crate::text::{
    find_byte, first_index, lemma_absent_occurs_never, lemma_first_index, lemma_occurrences_add,
    occurrences,
};
use vstd::prelude::*;
use vstd::slice::slice_subrange;
use vstd::string::StringExecFns;

verus! {

/// How a run cuts and announces its inputs.
#[derive(Debug, Clone, Copy, PartialEq, Eq)]
pub struct Modification {
    /// How many inputs the run has.
    pub files_count: usize,
    /// The number of lines to keep.
    pub lines: u64,
    /// The number of bytes to keep, where bytes are asked for in place of
    /// lines.
    pub bytes: Option<u64>,
    /// Never announce an input.
    pub quiet: bool,
    /// Always announce an input.
    pub verbose: bool,
}

/// The line feed.
pub const LINE_FEED: u8 = 10;

/// The length of the first `count` lines of `input`, each with the line
/// feed that ends it. Where the input has fewer lines, this is all of it.
pub open spec fn lines_len(input: Seq<u8>, count: nat) -> nat
    decreases count,
{
    if count == 0 {
        0
    } else {
        let feed = first_index(input, LINE_FEED) as int;
        if feed >= input.len() {
            input.len()
        } else {
            (feed + 1 + lines_len(input.skip(feed + 1), (count - 1) as nat)) as nat
        }
    }
}

/// How much of `input` a run keeps: the first bytes where bytes are asked
/// for, else the first lines.
pub open spec fn head_len(input: Seq<u8>, modification: Modification) -> nat {
    match modification.bytes {
        Some(bytes) => if bytes <= input.len() {
            bytes as nat
        } else {
            input.len()
        },
        None => lines_len(input, modification.lines as nat),
    }
}

/// The first `lines` lines of `input`, line feeds included.
pub fn first_lines(input: &[u8], lines: u64) -> (head: &[u8])
    ensures
        head@ == input@.take(lines_len(input@, lines as nat) as int),
{
    let mut taken: u64 = 0;
    let mut end: usize = 0;
    assert(input@.skip(0) == input@);
    while taken < lines && end < input.len()
        invariant
            taken <= lines,
            end <= input@.len(),
            lines_len(input@, lines as nat) == end + lines_len(
                input@.skip(end as int),
                (lines - taken) as nat,
            ),
        decreases lines - taken,
    {
        let feed = find_byte(input, end, LINE_FEED);
        assert(feed < input.len() ==> input@.skip(end as int).skip(feed - end + 1) == input@.skip(
            feed + 1,
        ));
        end = if feed < input.len() {
            feed + 1
        } else {
            feed
        };
        taken += 1;
    }
    slice_subrange(input, 0, end)
}

/// The first `bytes` bytes of `input`, or all of it where it is shorter.
pub fn first_bytes(input: &[u8], bytes: u64) -> (head: &[u8])
    ensures
        head@ == input@.take(
            if bytes <= input@.len() {
                bytes as int
            } else {
                input@.len() as int
            },
        ),
{
    if bytes < input.len() as u64 {
        slice_subrange(input, 0, bytes as usize)
    } else {
        slice_subrange(input, 0, input.len())
    }
}

/// The part of `input` that a run prints: its first bytes where bytes are
/// asked for, else its first lines.
pub fn headr<'a>(input: &'a [u8], modification: &Modification) -> (head: &'a [u8])
    ensures
        head@ == input@.take(head_len(input@, *modification) as int),
{
    match modification.bytes {
        Some(bytes) => first_bytes(input, bytes),
        None => first_lines(input, modification.lines),
    }
}

/// An input is announced unless the run is quiet, where the run is verbose
/// or has more than one input.
pub open spec fn announces(modification: Modification) -> bool {
    !modification.quiet && (modification.verbose || modification.files_count > 1)
}

/// The line that announces an input, without its line feed. Every input
/// but the first is set off by an empty line.
pub open spec fn header(filename: Seq<char>, file_index: usize) -> Seq<char> {
    if file_index > 0 {
        seq!['\n'] + "==> "@ + filename + " <=="@
    } else {
        "==> "@ + filename + " <=="@
    }
}

/// The line that announces the input `filename`, the `file_index`-th of
/// the run counted from zero, or nothing where the run announces none.
pub fn include_header(filename: &str, file_index: usize, modification: &Modification) -> (line:
    Option<String>)
    ensures
        line is Some <==> announces(*modification),
        line matches Some(text) ==> text@ == header(filename@, file_index),
{
    if !modification.quiet && (modification.verbose || modification.files_count > 1) {
        let mut text = String::new();
        if file_index > 0 {
            text.push('\n');
        }
        text.append("==> ");
        text.append(filename);
        text.append(" <==");
        Some(text)
    } else {
        None
    }
}

/// What the first `count` lines are: the shortest start of the input that
/// holds `count` line feeds, or all of the input where it holds fewer.
///
/// The head holds no more than `count` line feeds, and exactly `count`
/// where it is not the whole input. Where it holds `count` line feeds and
/// is not empty, it ends in one.
pub proof fn lemma_lines_len(input: Seq<u8>, count: nat)
    ensures
        lines_len(input, count) <= input.len(),
        occurrences(input.take(lines_len(input, count) as int), LINE_FEED) <= count,
        lines_len(input, count) < input.len() ==> occurrences(
            input.take(lines_len(input, count) as int),
            LINE_FEED,
        ) == count,
        lines_len(input, count) > 0 && occurrences(
            input.take(lines_len(input, count) as int),
            LINE_FEED,
        ) == count ==> input[lines_len(input, count) - 1] == LINE_FEED,
    decreases count,
{
    let len = lines_len(input, count) as int;
    if count > 0 {
        lemma_first_index(input, LINE_FEED);
        let feed = first_index(input, LINE_FEED) as int;
        if feed >= input.len() {
            assert(input.take(len) == input);
            lemma_absent_occurs_never(input, LINE_FEED);
        } else {
            let rest = input.skip(feed + 1);
            let more = lines_len(rest, (count - 1) as nat) as int;
            lemma_lines_len(rest, (count - 1) as nat);
            let line = input.take(feed + 1);
            assert(input.take(len) == line + rest.take(more));
            lemma_occurrences_add(line, rest.take(more), LINE_FEED);
            assert(occurrences(line, LINE_FEED) == 1) by {
                assert(line.drop_last() == input.take(feed));
                lemma_absent_occurs_never(input.take(feed), LINE_FEED);
            }
        }
    }
}

} // verus!
