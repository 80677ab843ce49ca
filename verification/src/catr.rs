//! Copying lines, with or without numbers in front of them.

use crate::text::{decimal, push_right_aligned, right_aligned, texts};
use vstd::prelude::*;
use vstd::string::StringExecFns;

verus! {

/// What a run copies and how it numbers the lines.
#[derive(Debug, PartialEq, Eq)]
pub struct Args {
    /// The files to copy, `-` for the standard input.
    pub files: Vec<String>,
    /// Number every line.
    pub number_lines: bool,
    /// Number the lines that are not empty.
    pub number_non_blank: bool,
}

/// How many of the first `upto` lines are not empty.
pub open spec fn non_blank(lines: Seq<Seq<char>>, upto: int) -> nat
    decreases upto,
{
    if upto <= 0 {
        0
    } else {
        non_blank(lines, upto - 1) + if lines[upto - 1].len() > 0 {
            1nat
        } else {
            0nat
        }
    }
}

/// A line behind its number: the number right-aligned in six characters,
/// a tab, the line.
pub open spec fn numbered(number: nat, line: Seq<char>) -> Seq<char> {
    right_aligned(decimal(number), 6) + seq!['\t'] + line
}

/// What is written for the line at `at`, without a line feed.
///
/// Numbering every line wins over numbering the lines that are not empty.
/// Numbers start at one. Where only lines that are not empty are numbered,
/// an empty line is written as it is and takes no number.
pub open spec fn written(
    lines: Seq<Seq<char>>,
    at: int,
    number_lines: bool,
    number_non_blank: bool,
) -> Seq<char> {
    if number_lines {
        numbered((at + 1) as nat, lines[at])
    } else if number_non_blank && lines[at].len() > 0 {
        numbered(non_blank(lines, at + 1), lines[at])
    } else {
        lines[at]
    }
}

/// Writes `line` behind `number`.
pub fn number_line(number: usize, line: &str) -> (text: String)
    ensures
        text@ == numbered(number as nat, line@),
{
    let mut text = String::new();
    push_right_aligned(&mut text, number, 6);
    text.push('\t');
    text.append(line);
    text
}

/// Copies `lines`, each as it is to be written: with its number in front
/// where numbers are asked for.
pub fn catr(lines: &Vec<String>, number_lines: bool, number_non_blank: bool) -> (output: Vec<
    String,
>)
    ensures
        output@.len() == lines@.len(),
        forall|at: int|
            0 <= at < lines@.len() ==> (#[trigger] output@[at])@ == written(
                texts(lines@),
                at,
                number_lines,
                number_non_blank,
            ),
{
    let mut output: Vec<String> = Vec::new();
    let mut num: usize = 0;
    let mut i: usize = 0;
    while i < lines.len()
        invariant
            i <= lines@.len(),
            output@.len() == i,
            num <= i,
            num == non_blank(texts(lines@), i as int),
            forall|at: int|
                0 <= at < i ==> (#[trigger] output@[at])@ == written(
                    texts(lines@),
                    at,
                    number_lines,
                    number_non_blank,
                ),
        decreases lines@.len() - i,
    {
        let line = lines[i].as_str();
        let blank = line.is_empty();
        if !blank {
            num += 1;
        }
        let text = if number_lines {
            number_line(i + 1, line)
        } else if number_non_blank && !blank {
            number_line(num, line)
        } else {
            String::from_str(line)
        };
        output.push(text);
        i += 1;
    }
    output
}

} // verus!
