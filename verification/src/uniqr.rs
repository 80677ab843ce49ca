//! Reporting the lines of an input once each, with how often they occur.

use crate::text::{
    chars_of, decimal, is_white_space, lemma_absent_occurs_never, lemma_occurrences_bound,
    occurrences, push_right_aligned, right_aligned, texts,
};
use vstd::prelude::*;
use vstd::string::StringExecFns;

verus! {

/// What a run reads, where it writes, and which lines it reports.
#[derive(Debug, PartialEq, Eq)]
pub struct Args {
    /// The file to read, `-` for the standard input.
    pub in_file: String,
    /// The file to write, the standard output where there is none.
    pub out_file: Option<String>,
    /// Write in front of each line how often it occurs.
    pub count: bool,
    /// Report only the lines that occur more than once.
    pub repeated: bool,
    /// Tell no capital letter from its small one.
    pub ignore_case: bool,
    /// Report only the lines that occur once.
    pub unique: bool,
    /// Take lines for the same only where one follows the other.
    pub adjacent: bool,
}

/// A line of the report before it is written: a text and how many lines of
/// the input it stands for.
pub struct Run {
    pub text: Seq<char>,
    pub times: nat,
}

/// A text and how many lines of the input it stands for.
#[derive(Debug, PartialEq, Eq)]
pub struct Group {
    pub text: String,
    pub times: usize,
}

impl View for Group {
    type V = Run;

    open spec fn view(&self) -> Run {
        Run { text: self.text@, times: self.times as nat }
    }
}

/// The runs that a sequence of groups stands for.
pub open spec fn runs_of(groups: Seq<Group>) -> Seq<Run> {
    Seq::new(groups.len(), |k: int| groups[k]@)
}

/// What `str::to_lowercase` makes of a text: its lowercase form as Unicode
/// defines it. The mapping itself is not written down here.
pub uninterp spec fn lowercase(s: Seq<char>) -> Seq<char>;

/// Taken on trust of the standard library: what `str::to_lowercase` gives
/// depends on the text alone, so that it can bear the name `lowercase`.
pub assume_specification[ str::to_lowercase ](s: &str) -> (lower: String)
    ensures
        lower@ == lowercase(s@),
;

/// A line as it is compared and reported: in lowercase where case is
/// ignored, else as it is.
pub open spec fn normal(line: Seq<char>, ignore_case: bool) -> Seq<char> {
    if ignore_case {
        lowercase(line)
    } else {
        line
    }
}

/// Every line in its normal form.
pub open spec fn normal_lines(lines: Seq<Seq<char>>, ignore_case: bool) -> Seq<Seq<char>> {
    Seq::new(lines.len(), |i: int| normal(lines[i], ignore_case))
}

/// A text without the white space at its end.
pub open spec fn trimmed(s: Seq<char>) -> Seq<char>
    decreases s.len(),
{
    if s.len() > 0 && is_white_space(s.last()) {
        trimmed(s.drop_last())
    } else {
        s
    }
}

/// Two lines are alike where they differ in nothing but white space at
/// their ends.
pub open spec fn alike(a: Seq<char>, b: Seq<char>) -> bool {
    trimmed(a) == trimmed(b)
}

/// The runs of lines that follow one another and are alike, each with the
/// text of its first line.
///
/// Before the first line stands a run of no lines with an empty text. Lines
/// of white space at the very start are alike to it and join it, so that
/// they are reported with an empty text.
pub open spec fn runs(lines: Seq<Seq<char>>) -> Seq<Run>
    decreases lines.len(),
{
    if lines.len() == 0 {
        seq![Run { text: Seq::empty(), times: 0 }]
    } else {
        let before = runs(lines.drop_last());
        let open = before.last();
        if alike(lines.last(), open.text) {
            before.drop_last().push(Run { text: open.text, times: open.times + 1 })
        } else {
            before.push(Run { text: lines.last(), times: 1 })
        }
    }
}

/// The lines without those that occurred before, in the order in which
/// they first occur.
pub open spec fn firsts(lines: Seq<Seq<char>>) -> Seq<Seq<char>>
    decreases lines.len(),
{
    if lines.len() == 0 {
        Seq::empty()
    } else if lines.drop_last().contains(lines.last()) {
        firsts(lines.drop_last())
    } else {
        firsts(lines.drop_last()).push(lines.last())
    }
}

/// Each different line, in the order of first occurrence, with how often it
/// occurs in all.
pub open spec fn tally(lines: Seq<Seq<char>>) -> Seq<Run> {
    Seq::new(
        firsts(lines).len(),
        |k: int| Run { text: firsts(lines)[k], times: occurrences(lines, firsts(lines)[k]) },
    )
}

/// Whether a run is reported.
///
/// Among lines that follow one another every run of at least one line is.
/// Else a line that occurs once is left out where only repeated lines are
/// asked for, and a line that occurs more than once is left out where only
/// unique lines are asked for.
pub open spec fn reported(run: Run, args: Args) -> bool {
    if args.adjacent {
        run.times > 0
    } else {
        !(args.repeated && run.times == 1) && !(args.unique && run.times > 1)
    }
}

/// A run as it is written: its text, behind its number right-aligned in
/// four characters and a space where numbers are asked for.
pub open spec fn rendered(run: Run, args: Args) -> Seq<char> {
    if args.count {
        right_aligned(decimal(run.times), 4) + seq![' '] + run.text
    } else {
        run.text
    }
}

/// The runs that are reported, as they are written and in their order.
pub open spec fn report_of(all: Seq<Run>, args: Args) -> Seq<Seq<char>> {
    all.filter(|run: Run| reported(run, args)).map_values(|run: Run| rendered(run, args))
}

/// What a run writes for the lines of its input.
pub open spec fn uniq(lines: Seq<Seq<char>>, args: Args) -> Seq<Seq<char>> {
    let compared = normal_lines(lines, args.ignore_case);
    if args.adjacent {
        report_of(runs(compared), args)
    } else {
        report_of(tally(compared), args)
    }
}

/// Brings every line into its normal form.
pub fn normalize(lines: &Vec<String>, ignore_case: bool) -> (output: Vec<String>)
    ensures
        texts(output@) == normal_lines(texts(lines@), ignore_case),
{
    let mut output: Vec<String> = Vec::new();
    let mut i: usize = 0;
    while i < lines.len()
        invariant
            i <= lines@.len(),
            output@.len() == i,
            forall|k: int|
                0 <= k < i ==> (#[trigger] output@[k])@ == normal(lines@[k]@, ignore_case),
        decreases lines@.len() - i,
    {
        let line = if ignore_case {
            lines[i].as_str().to_lowercase()
        } else {
            lines[i].clone()
        };
        output.push(line);
        i += 1;
    }
    output
}

/// The length of `chars` without the white space at its end.
fn trimmed_len(chars: &Vec<char>) -> (len: usize)
    ensures
        len <= chars@.len(),
        chars@.take(len as int) == trimmed(chars@),
{
    let mut len: usize = chars.len();
    assert(chars@.take(len as int) == chars@);
    while len > 0 && chars[len - 1].is_whitespace()
        invariant
            len <= chars@.len(),
            trimmed(chars@) == trimmed(chars@.take(len as int)),
        decreases len,
    {
        assert(chars@.take(len as int).drop_last() == chars@.take(len - 1));
        len -= 1;
    }
    len
}

/// Tells whether `a[..a_len]` and `b[..b_len]` spell the same.
fn same_start(a: &Vec<char>, a_len: usize, b: &Vec<char>, b_len: usize) -> (same: bool)
    requires
        a_len <= a@.len(),
        b_len <= b@.len(),
    ensures
        same == (a@.take(a_len as int) == b@.take(b_len as int)),
{
    if a_len != b_len {
        assert(a@.take(a_len as int).len() != b@.take(b_len as int).len());
        return false;
    }
    let mut i: usize = 0;
    while i < a_len
        invariant
            i <= a_len == b_len,
            a_len <= a@.len(),
            b_len <= b@.len(),
            forall|k: int| 0 <= k < i ==> a@[k] == b@[k],
        decreases a_len - i,
    {
        if a[i] != b[i] {
            assert(a@.take(a_len as int)[i as int] != b@.take(b_len as int)[i as int]);
            return false;
        }
        i += 1;
    }
    assert(a@.take(a_len as int) =~= b@.take(b_len as int));
    true
}

/// Cuts `lines` into the runs of lines that follow one another and are
/// alike.
pub fn adjacent_groups(lines: &Vec<String>) -> (groups: Vec<Group>)
    ensures
        runs_of(groups@) == runs(texts(lines@)),
{
    let ghost all = texts(lines@);
    let mut groups: Vec<Group> = Vec::new();
    let mut text = String::new();
    let mut times: usize = 0;
    let mut shape: Vec<char> = Vec::new();
    let mut shape_len: usize = 0;
    let mut i: usize = 0;
    while i < lines.len()
        invariant
            i <= lines@.len(),
            all == texts(lines@),
            times <= i,
            shape@ == text@,
            shape_len <= shape@.len(),
            shape@.take(shape_len as int) == trimmed(text@),
            runs(all.take(i as int)) == runs_of(groups@).push(
                Run { text: text@, times: times as nat },
            ),
        decreases lines@.len() - i,
    {
        let line = chars_of(lines[i].as_str());
        let line_len = trimmed_len(&line);
        assert(all.take(i + 1).drop_last() == all.take(i as int));
        if same_start(&line, line_len, &shape, shape_len) {
            times += 1;
        } else {
            groups.push(Group { text, times });
            text = lines[i].clone();
            times = 1;
            shape = line;
            shape_len = line_len;
        }
        i += 1;
    }
    assert(all.take(lines@.len() as int) == all);
    groups.push(Group { text, times });
    groups
}

/// Every line stands among the first occurrences, which hold nothing twice.
pub proof fn lemma_firsts(lines: Seq<Seq<char>>)
    ensures
        forall|line: Seq<char>| lines.contains(line) <==> firsts(lines).contains(line),
        firsts(lines).no_duplicates(),
    decreases lines.len(),
{
    if lines.len() > 0 {
        let before = lines.drop_last();
        let last = lines.last();
        lemma_firsts(before);
        assert forall|line: Seq<char>| lines.contains(line) <==> firsts(lines).contains(
            line,
        ) by {
            if lines.contains(line) {
                let at = choose|at: int| 0 <= at < lines.len() && lines[at] == line;
                if at < before.len() {
                    assert(before[at] == line);
                    assert(before.contains(line));
                    let k = choose|k: int|
                        0 <= k < firsts(before).len() && firsts(before)[k] == line;
                    assert(firsts(lines)[k] == line);
                } else if before.contains(last) {
                    let k = choose|k: int|
                        0 <= k < firsts(before).len() && firsts(before)[k] == line;
                    assert(firsts(lines)[k] == line);
                } else {
                    assert(firsts(lines)[firsts(before).len() as int] == line);
                }
            }
            if firsts(lines).contains(line) {
                let k = choose|k: int| 0 <= k < firsts(lines).len() && firsts(lines)[k] == line;
                if k < firsts(before).len() {
                    assert(firsts(before)[k] == line);
                    assert(firsts(before).contains(line));
                    assert(before.contains(line));
                    let at = choose|at: int| 0 <= at < before.len() && before[at] == line;
                    assert(lines[at] == line);
                } else {
                    assert(lines[lines.len() - 1] == line);
                }
            }
        }
        if !before.contains(last) {
            assert(!firsts(before).contains(last));
        }
    }
}

/// Finds the group whose text is `line`.
fn find_group(groups: &Vec<Group>, line: &String) -> (at: Option<usize>)
    ensures
        match at {
            Some(k) => k < groups@.len() && groups@[k as int].text@ == line@,
            None => forall|k: int| 0 <= k < groups@.len() ==> groups@[k].text@ != line@,
        },
{
    let mut k: usize = 0;
    while k < groups.len()
        invariant
            k <= groups@.len(),
            forall|j: int| 0 <= j < k ==> groups@[j].text@ != line@,
        decreases groups@.len() - k,
    {
        if groups[k].text == *line {
            return Some(k);
        }
        k += 1;
    }
    None
}

/// Gathers the different lines of `lines`, in the order in which they
/// first occur, each with how often it occurs.
pub fn distinct_groups(lines: &Vec<String>) -> (groups: Vec<Group>)
    ensures
        runs_of(groups@) == tally(texts(lines@)),
{
    let ghost all = texts(lines@);
    let mut groups: Vec<Group> = Vec::new();
    let mut i: usize = 0;
    while i < lines.len()
        invariant
            i <= lines@.len(),
            all == texts(lines@),
            runs_of(groups@) == tally(all.take(i as int)),
        decreases lines@.len() - i,
    {
        let ghost seen = all.take(i as int);
        let ghost line = lines@[i as int]@;
        let ghost before = runs_of(groups@);
        proof {
            assert(all.take(i + 1).drop_last() == seen);
            lemma_firsts(seen);
            assert(before.len() == firsts(seen).len());
            assert forall|k: int| 0 <= k < firsts(seen).len() implies groups@[k].text@
                == firsts(seen)[k] && groups@[k].times == occurrences(seen, firsts(seen)[k]) by {
                assert(before[k] == tally(seen)[k]);
            }
            assert forall|k: int| 0 <= k < firsts(seen).len() implies occurrences(
                seen,
                firsts(seen)[k],
            ) <= i by {
                lemma_occurrences_bound(seen, firsts(seen)[k]);
            }
        }
        match find_group(&groups, &lines[i]) {
            Some(k) => {
                proof {
                    assert(firsts(seen)[k as int] == line);
                }
                let times = groups[k].times + 1;
                groups.set(k, Group { text: lines[i].clone(), times });
            },
            None => {
                proof {
                    lemma_absent_occurs_never(seen, line);
                }
                groups.push(Group { text: lines[i].clone(), times: 1 });
            },
        }
        i += 1;
    }
    assert(all.take(lines@.len() as int) == all);
    groups
}

/// Writes one group as a line of the report.
pub fn render(group: &Group, args: &Args) -> (line: String)
    ensures
        line@ == rendered(group@, *args),
{
    if args.count {
        let mut line = String::new();
        push_right_aligned(&mut line, group.times, 4);
        line.push(' ');
        line.append(group.text.as_str());
        line
    } else {
        group.text.clone()
    }
}

/// Writes the groups that are reported, in their order.
pub fn report(groups: &Vec<Group>, args: &Args) -> (output: Vec<String>)
    ensures
        texts(output@) == report_of(runs_of(groups@), *args),
{
    let ghost all = runs_of(groups@);
    let ghost keep = |run: Run| reported(run, *args);
    let ghost write = |run: Run| rendered(run, *args);
    let mut output: Vec<String> = Vec::new();
    let mut i: usize = 0;
    while i < groups.len()
        invariant
            i <= groups@.len(),
            all == runs_of(groups@),
            keep == |run: Run| reported(run, *args),
            write == |run: Run| rendered(run, *args),
            texts(output@) == all.take(i as int).filter(keep).map_values(write),
        decreases groups@.len() - i,
    {
        let group = &groups[i];
        let ghost before = all.take(i as int);
        proof {
            assert(all.take(i + 1) == before.push(group@));
            before.lemma_filter_push(group@, keep);
        }
        let wanted = if args.adjacent {
            group.times > 0
        } else {
            !(args.repeated && group.times == 1) && !(args.unique && group.times > 1)
        };
        if wanted {
            let ghost chosen = before.filter(keep);
            let line = render(group, args);
            output.push(line);
            assert(chosen.push(group@).map_values(write) =~= chosen.map_values(write).push(
                write(group@),
            ));
        }
        i += 1;
    }
    assert(all.take(groups@.len() as int) == all);
    output
}

/// Reports the lines of an input: each run of lines that are alike where
/// only lines that follow one another are compared, else each different
/// line once, in the order of first occurrence.
pub fn uniqr(lines: &Vec<String>, args: &Args) -> (output: Vec<String>)
    ensures
        texts(output@) == uniq(texts(lines@), *args),
{
    let compared = normalize(lines, args.ignore_case);
    let groups = if args.adjacent {
        adjacent_groups(&compared)
    } else {
        distinct_groups(&compared)
    };
    report(&groups, args)
}

/// How many lines a sequence of runs stands for.
pub open spec fn total(all: Seq<Run>) -> nat
    decreases all.len(),
{
    if all.len() == 0 {
        0
    } else {
        total(all.drop_last()) + all.last().times
    }
}

/// The runs of lines that follow one another stand for every line once:
/// there is a run before the first line, each later run has a line, each
/// two neighbours are not alike, and the runs together are as many lines as
/// the input has.
pub proof fn lemma_runs(lines: Seq<Seq<char>>)
    ensures
        runs(lines).len() >= 1,
        total(runs(lines)) == lines.len(),
        forall|k: int| 1 <= k < runs(lines).len() ==> (#[trigger] runs(lines)[k]).times >= 1,
        forall|k: int|
            1 <= k < runs(lines).len() ==> !alike(
                (#[trigger] runs(lines)[k]).text,
                runs(lines)[k - 1].text,
            ),
    decreases lines.len(),
{
    if lines.len() == 0 {
        assert(total(runs(lines).drop_last()) == 0);
    } else {
        let before = runs(lines.drop_last());
        lemma_runs(lines.drop_last());
        let open = before.last();
        if alike(lines.last(), open.text) {
            assert(runs(lines).drop_last() == before.drop_last());
        } else {
            assert(runs(lines).drop_last() == before);
        }
    }
}

} // verus!
