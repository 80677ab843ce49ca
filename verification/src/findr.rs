//! Choosing entries of a directory tree by their kind and by their name.

use crate::text::{join, joined, texts};
use regex::Regex;
use vstd::prelude::*;
use vstd::string::StringExecFns;

verus! {

/// A compiled regular expression of the `regex` crate. Nothing inside it
/// is seen here: it is carried from `Regex::new` to `Regex::is_match`.
#[verifier::external_type_specification]
#[verifier::external_body]
pub struct ExRegex(regex::Regex);

/// Why the `regex` crate refuses a pattern. Nothing inside it is seen
/// here.
#[verifier::external_type_specification]
#[verifier::external_body]
pub struct ExRegexError(regex::Error);

/// Whether `Regex::new` accepts a pattern: whether it is a regular
/// expression in the syntax of the `regex` crate that compiles within the
/// crate's default size limit.
pub uninterp spec fn is_pattern(pattern: Seq<char>) -> bool;

/// Whether the regular expression that `Regex::new` makes of `pattern`
/// matches somewhere in `text`, as `Regex::is_match` tells. It is given no
/// meaning for a `pattern` that `Regex::new` refuses.
pub uninterp spec fn matches_somewhere(pattern: Seq<char>, text: Seq<char>) -> bool;

/// The kinds of entry that a search can ask for.
#[derive(Debug, Clone, Copy, PartialEq, Eq)]
pub enum Types {
    /// A file.
    File,
    /// A directory.
    Dir,
    /// A link.
    Link,
}

/// What an entry of the tree is.
#[derive(Debug, Clone, Copy, PartialEq, Eq)]
pub enum EntryKind {
    File,
    Dir,
    Link,
    /// Anything else, such as a socket.
    Other,
}

/// An entry of the tree as the walk found it.
#[derive(Debug, PartialEq, Eq)]
pub struct Entry {
    /// What the entry is.
    pub kind: EntryKind,
    /// The last part of its path.
    pub file_name: String,
    /// Its whole path.
    pub path: String,
}

/// A pattern for names, kept with the regular expression compiled from it.
///
/// Every value is made by `NamePattern::new`, so that `compiled` is what
/// `Regex::new` makes of `source`.
#[derive(Debug)]
pub struct NamePattern {
    source: String,
    compiled: Regex,
}

impl View for NamePattern {
    type V = Seq<char>;

    closed spec fn view(&self) -> Seq<char> {
        self.source@
    }
}

/// A pattern that is no regular expression.
#[derive(Debug, PartialEq, Eq)]
pub struct PatternError {
    /// The pattern as it was given.
    pub pattern: String,
    /// What the `regex` crate says is wrong with it.
    pub reason: String,
}

/// Calls `Regex::new`. Taken on trust: whether it succeeds depends on the
/// pattern alone, which `is_pattern` names. The value made keeps the pattern
/// beside the expression compiled from it.
#[verifier::external_body]
fn compile(pattern: &str) -> (res: Result<NamePattern, regex::Error>)
    ensures
        res is Ok <==> is_pattern(pattern@),
        res matches Ok(made) ==> made@ == pattern@,
{
    match Regex::new(pattern) {
        Ok(compiled) => Ok(NamePattern { source: pattern.to_string(), compiled }),
        Err(error) => Err(error),
    }
}

/// Calls `Regex::is_match` on the compiled expression. Taken on trust: the
/// answer depends on the pattern that was compiled and on the text alone,
/// which `matches_somewhere` names, and the call does not panic.
#[verifier::external_body]
fn is_match(pattern: &NamePattern, text: &str) -> (found: bool)
    ensures
        found == matches_somewhere(pattern@, text@),
{
    pattern.compiled.is_match(text)
}

/// The words of a `regex::Error`, by its `Display`. Nothing is claimed of
/// them.
#[verifier::external_body]
fn describe(error: &regex::Error) -> String {
    error.to_string()
}

impl NamePattern {
    /// Compiles a pattern for names.
    pub fn new(pattern: &str) -> (res: Result<NamePattern, PatternError>)
        ensures
            res is Ok <==> is_pattern(pattern@),
            res matches Ok(made) ==> made@ == pattern@,
            res matches Err(error) ==> error.pattern@ == pattern@,
    {
        match compile(pattern) {
            Ok(made) => Ok(made),
            Err(error) => Err(
                PatternError { pattern: String::from_str(pattern), reason: describe(&error) },
            ),
        }
    }

    /// The pattern as it was given.
    pub fn as_str(&self) -> (source: &str)
        ensures
            source@ == self@,
    {
        self.source.as_str()
    }
}

/// What to search: the paths to walk, and the names and kinds to keep.
#[derive(Debug)]
pub struct Args {
    /// The paths to search.
    pub paths: Vec<String>,
    /// The patterns of which a name must match one; none to take any name.
    pub names: Vec<NamePattern>,
    /// The kinds of which an entry must be one; none to take any kind.
    pub types: Vec<Types>,
}

/// The patterns that a sequence of compiled patterns was made from.
pub open spec fn sources(names: Seq<NamePattern>) -> Seq<Seq<char>> {
    Seq::new(names.len(), |i: int| names[i]@)
}

/// An entry of kind `kind` is what `wanted` asks for.
pub open spec fn is_of(kind: EntryKind, wanted: Types) -> bool {
    match wanted {
        Types::File => kind == EntryKind::File,
        Types::Dir => kind == EntryKind::Dir,
        Types::Link => kind == EntryKind::Link,
    }
}

/// The kind passes: no kind is asked for, or the entry is of one that is.
pub open spec fn kind_passes(types: Seq<Types>, kind: EntryKind) -> bool {
    types.len() == 0 || exists|i: int| 0 <= i < types.len() && is_of(kind, #[trigger] types[i])
}

/// The answers pass: there is no pattern, or one of them matched.
pub open spec fn some_hit(hits: Seq<bool>) -> bool {
    hits.len() == 0 || exists|i: int| 0 <= i < hits.len() && #[trigger] hits[i]
}

/// The name passes: there is no pattern, or one of them matches somewhere in
/// the name.
pub open spec fn name_passes(patterns: Seq<Seq<char>>, file_name: Seq<char>) -> bool {
    patterns.len() == 0 || exists|i: int|
        0 <= i < patterns.len() && matches_somewhere(#[trigger] patterns[i], file_name)
}

/// An entry is kept where its kind and its name both pass.
pub open spec fn kept(entry: Entry, args: Args) -> bool {
    kind_passes(args.types@, entry.kind) && name_passes(sources(args.names@), entry.file_name@)
}

/// Tells whether an entry of kind `kind` is among the kinds asked for.
pub fn type_filter(types: &Vec<Types>, kind: EntryKind) -> (passes: bool)
    ensures
        passes == kind_passes(types@, kind),
{
    if types.len() == 0 {
        return true;
    }
    let mut i: usize = 0;
    while i < types.len()
        invariant
            i <= types@.len(),
            forall|k: int| 0 <= k < i ==> !is_of(kind, #[trigger] types@[k]),
        decreases types@.len() - i,
    {
        let found = match types[i] {
            Types::File => matches!(kind, EntryKind::File),
            Types::Dir => matches!(kind, EntryKind::Dir),
            Types::Link => matches!(kind, EntryKind::Link),
        };
        if found {
            return true;
        }
        i += 1;
    }
    false
}

/// Asks each pattern whether it matches somewhere in `file_name`.
pub fn name_hits(names: &Vec<NamePattern>, file_name: &str) -> (hits: Vec<bool>)
    ensures
        hits@.len() == names@.len(),
        forall|i: int|
            0 <= i < names@.len() ==> #[trigger] hits@[i] == matches_somewhere(
                names@[i]@,
                file_name@,
            ),
{
    let mut hits: Vec<bool> = Vec::new();
    let mut i: usize = 0;
    while i < names.len()
        invariant
            i <= names@.len(),
            hits@.len() == i,
            forall|k: int|
                0 <= k < i ==> #[trigger] hits@[k] == matches_somewhere(names@[k]@, file_name@),
        decreases names@.len() - i,
    {
        hits.push(is_match(&names[i], file_name));
        i += 1;
    }
    hits
}

/// Decides on a name from what each pattern answered: it passes where
/// there is no pattern or one of them matched.
pub fn any_hit(hits: &Vec<bool>) -> (passes: bool)
    ensures
        passes == some_hit(hits@),
{
    if hits.len() == 0 {
        return true;
    }
    let mut i: usize = 0;
    while i < hits.len()
        invariant
            i <= hits@.len(),
            forall|k: int| 0 <= k < i ==> !hits@[k],
        decreases hits@.len() - i,
    {
        if hits[i] {
            return true;
        }
        i += 1;
    }
    false
}

/// Tells whether a name passes the patterns.
pub fn name_filter(names: &Vec<NamePattern>, file_name: &str) -> (passes: bool)
    ensures
        passes == name_passes(sources(names@), file_name@),
{
    let hits = name_hits(names, file_name);
    let passes = any_hit(&hits);
    proof {
        let patterns = sources(names@);
        if passes && hits@.len() > 0 {
            let i = choose|i: int| 0 <= i < hits@.len() && #[trigger] hits@[i];
            assert(matches_somewhere(patterns[i], file_name@));
        }
        if name_passes(patterns, file_name@) && patterns.len() > 0 {
            let i = choose|i: int|
                0 <= i < patterns.len() && matches_somewhere(#[trigger] patterns[i], file_name@);
            assert(hits@[i]);
        }
    }
    passes
}

/// The paths of the entries that are kept, in the order of the walk.
pub open spec fn found(entries: Seq<Entry>, args: Args) -> Seq<Seq<char>> {
    entries.filter(|entry: Entry| kept(entry, args)).map_values(|entry: Entry| entry.path@)
}

/// Picks the entries whose kind and name pass and gives their paths, in
/// the order of the walk.
pub fn findr(entries: &Vec<Entry>, args: &Args) -> (paths: Vec<String>)
    ensures
        texts(paths@) == found(entries@, *args),
{
    let ghost keep = |entry: Entry| kept(entry, *args);
    let ghost path = |entry: Entry| entry.path@;
    let mut paths: Vec<String> = Vec::new();
    let mut i: usize = 0;
    while i < entries.len()
        invariant
            i <= entries@.len(),
            keep == |entry: Entry| kept(entry, *args),
            path == |entry: Entry| entry.path@,
            texts(paths@) == entries@.take(i as int).filter(keep).map_values(path),
        decreases entries@.len() - i,
    {
        let entry = &entries[i];
        let ghost before = entries@.take(i as int);
        proof {
            assert(entries@.take(i + 1) == before.push(*entry));
            before.lemma_filter_push(*entry, keep);
        }
        if type_filter(&args.types, entry.kind) && name_filter(
            &args.names,
            entry.file_name.as_str(),
        ) {
            let ghost chosen = before.filter(keep);
            paths.push(entry.path.clone());
            assert(chosen.push(*entry).map_values(path) =~= chosen.map_values(path).push(
                path(*entry),
            ));
        }
        i += 1;
    }
    assert(entries@.take(entries@.len() as int) == entries@);
    paths
}

/// Writes the paths found, one to a line.
pub fn listing(paths: &Vec<String>) -> (text: String)
    ensures
        text@ == joined(texts(paths@), '\n'),
{
    join(paths, '\n')
}

} // verus!
