use cli_tools::findr::{
    any_hit, findr, listing, name_filter, name_hits, type_filter, Args, Entry, EntryKind,
    NamePattern, Types,
};

fn pattern(source: &str) -> NamePattern {
    match NamePattern::new(source) {
        Ok(made) => made,
        Err(error) => panic!("{}: {}", error.pattern, error.reason),
    }
}

fn entry(kind: EntryKind, path: &str) -> Entry {
    let file_name = path.rsplit('/').next().unwrap_or(path);
    Entry {
        kind,
        file_name: file_name.to_string(),
        path: path.to_string(),
    }
}

fn tree() -> Vec<Entry> {
    vec![
        entry(EntryKind::Dir, "."),
        entry(EntryKind::Dir, "./src"),
        entry(EntryKind::File, "./src/main.rs"),
        entry(EntryKind::File, "./src/lib.rs"),
        entry(EntryKind::Link, "./latest"),
        entry(EntryKind::Other, "./socket"),
        entry(EntryKind::File, "./README.md"),
    ]
}

fn search(names: &[&str], types: &[Types]) -> Args {
    Args {
        paths: vec![".".to_string()],
        names: names.iter().map(|source| pattern(source)).collect(),
        types: types.to_vec(),
    }
}

fn paths(of: &[&str]) -> Vec<String> {
    of.iter().map(|path| path.to_string()).collect()
}

#[test]
fn pattern_keeps_its_source() {
    assert_eq!(pattern(r".*\.rs$").as_str(), r".*\.rs$");
    assert_eq!(pattern("").as_str(), "");
}

#[test]
fn broken_pattern_is_refused_with_a_reason() {
    match NamePattern::new("foo(bar") {
        Ok(_) => panic!("an unclosed group was accepted"),
        Err(error) => {
            assert_eq!(error.pattern, "foo(bar");
            assert!(!error.reason.is_empty());
            assert_ne!(error.reason, "foo(bar");
        }
    }
    assert!(NamePattern::new("*").is_err());
    assert!(NamePattern::new(r"\w{1000}").is_err());
}

#[test]
fn no_kind_asked_takes_every_kind() {
    for kind in [EntryKind::File, EntryKind::Dir, EntryKind::Link, EntryKind::Other] {
        assert!(type_filter(&vec![], kind));
    }
}

#[test]
fn kind_must_be_one_of_those_asked() {
    assert!(type_filter(&vec![Types::File], EntryKind::File));
    assert!(!type_filter(&vec![Types::File], EntryKind::Dir));
    assert!(!type_filter(&vec![Types::File], EntryKind::Link));
    assert!(type_filter(&vec![Types::Dir, Types::Link], EntryKind::Link));
    assert!(type_filter(&vec![Types::Dir, Types::Link], EntryKind::Dir));
    assert!(!type_filter(&vec![Types::Dir, Types::Link], EntryKind::File));
    assert!(!type_filter(
        &vec![Types::File, Types::Dir, Types::Link],
        EntryKind::Other
    ));
}

#[test]
fn each_pattern_answers_for_itself() {
    let names = vec![pattern("^a"), pattern("b$"), pattern("x")];
    assert_eq!(name_hits(&names, "ab"), vec![true, true, false]);
    assert_eq!(name_hits(&names, "ba"), vec![false, false, false]);
    assert_eq!(name_hits(&names, "xb"), vec![false, true, true]);
    assert_eq!(name_hits(&vec![], "xb"), Vec::<bool>::new());
}

#[test]
fn one_hit_is_enough() {
    assert!(any_hit(&vec![]));
    assert!(any_hit(&vec![true]));
    assert!(!any_hit(&vec![false]));
    assert!(any_hit(&vec![false, false, true]));
    assert!(any_hit(&vec![true, false]));
    assert!(!any_hit(&vec![false, false, false]));
}

#[test]
fn name_matches_anywhere() {
    assert!(name_filter(&vec![], "anything"));
    assert!(name_filter(&vec![pattern("ai")], "main.rs"));
    assert!(!name_filter(&vec![pattern("^ai")], "main.rs"));
    assert!(name_filter(&vec![pattern(r"\.md$"), pattern(r"\.rs$")], "main.rs"));
    assert!(!name_filter(&vec![pattern(r"\.md$"), pattern(r"\.toml$")], "main.rs"));
    assert!(name_filter(&vec![pattern("")], ""));
    assert!(!name_filter(&vec![pattern("main.rs")], "rs"));
}

#[test]
fn search_without_filters_finds_all() {
    let found = findr(&tree(), &search(&[], &[]));
    assert_eq!(
        found,
        paths(&[
            ".",
            "./src",
            "./src/main.rs",
            "./src/lib.rs",
            "./latest",
            "./socket",
            "./README.md"
        ])
    );
}

#[test]
fn search_by_kind() {
    assert_eq!(
        findr(&tree(), &search(&[], &[Types::Dir])),
        paths(&[".", "./src"])
    );
    assert_eq!(
        findr(&tree(), &search(&[], &[Types::Link, Types::Dir])),
        paths(&[".", "./src", "./latest"])
    );
}

#[test]
fn search_by_name_looks_at_the_last_part() {
    assert_eq!(
        findr(&tree(), &search(&[r"\.rs$"], &[])),
        paths(&["./src/main.rs", "./src/lib.rs"])
    );
    assert_eq!(
        findr(&tree(), &search(&["src"], &[])),
        paths(&["./src"])
    );
}

#[test]
fn search_by_kind_and_name() {
    assert_eq!(
        findr(&tree(), &search(&["^l", "^R"], &[Types::File])),
        paths(&["./src/lib.rs", "./README.md"])
    );
    assert_eq!(
        findr(&tree(), &search(&["^l"], &[Types::Link])),
        paths(&["./latest"])
    );
    assert_eq!(findr(&tree(), &search(&["^zzz"], &[])), paths(&[]));
    assert_eq!(findr(&vec![], &search(&[], &[])), paths(&[]));
}

#[test]
fn listing_has_one_path_to_a_line() {
    assert_eq!(listing(&paths(&["./a", "./b", "./c"])), "./a\n./b\n./c");
    assert_eq!(listing(&paths(&["./a"])), "./a");
    assert_eq!(listing(&paths(&[])), "");
    assert_eq!(listing(&paths(&["", ""])), "\n");
}
