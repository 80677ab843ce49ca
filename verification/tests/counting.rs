use cli_tools::wcr::{apply_defaults, count, show, Args, FileInfo};

struct ShowFixture {
    filename: String,
    args: Args,
    info: FileInfo,
    expected: String,
}

fn fixtures_show() -> Vec<ShowFixture> {
    let show_all = ShowFixture {
        filename: "test.txt".to_string(),
        args: Args {
            lines: true,
            words: true,
            bytes: true,
            chars: true,
            files: vec![],
        },
        info: FileInfo {
            num_lines: 2,
            num_words: 10,
            num_chars: 48,
            num_bytes: 58,
        },
        expected: "       2      10      48      58 test.txt".to_string(),
    };
    let show_lwb = ShowFixture {
        filename: "test.txt".to_string(),
        args: Args {
            lines: true,
            words: true,
            bytes: true,
            chars: false,
            files: vec![],
        },
        info: FileInfo {
            num_lines: 2,
            num_words: 10,
            num_chars: 48,
            num_bytes: 58,
        },
        expected: "       2      10      58 test.txt".to_string(),
    };
    let show_l = ShowFixture {
        filename: "-".to_string(),
        args: Args {
            lines: true,
            words: false,
            bytes: false,
            chars: false,
            files: vec![],
        },
        info: FileInfo {
            num_lines: 2,
            num_words: 10,
            num_chars: 48,
            num_bytes: 58,
        },
        expected: "       2".to_string(),
    };

    vec![show_all, show_lwb, show_l]
}

fn flags(lines: bool, words: bool, bytes: bool, chars: bool) -> Args {
    Args {
        files: vec!["a.txt".to_string()],
        lines,
        words,
        bytes,
        chars,
    }
}

#[test]
fn test_count() {
    let text = "I don't want the world.\nI just want your half.\r\n";
    let info = count(text);
    let expected = FileInfo {
        num_lines: 2,
        num_words: 10,
        num_chars: 48,
        num_bytes: 48,
    };
    assert_eq!(info, expected);
}

#[test]
fn test_show() {
    for fixture in fixtures_show() {
        let output = show(&fixture.filename, &fixture.info, &fixture.args);
        assert_eq!(output, fixture.expected);
    }
}

#[test]
fn empty_text_counts_nothing() {
    assert_eq!(count(""), FileInfo::new());
    assert_eq!(
        FileInfo::new(),
        FileInfo {
            num_lines: 0,
            num_words: 0,
            num_bytes: 0,
            num_chars: 0
        }
    );
}

#[test]
fn last_line_without_feed_is_a_line() {
    assert_eq!(count("one\ntwo").num_lines, 2);
    assert_eq!(count("one\ntwo\n").num_lines, 2);
    assert_eq!(count("one").num_lines, 1);
    assert_eq!(count("\n").num_lines, 1);
    assert_eq!(count("\n\n\n").num_lines, 3);
    assert_eq!(count("\n\nx").num_lines, 3);
}

#[test]
fn words_are_runs_between_white_space() {
    assert_eq!(count("  a  b\tc\n\nd ").num_words, 4);
    assert_eq!(count("   \n\t ").num_words, 0);
    assert_eq!(count("word").num_words, 1);
    assert_eq!(count("a\u{a0}b\u{2003}c").num_words, 3);
    assert_eq!(count("a_b-c.d").num_words, 1);
}

#[test]
fn characters_and_bytes_differ_beyond_ascii() {
    let info = count("é ß\n日本語\n");
    assert_eq!(
        info,
        FileInfo {
            num_lines: 2,
            num_words: 3,
            num_bytes: 16,
            num_chars: 8
        }
    );
    let info = count("🦀");
    assert_eq!(info.num_chars, 1);
    assert_eq!(info.num_bytes, 4);
}

#[test]
fn counts_of_lines_add_up_to_the_counts_of_the_text() {
    let lines = ["I don't want the world.\n", "\n", "  I just want\tyour half.\r\n", "end"];
    let mut total = FileInfo::new();
    for line in lines {
        total.sum(&count(line));
    }
    assert_eq!(total, count(&lines.concat()));
}

#[test]
fn sum_adds_each_column() {
    let mut total = FileInfo {
        num_lines: 1,
        num_words: 2,
        num_bytes: 3,
        num_chars: 4,
    };
    total.sum(&FileInfo {
        num_lines: 10,
        num_words: 20,
        num_bytes: 30,
        num_chars: 40,
    });
    assert_eq!(
        total,
        FileInfo {
            num_lines: 11,
            num_words: 22,
            num_bytes: 33,
            num_chars: 44
        }
    );
    total.sum(&FileInfo::new());
    assert_eq!(total.num_lines, 11);
}

#[test]
fn wide_numbers_are_not_cut() {
    let info = FileInfo {
        num_lines: 123456789,
        num_words: 12345678,
        num_bytes: 0,
        num_chars: 1234567,
    };
    assert_eq!(
        show(&"f".to_string(), &info, &flags(true, true, true, true)),
        "12345678912345678 1234567       0 f"
    );
}

#[test]
fn columns_keep_their_order() {
    let info = FileInfo {
        num_lines: 1,
        num_words: 2,
        num_bytes: 4,
        num_chars: 3,
    };
    assert_eq!(
        show(&"x".to_string(), &info, &flags(false, false, true, true)),
        "       3       4 x"
    );
    assert_eq!(
        show(&"x".to_string(), &info, &flags(false, true, false, false)),
        "       2 x"
    );
    assert_eq!(
        show(&"x".to_string(), &info, &flags(false, false, false, false)),
        " x"
    );
    assert_eq!(
        show(&"-".to_string(), &info, &flags(false, false, false, false)),
        ""
    );
    assert_eq!(
        show(&"--".to_string(), &info, &flags(true, false, false, false)),
        "       1 --"
    );
    assert_eq!(
        show(&"total".to_string(), &info, &flags(true, true, true, false)),
        "       1       2       4 total"
    );
}

#[test]
fn no_column_means_lines_words_and_bytes() {
    let mut args = flags(false, false, false, false);
    apply_defaults(&mut args);
    assert_eq!(args, flags(true, true, true, false));
}

#[test]
fn a_chosen_column_stays_alone() {
    for chosen in [
        flags(true, false, false, false),
        flags(false, true, false, false),
        flags(false, false, true, false),
        flags(false, false, false, true),
        flags(true, false, false, true),
        flags(true, true, true, true),
    ] {
        let mut args = flags(chosen.lines, chosen.words, chosen.bytes, chosen.chars);
        apply_defaults(&mut args);
        assert_eq!(args, chosen);
    }
}
