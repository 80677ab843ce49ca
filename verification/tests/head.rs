use cli_tools::headr::{first_bytes, first_lines, headr, include_header, Modification};

fn by_lines(lines: u64) -> Modification {
    Modification {
        files_count: 1,
        lines,
        bytes: None,
        quiet: false,
        verbose: false,
    }
}

fn by_bytes(bytes: u64) -> Modification {
    Modification {
        files_count: 1,
        lines: 10,
        bytes: Some(bytes),
        quiet: false,
        verbose: false,
    }
}

fn announcing(files_count: usize, quiet: bool, verbose: bool) -> Modification {
    Modification {
        files_count,
        lines: 10,
        bytes: None,
        quiet,
        verbose,
    }
}

#[test]
fn head_keeps_the_first_lines() {
    let input = b"one\ntwo\nthree\nfour\n";
    assert_eq!(first_lines(input, 0), b"");
    assert_eq!(first_lines(input, 1), b"one\n");
    assert_eq!(first_lines(input, 2), b"one\ntwo\n");
    assert_eq!(first_lines(input, 4), input);
    assert_eq!(first_lines(input, 5), input);
    assert_eq!(first_lines(input, u64::MAX), input);
}

#[test]
fn head_keeps_a_last_line_without_feed() {
    let input = b"one\ntwo";
    assert_eq!(first_lines(input, 1), b"one\n");
    assert_eq!(first_lines(input, 2), b"one\ntwo");
    assert_eq!(first_lines(input, 3), b"one\ntwo");
    assert_eq!(first_lines(b"", 3), b"");
    assert_eq!(first_lines(b"\n\n\n", 2), b"\n\n");
    assert_eq!(first_lines(b"x", 1), b"x");
}

#[test]
fn head_keeps_the_first_bytes() {
    let input = b"one\ntwo\n";
    assert_eq!(first_bytes(input, 0), b"");
    assert_eq!(first_bytes(input, 2), b"on");
    assert_eq!(first_bytes(input, 5), b"one\nt");
    assert_eq!(first_bytes(input, 8), input);
    assert_eq!(first_bytes(input, 9), input);
    assert_eq!(first_bytes(input, u64::MAX), input);
    assert_eq!(first_bytes("é".as_bytes(), 1), &[0xc3][..]);
}

#[test]
fn bytes_win_over_lines() {
    let input = b"one\ntwo\nthree\n";
    assert_eq!(headr(input, &by_lines(2)), b"one\ntwo\n");
    assert_eq!(headr(input, &by_bytes(2)), b"on");
    assert_eq!(headr(input, &by_bytes(0)), b"");
    assert_eq!(headr(input, &by_lines(0)), b"");
    assert_eq!(headr(input, &by_lines(10)), input);
}

#[test]
fn header_names_the_file() {
    let line = include_header("a.txt", 0, &announcing(2, false, false));
    assert_eq!(line, Some("==> a.txt <==".to_string()));
}

#[test]
fn later_headers_are_set_off() {
    let line = include_header("b.txt", 1, &announcing(2, false, false));
    assert_eq!(line, Some("\n==> b.txt <==".to_string()));
    let line = include_header("c.txt", 7, &announcing(9, false, true));
    assert_eq!(line, Some("\n==> c.txt <==".to_string()));
}

#[test]
fn single_input_has_no_header() {
    assert_eq!(include_header("a.txt", 0, &announcing(1, false, false)), None);
    assert_eq!(include_header("a.txt", 0, &announcing(0, false, false)), None);
}

#[test]
fn verbose_run_always_has_a_header() {
    assert_eq!(
        include_header("-", 0, &announcing(1, false, true)),
        Some("==> - <==".to_string())
    );
}

#[test]
fn quiet_run_never_has_a_header() {
    assert_eq!(include_header("a.txt", 0, &announcing(5, true, false)), None);
    assert_eq!(include_header("a.txt", 1, &announcing(5, true, true)), None);
}
