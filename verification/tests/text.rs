use cli_tools::text::{
    chars_of, find_byte, find_char, join, push_decimal, push_right_aligned, string_of,
};

fn decimal(n: usize) -> String {
    let mut out = String::from("n=");
    push_decimal(&mut out, n);
    out
}

fn aligned(n: usize, width: usize) -> String {
    let mut out = String::from("|");
    push_right_aligned(&mut out, n, width);
    out
}

#[test]
fn characters_round_trip() {
    let chars = chars_of("a é 日");
    assert_eq!(chars, vec!['a', ' ', 'é', ' ', '日']);
    assert_eq!(string_of(&chars, 0, 5), "a é 日");
    assert_eq!(string_of(&chars, 2, 3), "é");
    assert_eq!(string_of(&chars, 4, 4), "");
    assert_eq!(chars_of(""), Vec::<char>::new());
}

#[test]
fn first_occurrence_is_found() {
    let chars = chars_of("a,b,,c");
    assert_eq!(find_char(&chars, 0, 6, ','), 1);
    assert_eq!(find_char(&chars, 1, 6, ','), 1);
    assert_eq!(find_char(&chars, 2, 6, ','), 3);
    assert_eq!(find_char(&chars, 4, 6, ','), 4);
    assert_eq!(find_char(&chars, 5, 6, ','), 6);
    assert_eq!(find_char(&chars, 0, 1, ','), 1);
    assert_eq!(find_char(&chars, 0, 6, 'x'), 6);
    assert_eq!(find_char(&chars, 3, 3, ','), 3);
}

#[test]
fn first_byte_is_found() {
    let bytes = b"ab\ncd\n";
    assert_eq!(find_byte(bytes, 0, b'\n'), 2);
    assert_eq!(find_byte(bytes, 2, b'\n'), 2);
    assert_eq!(find_byte(bytes, 3, b'\n'), 5);
    assert_eq!(find_byte(bytes, 6, b'\n'), 6);
    assert_eq!(find_byte(bytes, 0, b'x'), 6);
}

#[test]
fn numbers_are_written_in_decimal() {
    assert_eq!(decimal(0), "n=0");
    assert_eq!(decimal(7), "n=7");
    assert_eq!(decimal(10), "n=10");
    assert_eq!(decimal(1234567890), "n=1234567890");
    assert_eq!(decimal(usize::MAX), format!("n={}", usize::MAX));
}

#[test]
fn numbers_move_to_the_right_edge() {
    assert_eq!(aligned(5, 0), "|5");
    assert_eq!(aligned(5, 1), "|5");
    assert_eq!(aligned(5, 4), "|   5");
    assert_eq!(aligned(1234, 4), "|1234");
    assert_eq!(aligned(12345, 4), "|12345");
    assert_eq!(aligned(0, 8), "|       0");
}

#[test]
fn texts_are_joined_between_only() {
    let lines = vec!["a".to_string(), "".to_string(), "b".to_string()];
    assert_eq!(join(&lines, ','), "a,,b");
    assert_eq!(join(&lines[..1].to_vec(), ','), "a");
    assert_eq!(join(&Vec::new(), ','), "");
}
