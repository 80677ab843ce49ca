use cli_tools::catr::{catr, number_line};

fn lines(of: &[&str]) -> Vec<String> {
    of.iter().map(|line| line.to_string()).collect()
}

#[test]
fn plain_copy_changes_nothing() {
    let input = lines(&["one", "", "three"]);
    assert_eq!(catr(&input, false, false), input);
    assert_eq!(catr(&lines(&[]), false, false), lines(&[]));
}

#[test]
fn every_line_gets_a_number() {
    let input = lines(&["one", "", "three"]);
    assert_eq!(
        catr(&input, true, false),
        lines(&["     1\tone", "     2\t", "     3\tthree"])
    );
}

#[test]
fn empty_lines_take_no_number() {
    let input = lines(&["one", "", "", "four", " ", ""]);
    assert_eq!(
        catr(&input, false, true),
        lines(&["     1\tone", "", "", "     2\tfour", "     3\t ", ""])
    );
}

#[test]
fn numbering_all_lines_wins() {
    let input = lines(&["", "two"]);
    assert_eq!(
        catr(&input, true, true),
        lines(&["     1\t", "     2\ttwo"])
    );
}

#[test]
fn numbers_fill_six_columns_and_grow() {
    assert_eq!(number_line(7, "x"), "     7\tx");
    assert_eq!(number_line(123456, "x"), "123456\tx");
    assert_eq!(number_line(1234567, "x"), "1234567\tx");
    assert_eq!(number_line(0, ""), "     0\t");
}

#[test]
fn tenth_line_has_two_digits() {
    let input = vec!["l".to_string(); 12];
    let output = catr(&input, true, false);
    assert_eq!(output[8], "     9\tl");
    assert_eq!(output[9], "    10\tl");
    assert_eq!(output[11], "    12\tl");
}
