use textutils::cat::{number_file, Args, LineNumberOption};
use textutils::decimal::usize_to_string;

fn lines(words: &[&str]) -> Vec<String> {
    words.iter().map(|w| String::from(*w)).collect()
}

#[test]
fn numbering_all_lines_counts_blank_ones() {
    let (out, next) = number_file(&lines(&["x", "", "y"]), &LineNumberOption::NumberAll, 0);
    assert_eq!(out, lines(&["1\tx", "2\t", "3\ty"]));
    assert_eq!(next, 3);
}

#[test]
fn numbering_nonblank_passes_blank_lines_through() {
    let (out, next) = number_file(
        &lines(&["x", "", "y"]),
        &LineNumberOption::NumberOnlyNonBlank,
        0,
    );
    assert_eq!(out, lines(&["1\tx", "", "2\ty"]));
    assert_eq!(next, 2);
}

#[test]
fn numbering_none_changes_nothing() {
    let input = lines(&["x", "", "y"]);
    let (out, next) = number_file(&input, &LineNumberOption::NumberNone, 0);
    assert_eq!(out, input);
    assert_eq!(next, 0);
}

#[test]
fn the_counter_carries_across_files() {
    let (_, after_first) = number_file(&lines(&["a", "b"]), &LineNumberOption::NumberAll, 0);
    let (out, next) = number_file(&lines(&["c"]), &LineNumberOption::NumberAll, after_first);
    assert_eq!(out, lines(&["3\tc"]));
    assert_eq!(next, 3);
}

#[test]
fn the_flags_pick_the_numbering_mode() {
    let args = Args { files: Vec::new(), number_lines: true, number_nonblank_lines: false };
    assert_eq!(args.get_line_number_option(), LineNumberOption::NumberAll);
    let args = Args { files: Vec::new(), number_lines: false, number_nonblank_lines: true };
    assert_eq!(args.get_line_number_option(), LineNumberOption::NumberOnlyNonBlank);
    let args = Args { files: Vec::new(), number_lines: false, number_nonblank_lines: false };
    assert_eq!(args.get_line_number_option(), LineNumberOption::NumberNone);
}

#[test]
fn decimal_rendering_is_exact() {
    assert_eq!(usize_to_string(0), "0");
    assert_eq!(usize_to_string(7), "7");
    assert_eq!(usize_to_string(12034), "12034");
}
