use textutils::uniq::{display, get_line_counts, Args, LineCount};

fn uniq_args(count: bool) -> Args {
    Args { in_file: String::from("-"), out_file: None, count }
}

fn lines(words: &[&str]) -> Vec<String> {
    words.iter().map(|w| String::from(*w)).collect()
}

fn runs(line_counts: &[LineCount]) -> Vec<(String, usize)> {
    line_counts.iter().map(|lc| (lc.line.clone(), lc.count)).collect()
}

#[test]
fn non_adjacent_repeats_stay_separate() {
    let got = get_line_counts(lines(&["a", "b", "a"]));
    assert_eq!(
        runs(&got),
        vec![
            (String::from("a"), 1),
            (String::from("b"), 1),
            (String::from("a"), 1),
        ]
    );
}

#[test]
fn adjacent_equal_lines_merge() {
    let got = get_line_counts(lines(&["x", "x", "y", "y", "y", "x"]));
    assert_eq!(
        runs(&got),
        vec![
            (String::from("x"), 2),
            (String::from("y"), 3),
            (String::from("x"), 1),
        ]
    );
}

#[test]
fn counted_display_example() {
    let got = get_line_counts(lines(&["x", "x", "y", "y", "y", "x"]));
    assert_eq!(display(&uniq_args(true), got), "\t2\tx\n\t3\ty\n\t1\tx\n");
}

#[test]
fn plain_display_has_no_newlines() {
    let got = get_line_counts(lines(&["a", "a", "b"]));
    assert_eq!(display(&uniq_args(false), got), "\ta\tb");
}

#[test]
fn empty_input_renders_empty() {
    assert_eq!(get_line_counts(Vec::new()).len(), 0);
    assert_eq!(display(&uniq_args(true), Vec::new()), "");
    assert_eq!(display(&uniq_args(false), Vec::new()), "");
}

#[test]
fn empty_string_lines_are_real_runs() {
    let got = get_line_counts(lines(&["", "", "a"]));
    assert_eq!(runs(&got), vec![(String::from(""), 2), (String::from("a"), 1)]);
}

#[test]
fn counts_add_up_to_the_line_count() {
    let input = lines(&["x", "x", "y", "y", "y", "x", "z"]);
    let n = input.len();
    let got = get_line_counts(input);
    let total: usize = got.iter().map(|lc| lc.count).sum();
    assert_eq!(total, n);
}

#[test]
fn adjacent_runs_differ() {
    let got = get_line_counts(lines(&["a", "a", "b", "b", "a"]));
    for pair in got.windows(2) {
        assert_ne!(pair[0].line, pair[1].line);
    }
    for lc in &got {
        assert!(lc.count >= 1);
    }
}

#[test]
fn display_is_deterministic() {
    let first = display(&uniq_args(true), get_line_counts(lines(&["a", "a", "b"])));
    let second = display(&uniq_args(true), get_line_counts(lines(&["a", "a", "b"])));
    assert_eq!(first, second);
}
