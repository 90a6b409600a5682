use textutils::wc::{format_file_count, get_file_count, sum_file_count, Args, FileCount};

fn wc_args(lines: bool, words: bool, bytes: bool, chars: bool) -> Args {
    Args { files: Vec::new(), lines, words, bytes, chars }
}

#[test]
fn word_split_is_strictly_on_single_spaces() {
    // "a b  c" splits into the four fields "a", "b", "" and "c": the doubled
    // space contributes an empty field instead of being collapsed.
    let got = get_file_count(&vec![String::from("a b  c")]);
    assert_eq!(got.words, 4);
    assert_eq!(got.lines, 1);
    assert_eq!(got.bytes, 6);
    assert_eq!(got.characters, 6);
}

#[test]
fn tabs_do_not_split_words() {
    let got = get_file_count(&vec![String::from("a\tb c")]);
    assert_eq!(got.words, 2);
}

#[test]
fn bytes_and_characters_differ_on_multibyte_text() {
    let got = get_file_count(&vec![String::from("h\u{e9}llo")]);
    assert_eq!(got.characters, 5);
    assert_eq!(got.bytes, 6);
}

#[test]
fn empty_file_counts() {
    let got = get_file_count(&Vec::new());
    assert_eq!(got.lines, 0);
    assert_eq!(got.words, 0);
    assert_eq!(got.bytes, 0);
    assert_eq!(got.characters, 0);
}

#[test]
fn totals_sum_every_counter() {
    let first = FileCount { words: 2, lines: 1, bytes: 10, characters: 9 };
    let second = FileCount { words: 5, lines: 3, bytes: 20, characters: 20 };
    let total = sum_file_count(vec![first, second]);
    assert_eq!(total, FileCount { words: 7, lines: 4, bytes: 30, characters: 29 });
}

#[test]
fn count_row_lists_enabled_counters_and_name() {
    let fc = FileCount { words: 4, lines: 1, bytes: 6, characters: 6 };
    let row = format_file_count(Some("total"), &fc, &wc_args(true, true, true, false));
    assert_eq!(row, "\t\t1\t4\t6\ttotal");
}

#[test]
fn count_row_shows_characters_only_without_bytes() {
    let fc = FileCount { words: 4, lines: 1, bytes: 6, characters: 5 };
    let chars_row = format_file_count(None, &fc, &wc_args(false, false, false, true));
    assert_eq!(chars_row, "\t\t5");
    let bytes_row = format_file_count(None, &fc, &wc_args(false, false, true, true));
    assert_eq!(bytes_row, "\t\t6");
}
