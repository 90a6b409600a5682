//! Counting lines, words, bytes and characters, and rendering the count rows.

use vstd::prelude::*;
use vstd::utf8::encode_utf8;

use crate::decimal::{dec_digits, usize_to_string};

verus! {

/// Arguments of the counting utility: which counters to show.
pub struct Args {
    pub files: Vec<String>,
    pub lines: bool,
    pub words: bool,
    pub bytes: bool,
    pub chars: bool,
}

/// The four counters accumulated over one file.
#[derive(Clone, Copy, Debug, PartialEq, Eq, Structural)]
pub struct FileCount {
    pub words: usize,
    pub lines: usize,
    pub bytes: usize,
    pub characters: usize,
}

/// How often `c` occurs in `s`.
pub open spec fn count_char(s: Seq<char>, c: char) -> nat
    decreases s.len(),
{
    if s.len() == 0 {
        0
    } else {
        count_char(s.drop_last(), c) + if s.last() == c {
            1nat
        } else {
            0nat
        }
    }
}

/// The fields of one line under a split strictly on the space character:
/// one more than the number of spaces, so doubled spaces yield empty fields
/// that are counted too.
pub open spec fn line_words(s: Seq<char>) -> nat {
    count_char(s, ' ') + 1
}

/// The UTF-8 bytes of all lines added up (line terminators excluded).
pub open spec fn total_bytes(lines: Seq<Seq<char>>) -> nat
    decreases lines.len(),
{
    if lines.len() == 0 {
        0
    } else {
        total_bytes(lines.drop_last()) + encode_utf8(lines.last()).len()
    }
}

/// The characters of all lines added up (line terminators excluded).
pub open spec fn total_chars(lines: Seq<Seq<char>>) -> nat
    decreases lines.len(),
{
    if lines.len() == 0 {
        0
    } else {
        total_chars(lines.drop_last()) + lines.last().len()
    }
}

/// The space-split fields of all lines added up.
pub open spec fn total_words(lines: Seq<Seq<char>>) -> nat
    decreases lines.len(),
{
    if lines.len() == 0 {
        0
    } else {
        total_words(lines.drop_last()) + line_words(lines.last())
    }
}

/// Each total over a prefix is bounded by the total over the whole input.
proof fn lemma_totals_prefix(lines: Seq<Seq<char>>, j: int)
    requires
        0 <= j <= lines.len(),
    ensures
        total_bytes(lines.take(j)) <= total_bytes(lines),
        total_chars(lines.take(j)) <= total_chars(lines),
        total_words(lines.take(j)) <= total_words(lines),
    decreases lines.len() - j,
{
    if j == lines.len() {
        assert(lines.take(j) =~= lines);
    } else {
        assert(lines.take(j + 1).drop_last() =~= lines.take(j));
        lemma_totals_prefix(lines, j + 1);
    }
}

/// Counts the space characters of one line.
fn count_spaces(line: &String) -> (r: usize)
    ensures
        r == count_char(line@, ' '),
{
    let s = line.as_str();
    let m = s.unicode_len();
    let mut spaces: usize = 0;
    let mut k: usize = 0;
    proof {
        assert(line@.take(0).len() == 0);
    }
    while k < m
        invariant
            k <= m,
            m == line@.len(),
            s@ == line@,
            spaces <= k,
            spaces == count_char(line@.take(k as int), ' '),
        decreases m - k,
    {
        let c = s.get_char(k);
        proof {
            assert(line@.take(k + 1).drop_last() =~= line@.take(k as int));
            assert(line@.take(k + 1).last() == line@[k as int]);
        }
        if c == ' ' {
            spaces = spaces + 1;
        }
        k = k + 1;
    }
    proof {
        assert(line@.take(m as int) =~= line@);
    }
    spaces
}

/// One pass over the lines of a file, accumulating the four counters: one
/// line, its characters, its UTF-8 bytes, and its strict space-split fields
/// per line.
pub fn get_file_count(lines: &Vec<String>) -> (fc: FileCount)
    requires
        total_bytes(lines.deep_view()) <= usize::MAX,
        total_chars(lines.deep_view()) <= usize::MAX,
        total_words(lines.deep_view()) <= usize::MAX,
    ensures
        fc.lines == lines@.len(),
        fc.bytes == total_bytes(lines.deep_view()),
        fc.characters == total_chars(lines.deep_view()),
        fc.words == total_words(lines.deep_view()),
{
    let ghost all: Seq<Seq<char>> = lines.deep_view();
    let mut line_count: usize = 0;
    let mut word_count: usize = 0;
    let mut byte_count: usize = 0;
    let mut char_count: usize = 0;
    let n = lines.len();
    let mut i: usize = 0;
    proof {
        assert(all.take(0).len() == 0);
    }
    while i < n
        invariant
            i <= n,
            n == lines@.len(),
            all == lines.deep_view(),
            total_bytes(all) <= usize::MAX,
            total_chars(all) <= usize::MAX,
            total_words(all) <= usize::MAX,
            line_count == i,
            byte_count == total_bytes(all.take(i as int)),
            char_count == total_chars(all.take(i as int)),
            word_count == total_words(all.take(i as int)),
        decreases n - i,
    {
        proof {
            assert(all.take(i + 1).drop_last() =~= all.take(i as int));
            assert(all.take(i + 1).last() == all[i as int]);
            assert(all[i as int] == lines@[i as int]@);
            lemma_totals_prefix(all, i + 1);
        }
        let line = &lines[i];
        line_count = line_count + 1;
        byte_count = byte_count + line.as_str().len();
        char_count = char_count + line.as_str().unicode_len();
        let spaces = count_spaces(line);
        word_count = word_count + spaces + 1;
        i = i + 1;
    }
    proof {
        assert(all.take(n as int) =~= all);
    }
    FileCount { words: word_count, lines: line_count, bytes: byte_count, characters: char_count }
}

/// The line counters of all files added up.
pub open spec fn sum_lines(v: Seq<FileCount>) -> nat
    decreases v.len(),
{
    if v.len() == 0 {
        0
    } else {
        sum_lines(v.drop_last()) + v.last().lines as nat
    }
}

/// The word counters of all files added up.
pub open spec fn sum_words(v: Seq<FileCount>) -> nat
    decreases v.len(),
{
    if v.len() == 0 {
        0
    } else {
        sum_words(v.drop_last()) + v.last().words as nat
    }
}

/// The byte counters of all files added up.
pub open spec fn sum_bytes(v: Seq<FileCount>) -> nat
    decreases v.len(),
{
    if v.len() == 0 {
        0
    } else {
        sum_bytes(v.drop_last()) + v.last().bytes as nat
    }
}

/// The character counters of all files added up.
pub open spec fn sum_characters(v: Seq<FileCount>) -> nat
    decreases v.len(),
{
    if v.len() == 0 {
        0
    } else {
        sum_characters(v.drop_last()) + v.last().characters as nat
    }
}

/// Each sum over a prefix is bounded by the sum over all counters.
proof fn lemma_sums_prefix(v: Seq<FileCount>, j: int)
    requires
        0 <= j <= v.len(),
    ensures
        sum_lines(v.take(j)) <= sum_lines(v),
        sum_words(v.take(j)) <= sum_words(v),
        sum_bytes(v.take(j)) <= sum_bytes(v),
        sum_characters(v.take(j)) <= sum_characters(v),
    decreases v.len() - j,
{
    if j == v.len() {
        assert(v.take(j) =~= v);
    } else {
        assert(v.take(j + 1).drop_last() =~= v.take(j));
        lemma_sums_prefix(v, j + 1);
    }
}

/// The aggregate row: every counter summed across the per-file counters.
pub fn sum_file_count(file_count_vec: Vec<FileCount>) -> (r: FileCount)
    requires
        sum_lines(file_count_vec@) <= usize::MAX,
        sum_words(file_count_vec@) <= usize::MAX,
        sum_bytes(file_count_vec@) <= usize::MAX,
        sum_characters(file_count_vec@) <= usize::MAX,
    ensures
        r.lines == sum_lines(file_count_vec@),
        r.words == sum_words(file_count_vec@),
        r.bytes == sum_bytes(file_count_vec@),
        r.characters == sum_characters(file_count_vec@),
{
    let ghost v = file_count_vec@;
    let mut line_count: usize = 0;
    let mut word_count: usize = 0;
    let mut byte_count: usize = 0;
    let mut char_count: usize = 0;
    let n = file_count_vec.len();
    let mut i: usize = 0;
    proof {
        assert(v.take(0).len() == 0);
    }
    while i < n
        invariant
            i <= n,
            n == v.len(),
            v == file_count_vec@,
            sum_lines(v) <= usize::MAX,
            sum_words(v) <= usize::MAX,
            sum_bytes(v) <= usize::MAX,
            sum_characters(v) <= usize::MAX,
            line_count == sum_lines(v.take(i as int)),
            word_count == sum_words(v.take(i as int)),
            byte_count == sum_bytes(v.take(i as int)),
            char_count == sum_characters(v.take(i as int)),
        decreases n - i,
    {
        proof {
            assert(v.take(i + 1).drop_last() =~= v.take(i as int));
            assert(v.take(i + 1).last() == v[i as int]);
            lemma_sums_prefix(v, i + 1);
        }
        let fc = &file_count_vec[i];
        line_count = line_count + fc.lines;
        word_count = word_count + fc.words;
        byte_count = byte_count + fc.bytes;
        char_count = char_count + fc.characters;
        i = i + 1;
    }
    proof {
        assert(v.take(n as int) =~= v);
    }
    FileCount { words: word_count, lines: line_count, bytes: byte_count, characters: char_count }
}

/// One rendered count row: a leading tab, then a tab and the counter in
/// decimal for each enabled counter (characters only when bytes are off),
/// then a tab and the file name when one is given.
pub open spec fn spec_count_row(
    file: Option<Seq<char>>,
    fc: FileCount,
    show_lines: bool,
    show_words: bool,
    show_bytes: bool,
    show_chars: bool,
) -> Seq<char> {
    seq!['\t'] + (if show_lines {
        seq!['\t'] + dec_digits(fc.lines as nat)
    } else {
        Seq::empty()
    }) + (if show_words {
        seq!['\t'] + dec_digits(fc.words as nat)
    } else {
        Seq::empty()
    }) + (if show_bytes {
        seq!['\t'] + dec_digits(fc.bytes as nat)
    } else if show_chars {
        seq!['\t'] + dec_digits(fc.characters as nat)
    } else {
        Seq::empty()
    }) + (match file {
        Some(name) => seq!['\t'] + name,
        None => Seq::empty(),
    })
}

/// Renders the count row of one file, or of the aggregate when `file` names
/// the total.
pub fn format_file_count(file: Option<&str>, file_count: &FileCount, args: &Args) -> (r: String)
    ensures
        r@ == spec_count_row(
            match file {
                Some(name) => Some(name@),
                None => None,
            },
            *file_count,
            args.lines,
            args.words,
            args.bytes,
            args.chars,
        ),
{
    proof {
        reveal_strlit("\t");
        assert("\t"@ =~= seq!['\t']);
    }
    let mut display_string = String::from_str("\t");
    if args.lines {
        display_string.append("\t");
        let s = usize_to_string(file_count.lines);
        display_string.append(s.as_str());
    }
    if args.words {
        display_string.append("\t");
        let s = usize_to_string(file_count.words);
        display_string.append(s.as_str());
    }
    if args.bytes {
        display_string.append("\t");
        let s = usize_to_string(file_count.bytes);
        display_string.append(s.as_str());
    } else if args.chars {
        display_string.append("\t");
        let s = usize_to_string(file_count.characters);
        display_string.append(s.as_str());
    }
    if let Some(name) = file {
        display_string.append("\t");
        display_string.append(name);
    }
    proof {
        assert(display_string@ =~= spec_count_row(
            match file {
                Some(name) => Some(name@),
                None => None,
            },
            *file_count,
            args.lines,
            args.words,
            args.bytes,
            args.chars,
        ));
    }
    display_string
}

} // verus!
