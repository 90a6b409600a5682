//! Numbering lines for display: all lines, only non-blank lines, or none.

use vstd::prelude::*;

use crate::decimal::{dec_digits, usize_to_string};

verus! {

/// Which lines get a number in front of them.
#[derive(Clone, Copy, Debug, PartialEq, Eq, Structural)]
pub enum LineNumberOption {
    NumberAll,
    NumberOnlyNonBlank,
    NumberNone,
}

/// Arguments of the numbering utility.
pub struct Args {
    pub files: Vec<String>,
    pub number_lines: bool,
    pub number_nonblank_lines: bool,
}

/// The numbering mode the two flags select: numbering all lines wins over
/// numbering only non-blank ones, and without either flag nothing is numbered.
pub open spec fn spec_line_number_option(
    number_lines: bool,
    number_nonblank_lines: bool,
) -> LineNumberOption {
    if number_lines {
        LineNumberOption::NumberAll
    } else if number_nonblank_lines {
        LineNumberOption::NumberOnlyNonBlank
    } else {
        LineNumberOption::NumberNone
    }
}

impl Args {
    /// Reads the numbering mode off the flags.
    pub fn get_line_number_option(&self) -> (r: LineNumberOption)
        ensures
            r == spec_line_number_option(self.number_lines, self.number_nonblank_lines),
    {
        if self.number_lines {
            LineNumberOption::NumberAll
        } else if self.number_nonblank_lines {
            LineNumberOption::NumberOnlyNonBlank
        } else {
            LineNumberOption::NumberNone
        }
    }
}

/// One numbered line: the counter in decimal, a tab, then the line.
pub open spec fn numbered_line(n: nat, line: Seq<char>) -> Seq<char> {
    dec_digits(n) + seq!['\t'] + line
}

/// The rendered lines of one file under the chosen mode, with the counter at
/// `c` when the first line arrives: every line numbered, only non-blank lines
/// numbered (blank ones pass through and leave the counter alone), or all
/// lines passed through unchanged.
pub open spec fn spec_numbered(
    lines: Seq<Seq<char>>,
    option: LineNumberOption,
    c: nat,
) -> Seq<Seq<char>>
    decreases lines.len(),
{
    if lines.len() == 0 {
        Seq::empty()
    } else {
        let first = lines.first();
        let rest = lines.drop_first();
        match option {
            LineNumberOption::NumberAll => seq![numbered_line(c + 1, first)] + spec_numbered(
                rest,
                option,
                c + 1,
            ),
            LineNumberOption::NumberOnlyNonBlank => if first.len() == 0 {
                seq![first] + spec_numbered(rest, option, c)
            } else {
                seq![numbered_line(c + 1, first)] + spec_numbered(rest, option, c + 1)
            },
            LineNumberOption::NumberNone => seq![first] + spec_numbered(rest, option, c),
        }
    }
}

/// Where the counter stands after the lines of one file have passed, so that
/// the next file continues the numbering.
pub open spec fn counter_after(lines: Seq<Seq<char>>, option: LineNumberOption, c: nat) -> nat
    decreases lines.len(),
{
    if lines.len() == 0 {
        c
    } else {
        let first = lines.first();
        let rest = lines.drop_first();
        match option {
            LineNumberOption::NumberAll => counter_after(rest, option, c + 1),
            LineNumberOption::NumberOnlyNonBlank => if first.len() == 0 {
                counter_after(rest, option, c)
            } else {
                counter_after(rest, option, c + 1)
            },
            LineNumberOption::NumberNone => counter_after(rest, option, c),
        }
    }
}

/// Renders the lines of one file under the chosen mode, starting the counter
/// at `first_number`, and hands back the counter for the next file.
pub fn number_file(lines: &Vec<String>, option: &LineNumberOption, first_number: usize) -> (r: (
    Vec<String>,
    usize,
))
    requires
        first_number + lines@.len() <= usize::MAX,
    ensures
        r.0.deep_view() == spec_numbered(lines.deep_view(), *option, first_number as nat),
        r.1 == counter_after(lines.deep_view(), *option, first_number as nat),
{
    let ghost all: Seq<Seq<char>> = lines.deep_view();
    let mut out: Vec<String> = Vec::new();
    let mut counter: usize = first_number;
    let n = lines.len();
    let mut i: usize = 0;
    proof {
        assert(all.skip(0) =~= all);
        assert(out.deep_view() =~= Seq::<Seq<char>>::empty());
        assert(out.deep_view() + spec_numbered(all, *option, first_number as nat) =~= spec_numbered(
            all,
            *option,
            first_number as nat,
        ));
    }
    while i < n
        invariant
            i <= n,
            n == lines@.len(),
            all == lines.deep_view(),
            first_number + n <= usize::MAX,
            counter <= first_number + i,
            spec_numbered(all, *option, first_number as nat) == out.deep_view() + spec_numbered(
                all.skip(i as int),
                *option,
                counter as nat,
            ),
            counter_after(all, *option, first_number as nat) == counter_after(
                all.skip(i as int),
                *option,
                counter as nat,
            ),
        decreases n - i,
    {
        let ghost prev_out = out.deep_view();
        let ghost prev_counter = counter as nat;
        proof {
            assert(all.skip(i as int).first() == all[i as int]);
            assert(all.skip(i as int).drop_first() =~= all.skip(i + 1));
            assert(all[i as int] == lines@[i as int]@);
        }
        match option {
            LineNumberOption::NumberAll => {
                counter = counter + 1;
                let mut rendered = usize_to_string(counter);
                rendered.append("\t");
                rendered.append(lines[i].as_str());
                proof {
                    reveal_strlit("\t");
                    assert("\t"@ =~= seq!['\t']);
                    assert(rendered@ =~= numbered_line(counter as nat, all[i as int]));
                }
                out.push(rendered);
            },
            LineNumberOption::NumberOnlyNonBlank => {
                if lines[i].as_str().is_empty() {
                    out.push(lines[i].clone());
                } else {
                    counter = counter + 1;
                    let mut rendered = usize_to_string(counter);
                    rendered.append("\t");
                    rendered.append(lines[i].as_str());
                    proof {
                        reveal_strlit("\t");
                        assert("\t"@ =~= seq!['\t']);
                        assert(rendered@ =~= numbered_line(counter as nat, all[i as int]));
                    }
                    out.push(rendered);
                }
            },
            LineNumberOption::NumberNone => {
                out.push(lines[i].clone());
            },
        }
        proof {
            assert(out.deep_view() =~= prev_out.push(out.deep_view().last()));
            assert(spec_numbered(all.skip(i as int), *option, prev_counter) == seq![
                out.deep_view().last(),
            ] + spec_numbered(all.skip(i + 1), *option, counter as nat));
            assert(out.deep_view() + spec_numbered(all.skip(i + 1), *option, counter as nat)
                =~= prev_out + spec_numbered(all.skip(i as int), *option, prev_counter));
        }
        i = i + 1;
    }
    proof {
        assert(all.skip(n as int).len() == 0);
        assert(out.deep_view() + spec_numbered(all.skip(n as int), *option, counter as nat)
            =~= out.deep_view());
    }
    (out, counter)
}

} // verus!
