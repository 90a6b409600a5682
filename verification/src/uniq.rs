//! Collapsing adjacent duplicate lines into counted runs, and rendering the
//! runs for display.

use vstd::prelude::*;

use crate::decimal::{dec_digits, usize_to_string};

verus! {

/// Mathematical model of one run: a maximal group of equal consecutive input
/// lines, with its multiplicity.
#[verifier::ext_equal]
pub struct SpecRun {
    pub value: Seq<char>,
    pub count: nat,
}

/// One maximal run of equal consecutive input lines.
pub struct LineCount {
    pub line: String,
    pub count: usize,
}

impl View for LineCount {
    type V = SpecRun;

    open spec fn view(&self) -> SpecRun {
        SpecRun { value: self.line@, count: self.count as nat }
    }
}

/// Arguments of the deduplication utility.
pub struct Args {
    pub in_file: String,
    pub out_file: Option<String>,
    pub count: bool,
}

/// The run sequence of `lines`: consecutive equal lines collapse into one run
/// carrying their number; a line that differs from its predecessor opens a new
/// run, so non-adjacent repeats stay separate.
pub open spec fn spec_runs(lines: Seq<Seq<char>>) -> Seq<SpecRun>
    decreases lines.len(),
{
    if lines.len() == 0 {
        Seq::empty()
    } else {
        let prev = spec_runs(lines.drop_last());
        let l = lines.last();
        if prev.len() > 0 && prev.last().value == l {
            prev.update(
                prev.len() - 1,
                SpecRun { value: l, count: (prev.last().count + 1) as nat },
            )
        } else {
            prev.push(SpecRun { value: l, count: 1 })
        }
    }
}

/// The models of a sequence of built runs.
pub open spec fn runs_seq(s: Seq<LineCount>) -> Seq<SpecRun> {
    s.map_values(|lc: LineCount| lc@)
}

/// A well-formed run sequence: every count is at least one, and two adjacent
/// runs never hold the same value.
pub open spec fn runs_wf(rs: Seq<SpecRun>) -> bool {
    &&& forall|i: int| 0 <= i < rs.len() ==> (#[trigger] rs[i].count) >= 1
    &&& forall|i: int| 0 <= i && i + 1 < rs.len() ==> (#[trigger] rs[i].value) != rs[i + 1].value
}

/// Aggregates `lines` into its run sequence in one pass: the current run grows
/// while lines repeat and is emitted when a different line arrives, with the
/// final open run flushed after the input is exhausted.
pub fn get_line_counts(lines: Vec<String>) -> (r: Vec<LineCount>)
    ensures
        runs_seq(r@) == spec_runs(lines.deep_view()),
{
    let ghost all: Seq<Seq<char>> = lines.deep_view();
    let mut current_line: Option<String> = None;
    let mut current_line_count: usize = 0;
    let mut line_count_vec: Vec<LineCount> = Vec::new();
    let n = lines.len();
    let mut i: usize = 0;
    while i < n
        invariant
            n == lines@.len(),
            all == lines.deep_view(),
            i <= n,
            match current_line {
                None => i == 0 && line_count_vec@.len() == 0 && current_line_count == 0,
                Some(cl) => {
                    &&& 1 <= current_line_count <= i
                    &&& spec_runs(all.take(i as int)) == runs_seq(line_count_vec@).push(
                        SpecRun { value: cl@, count: current_line_count as nat },
                    )
                },
            },
        decreases n - i,
    {
        let line = lines[i].clone();
        proof {
            assert(all.take(i + 1).drop_last() =~= all.take(i as int));
            assert(all.take(i + 1).last() == all[i as int]);
            assert(line@ == all[i as int]);
        }
        let is_same = match &current_line {
            Some(cl) => line == *cl,
            None => false,
        };
        if is_same {
            current_line_count = current_line_count + 1;
            proof {
                let cl = current_line->Some_0;
                let prev = spec_runs(all.take(i as int));
                assert(prev.last() == SpecRun {
                    value: cl@,
                    count: (current_line_count - 1) as nat,
                });
                assert(prev.update(
                    prev.len() - 1,
                    SpecRun { value: all[i as int], count: current_line_count as nat },
                ) =~= runs_seq(line_count_vec@).push(
                    SpecRun { value: cl@, count: current_line_count as nat },
                ));
            }
        } else {
            if let Some(prev_line) = current_line {
                let ghost old_vec = line_count_vec@;
                let ghost cnt = current_line_count;
                line_count_vec.push(LineCount { line: prev_line, count: current_line_count });
                proof {
                    assert(runs_seq(line_count_vec@) =~= runs_seq(old_vec).push(
                        SpecRun { value: prev_line@, count: cnt as nat },
                    ));
                    let prev = spec_runs(all.take(i as int));
                    assert(prev.len() > 0);
                    assert(prev.last().value != all[i as int]);
                    assert(spec_runs(all.take(i + 1)) =~= runs_seq(line_count_vec@).push(
                        SpecRun { value: all[i as int], count: 1 },
                    ));
                }
            } else {
                proof {
                    assert(all.take(0).len() == 0);
                    assert(spec_runs(all.take(i as int)) =~= Seq::<SpecRun>::empty());
                    assert(runs_seq(line_count_vec@) =~= Seq::<SpecRun>::empty());
                    assert(spec_runs(all.take(i + 1)) =~= runs_seq(line_count_vec@).push(
                        SpecRun { value: all[i as int], count: 1 },
                    ));
                }
            }
            current_line = Some(line);
            current_line_count = 1;
        }
        i = i + 1;
    }
    proof {
        assert(all.take(n as int) =~= all);
    }
    if let Some(last_line) = current_line {
        let ghost old_vec = line_count_vec@;
        line_count_vec.push(LineCount { line: last_line, count: current_line_count });
        proof {
            assert(runs_seq(line_count_vec@) =~= runs_seq(old_vec).push(
                SpecRun { value: last_line@, count: current_line_count as nat },
            ));
        }
    }
    line_count_vec
}

/// One rendered record: with counts, tab, the count in decimal, tab, the value
/// and a newline; without counts, only a tab and the value.
pub open spec fn spec_record(show_counts: bool, r: SpecRun) -> Seq<char> {
    if show_counts {
        seq!['\t'] + dec_digits(r.count) + seq!['\t'] + r.value + seq!['\n']
    } else {
        seq!['\t'] + r.value
    }
}

/// The rendered text of a run sequence: its records concatenated in order.
pub open spec fn spec_display(show_counts: bool, rs: Seq<SpecRun>) -> Seq<char>
    decreases rs.len(),
{
    if rs.len() == 0 {
        Seq::empty()
    } else {
        spec_display(show_counts, rs.drop_last()) + spec_record(show_counts, rs.last())
    }
}

/// Renders the run sequence, one record per run, with counts shown when
/// `args.count` is set.
pub fn display(args: &Args, line_counts: Vec<LineCount>) -> (r: String)
    ensures
        r@ == spec_display(args.count, runs_seq(line_counts@)),
{
    let ghost rs = runs_seq(line_counts@);
    let mut display_string = String::new();
    let n = line_counts.len();
    let mut i: usize = 0;
    proof {
        assert(runs_seq(line_counts@.take(0)).len() == 0);
    }
    while i < n
        invariant
            n == line_counts@.len(),
            rs == runs_seq(line_counts@),
            i <= n,
            display_string@ == spec_display(args.count, runs_seq(line_counts@.take(i as int))),
        decreases n - i,
    {
        let lc = &line_counts[i];
        if args.count {
            display_string.append("\t");
            let count_string = usize_to_string(lc.count);
            display_string.append(count_string.as_str());
            display_string.append("\t");
            display_string.append(lc.line.as_str());
            display_string.append("\n");
        } else {
            display_string.append("\t");
            display_string.append(lc.line.as_str());
        }
        proof {
            reveal_strlit("\t");
            reveal_strlit("\n");
            assert("\t"@ =~= seq!['\t']);
            assert("\n"@ =~= seq!['\n']);
            let prefix = runs_seq(line_counts@.take(i as int));
            let prefix1 = runs_seq(line_counts@.take(i + 1));
            assert(prefix1.drop_last() =~= prefix);
            assert(prefix1.last() == line_counts@[i as int]@);
            assert(display_string@ =~= spec_display(args.count, prefix) + spec_record(
                args.count,
                line_counts@[i as int]@,
            ));
        }
        i = i + 1;
    }
    proof {
        assert(line_counts@.take(n as int) =~= line_counts@);
    }
    display_string
}

/// The counts of a run sequence, added up.
pub open spec fn sum_counts(rs: Seq<SpecRun>) -> nat
    decreases rs.len(),
{
    if rs.len() == 0 {
        0
    } else {
        sum_counts(rs.drop_last()) + rs.last().count
    }
}

/// Aggregation loses no line and invents none: the counts of the run sequence
/// of `lines` add up to the number of lines.
pub proof fn lemma_counts_sum(lines: Seq<Seq<char>>)
    ensures
        sum_counts(spec_runs(lines)) == lines.len(),
    decreases lines.len(),
{
    if lines.len() == 0 {
    } else {
        lemma_counts_sum(lines.drop_last());
        let prev = spec_runs(lines.drop_last());
        let l = lines.last();
        if prev.len() > 0 && prev.last().value == l {
            let updated = prev.update(
                prev.len() - 1,
                SpecRun { value: l, count: (prev.last().count + 1) as nat },
            );
            assert(updated.drop_last() =~= prev.drop_last());
            assert(sum_counts(updated) == sum_counts(updated.drop_last()) + updated.last().count);
        } else {
            let pushed = prev.push(SpecRun { value: l, count: 1 });
            assert(pushed.drop_last() =~= prev);
            assert(sum_counts(pushed) == sum_counts(pushed.drop_last()) + 1);
        }
    }
}

/// The run sequence of any input is well formed: every run counts at least one
/// line, and adjacent runs never hold equal values.
pub proof fn lemma_runs_wf(lines: Seq<Seq<char>>)
    ensures
        runs_wf(spec_runs(lines)),
    decreases lines.len(),
{
    if lines.len() == 0 {
    } else {
        lemma_runs_wf(lines.drop_last());
        let prev = spec_runs(lines.drop_last());
        let l = lines.last();
        let rs = spec_runs(lines);
        if prev.len() > 0 && prev.last().value == l {
            assert forall|i: int| 0 <= i && i + 1 < rs.len() implies (#[trigger] rs[i].value)
                != rs[i + 1].value by {
                assert(rs[i].value == prev[i].value);
                assert(rs[i + 1].value == prev[i + 1].value);
            }
        } else {
            assert forall|i: int| 0 <= i && i + 1 < rs.len() implies (#[trigger] rs[i].value)
                != rs[i + 1].value by {
                if i + 1 < rs.len() - 1 {
                    assert(rs[i].value == prev[i].value);
                    assert(rs[i + 1].value == prev[i + 1].value);
                } else {
                    assert(rs[i] == prev[i]);
                    assert(rs[i + 1].value == l);
                }
            }
        }
    }
}

/// Formatting is a function of the run sequence and the flag alone: two
/// renderings of the same run sequence with the same flag are the same text.
pub proof fn lemma_display_deterministic(
    show_counts: bool,
    rs: Seq<SpecRun>,
    a: Seq<char>,
    b: Seq<char>,
)
    requires
        a == spec_display(show_counts, rs),
        b == spec_display(show_counts, rs),
    ensures
        a == b,
{
}

/// Empty input yields an empty run sequence, which renders to empty text under
/// either flag.
pub proof fn lemma_empty_input(show_counts: bool)
    ensures
        spec_runs(Seq::<Seq<char>>::empty()) == Seq::<SpecRun>::empty(),
        spec_display(show_counts, spec_runs(Seq::<Seq<char>>::empty())) == Seq::<char>::empty(),
{
    assert(spec_runs(Seq::<Seq<char>>::empty()) =~= Seq::<SpecRun>::empty());
}

} // verus!
