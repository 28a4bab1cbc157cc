//! The reporter: renders the quizzer ordering and the four count matrices
//! as one tab-delimited string — a header line, then one line per quizzer
//! with four columns (attempts, correct, bonus attempts, bonus correct) per
//! selected question type, counts written with exactly one decimal place.
//! With the round option set, one extra leading column is emitted; no round
//! is tracked per quizzer, so its cells stay empty.

use vstd::prelude::*;
use vstd::string::StringExecFns;
use crate::aggregate::{cell_at, Tally, TallyView};
use crate::numbers::{dec_str, u64_to_string};
use crate::seqtools::string_views;

verus! {

/// The one-character label of a question-type code; codes outside the
/// recognized set label as `?`.
pub open spec fn spec_char_str(c: char) -> Seq<char> {
    if c == 'A' {
        "A"@
    } else if c == 'G' {
        "G"@
    } else if c == 'I' {
        "I"@
    } else if c == 'M' {
        "M"@
    } else if c == 'Q' {
        "Q"@
    } else if c == 'R' {
        "R"@
    } else if c == 'S' {
        "S"@
    } else if c == 'X' {
        "X"@
    } else {
        "?"@
    }
}

fn type_char_str(c: char) -> (r: &'static str)
    ensures
        r@ == spec_char_str(c),
{
    if c == 'A' {
        "A"
    } else if c == 'G' {
        "G"
    } else if c == 'I' {
        "I"
    } else if c == 'M' {
        "M"
    } else if c == 'Q' {
        "Q"
    } else if c == 'R' {
        "R"
    } else if c == 'S' {
        "S"
    } else if c == 'X' {
        "X"
    } else {
        "?"
    }
}

/// A count written with exactly one decimal place.
pub open spec fn spec_count_cell(n: u64) -> Seq<char> {
    dec_str(n as int) + ".0"@
}

/// The four header cells of one selected type.
pub open spec fn spec_header_cells(c: char) -> Seq<char> {
    "\t"@ + spec_char_str(c) + " Attempts"@ + "\t"@ + spec_char_str(c) + " Correct"@ + "\t"@
        + spec_char_str(c) + " Bonus Attempts"@ + "\t"@ + spec_char_str(c) + " Bonus Correct"@
}

/// The header cells of the first `k` selected types.
pub open spec fn spec_header_types(types: Seq<char>, k: int) -> Seq<char>
    decreases k,
{
    if k <= 0 {
        Seq::empty()
    } else {
        spec_header_types(types, k - 1) + spec_header_cells(types[k - 1])
    }
}

/// The header line.
pub open spec fn spec_header(types: Seq<char>, show_round: bool) -> Seq<char> {
    (if show_round {
        "Round"@ + "\t"@
    } else {
        Seq::<char>::empty()
    }) + "Quizzer"@ + spec_header_types(types, types.len() as int) + "\n"@
}

/// The four count cells of one quizzer at one type column.
pub open spec fn spec_row_cells(t: TallyView, qi: int, ti: int) -> Seq<char> {
    "\t"@ + spec_count_cell(cell_at(t.attempts, qi, ti)) + "\t"@ + spec_count_cell(
        cell_at(t.correct, qi, ti),
    ) + "\t"@ + spec_count_cell(cell_at(t.bonus_attempts, qi, ti)) + "\t"@ + spec_count_cell(
        cell_at(t.bonus_correct, qi, ti),
    )
}

/// The count cells of one quizzer's first `k` type columns.
pub open spec fn spec_row_counts(t: TallyView, qi: int, k: int) -> Seq<char>
    decreases k,
{
    if k <= 0 {
        Seq::empty()
    } else {
        spec_row_counts(t, qi, k - 1) + spec_row_cells(t, qi, k - 1)
    }
}

/// One quizzer's data line.
pub open spec fn spec_data_line(
    names: Seq<Seq<char>>,
    t: TallyView,
    ntypes: int,
    qi: int,
    show_round: bool,
) -> Seq<char> {
    (if show_round {
        "\t"@
    } else {
        Seq::<char>::empty()
    }) + names[qi] + spec_row_counts(t, qi, ntypes) + "\n"@
}

/// The first `k` quizzers' data lines.
pub open spec fn spec_data_lines(
    names: Seq<Seq<char>>,
    t: TallyView,
    ntypes: int,
    k: int,
    show_round: bool,
) -> Seq<char>
    decreases k,
{
    if k <= 0 {
        Seq::empty()
    } else {
        spec_data_lines(names, t, ntypes, k - 1, show_round) + spec_data_line(
            names,
            t,
            ntypes,
            k - 1,
            show_round,
        )
    }
}

/// The whole report: the header line, then one line per quizzer.
pub open spec fn spec_report(
    names: Seq<Seq<char>>,
    t: TallyView,
    types: Seq<char>,
    show_round: bool,
) -> Seq<char> {
    spec_header(types, show_round) + spec_data_lines(
        names,
        t,
        types.len() as int,
        names.len() as int,
        show_round,
    )
}

/// Reads one cell of a count matrix; a cell outside the matrix reads 0.
fn get_cell(m: &Vec<Vec<u64>>, qi: usize, ti: usize) -> (r: u64)
    ensures
        r == cell_at(crate::aggregate::count_views(m@), qi as int, ti as int),
{
    if qi < m.len() {
        if ti < m[qi].len() {
            return m[qi][ti];
        }
    }
    0
}

/// Appends one formatted count.
fn append_count(out: &mut String, n: u64)
    ensures
        final(out)@ == old(out)@ + spec_count_cell(n),
{
    let ns = u64_to_string(n);
    out.append(ns.as_str());
    out.append(".0");
}

/// Renders the report: a header line, then one tab-delimited line per
/// quizzer with four counts per selected type, in quizzer order.
#[verifier::rlimit(100)]
pub fn render_report(
    names: &Vec<String>,
    t: &Tally,
    types: &Vec<char>,
    show_round: bool,
) -> (r: String)
    ensures
        r@ == spec_report(string_views(names@), t@, types@, show_round),
{
    let mut out = String::new();
    if show_round {
        out.append("Round");
        out.append("\t");
    }
    out.append("Quizzer");
    let ghost head = out@;
    for i in 0..types.len()
        invariant
            out@ == head + spec_header_types(types@, i as int),
            head == (if show_round {
                "Round"@ + "\t"@
            } else {
                Seq::<char>::empty()
            }) + "Quizzer"@,
    {
        let c = types[i];
        out.append("\t");
        out.append(type_char_str(c));
        out.append(" Attempts");
        out.append("\t");
        out.append(type_char_str(c));
        out.append(" Correct");
        out.append("\t");
        out.append(type_char_str(c));
        out.append(" Bonus Attempts");
        out.append("\t");
        out.append(type_char_str(c));
        out.append(" Bonus Correct");
        proof {
            assert(out@ =~= head + spec_header_types(types@, i + 1));
        }
    }
    out.append("\n");
    proof {
        assert(out@ =~= spec_header(types@, show_round));
    }
    let ghost header = out@;
    let nt: usize = types.len();
    for qi in 0..names.len()
        invariant
            nt == types@.len(),
            header == spec_header(types@, show_round),
            out@ == header + spec_data_lines(
                string_views(names@),
                t@,
                nt as int,
                qi as int,
                show_round,
            ),
    {
        let ghost line_start = out@;
        if show_round {
            out.append("\t");
        }
        out.append(names[qi].as_str());
        let ghost after_name = out@;
        for ti in 0..nt
            invariant
                nt == types@.len(),
                qi < names@.len(),
                after_name == line_start + (if show_round {
                    "\t"@
                } else {
                    Seq::<char>::empty()
                }) + string_views(names@)[qi as int],
                out@ == after_name + spec_row_counts(t@, qi as int, ti as int),
        {
            out.append("\t");
            append_count(&mut out, get_cell(&t.attempts, qi, ti));
            out.append("\t");
            append_count(&mut out, get_cell(&t.correct, qi, ti));
            out.append("\t");
            append_count(&mut out, get_cell(&t.bonus_attempts, qi, ti));
            out.append("\t");
            append_count(&mut out, get_cell(&t.bonus_correct, qi, ti));
            proof {
                assert(out@ =~= after_name + spec_row_counts(t@, qi as int, ti + 1));
            }
        }
        out.append("\n");
        proof {
            assert(out@ =~= header + spec_data_lines(
                string_views(names@),
                t@,
                nt as int,
                qi + 1,
                show_round,
            ));
        }
    }
    proof {
        assert(out@ == spec_report(string_views(names@), t@, types@, show_round));
    }
    out
}

} // verus!
