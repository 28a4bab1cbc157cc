//! The aggregator: walks the filtered event rows once and accumulates four
//! count matrices — tossup attempts, tossup correct, bonus attempts, bonus
//! correct — indexed by quizzer row and question-type column, plus one
//! warning per row whose round or question falls outside the type grid.
//!
//! Round and question numbers are 1-indexed in the log; a field that does
//! not parse reads as 0 and therefore lands out of range, which is a skip
//! with a warning, never a fault. The 21st question position of a round is
//! always counted under the default/general category, whatever the grid
//! holds: pages are twenty questions long, and the end-of-round question
//! lives past them by design.

use vstd::prelude::*;
use vstd::string::StringExecFns;
use crate::events::{row_field, spec_name_of, CODE_COL, QUESTION_COL, QUIZZER_COL, ROUND_COL};
use crate::numbers::{dec_str, parse_field_u64, spec_field_u64, u64_to_string};
use crate::quizzers::{quizzer_index_of, spec_quizzer_index};
use crate::seqtools::{row_views, string_views};
use crate::types::{default_question_type, spec_default_type, spec_type_col, type_col};

verus! {

/// The four count matrices, the warnings, and the flag that says whether
/// any row was skipped.
pub struct Tally {
    pub attempts: Vec<Vec<u64>>,
    pub correct: Vec<Vec<u64>>,
    pub bonus_attempts: Vec<Vec<u64>>,
    pub bonus_correct: Vec<Vec<u64>>,
    pub warnings: Vec<String>,
    pub any_warnings: bool,
}

/// The mathematical image of a tally.
pub ghost struct TallyView {
    pub attempts: Seq<Seq<u64>>,
    pub correct: Seq<Seq<u64>>,
    pub bonus_attempts: Seq<Seq<u64>>,
    pub bonus_correct: Seq<Seq<u64>>,
    pub warnings: Seq<Seq<char>>,
}

/// The row views of a count matrix.
pub open spec fn count_views(m: Seq<Vec<u64>>) -> Seq<Seq<u64>> {
    Seq::new(m.len(), |i: int| m[i]@)
}

impl View for Tally {
    type V = TallyView;

    open spec fn view(&self) -> TallyView {
        TallyView {
            attempts: count_views(self.attempts@),
            correct: count_views(self.correct@),
            bonus_attempts: count_views(self.bonus_attempts@),
            bonus_correct: count_views(self.bonus_correct@),
            warnings: string_views(self.warnings@),
        }
    }
}

/// An all-zero matrix of `rows` by `cols`.
pub open spec fn zero_matrix(rows: nat, cols: nat) -> Seq<Seq<u64>> {
    Seq::new(rows, |i: int| Seq::new(cols, |j: int| 0u64))
}

/// The tally before any row is counted.
pub open spec fn spec_empty_tally(rows: nat, cols: nat) -> TallyView {
    TallyView {
        attempts: zero_matrix(rows, cols),
        correct: zero_matrix(rows, cols),
        bonus_attempts: zero_matrix(rows, cols),
        bonus_correct: zero_matrix(rows, cols),
        warnings: Seq::empty(),
    }
}

/// The 1-indexed round number a row carries; 0 when its field does not
/// parse.
pub open spec fn spec_round_num(row: Seq<Seq<char>>) -> u64 {
    spec_field_u64(row_field(row, ROUND_COL as int))
}

/// The 1-indexed question number a row carries; 0 when its field does not
/// parse.
pub open spec fn spec_question_num(row: Seq<Seq<char>>) -> u64 {
    spec_field_u64(row_field(row, QUESTION_COL as int))
}

/// The question type a row resolves to against the grid: question 21 is
/// always the default/general category; any other position is looked up in
/// the grid, and a round or question outside the grid's bounds is a miss.
pub open spec fn spec_resolve_type(row: Seq<Seq<char>>, grid: Seq<Seq<char>>) -> Option<char> {
    let r = spec_round_num(row) as int;
    let q = spec_question_num(row) as int;
    if q == 21 {
        Some(spec_default_type())
    } else if 1 <= r <= grid.len() && 1 <= q <= grid[r - 1].len() {
        Some(grid[r - 1][q - 1])
    } else {
        None
    }
}

/// The warning recorded for a skipped row.
pub open spec fn spec_skip_warning(r: u64, q: u64) -> Seq<char> {
    "skipped: no question type for round "@ + dec_str(r as int) + ", question "@ + dec_str(
        q as int,
    )
}

/// The value of one matrix cell; a cell outside the matrix reads 0.
pub open spec fn cell_at(m: Seq<Seq<u64>>, qi: int, ti: int) -> u64 {
    if 0 <= qi < m.len() && 0 <= ti < m[qi].len() {
        m[qi][ti]
    } else {
        0
    }
}

/// One more count at `[qi][ti]`; a cell outside the matrix, or one already
/// at the accumulator's ceiling, is left unchanged.
pub open spec fn bump(m: Seq<Seq<u64>>, qi: int, ti: int) -> Seq<Seq<u64>> {
    if 0 <= qi < m.len() && 0 <= ti < m[qi].len() && m[qi][ti] < u64::MAX {
        m.update(qi, m[qi].update(ti, (m[qi][ti] + 1) as u64))
    } else {
        m
    }
}

/// What one row does to the tally: a missed grid lookup records one warning
/// and changes no matrix; a hit increments the matrices its event code
/// calls for, at the row's quizzer index and the type's column.
pub open spec fn spec_step(
    t: TallyView,
    row: Seq<Seq<char>>,
    grid: Seq<Seq<char>>,
    names: Seq<Seq<char>>,
    types: Seq<char>,
) -> TallyView {
    match spec_resolve_type(row, grid) {
        None => TallyView {
            attempts: t.attempts,
            correct: t.correct,
            bonus_attempts: t.bonus_attempts,
            bonus_correct: t.bonus_correct,
            warnings: t.warnings.push(
                spec_skip_warning(spec_round_num(row), spec_question_num(row)),
            ),
        },
        Some(qt) => {
            let qi = spec_quizzer_index(names, spec_name_of(row));
            let ti = spec_type_col(types, qt);
            let code = row_field(row, CODE_COL as int);
            if code == "TC"@ {
                TallyView {
                    attempts: bump(t.attempts, qi, ti),
                    correct: bump(t.correct, qi, ti),
                    bonus_attempts: t.bonus_attempts,
                    bonus_correct: t.bonus_correct,
                    warnings: t.warnings,
                }
            } else if code == "TE"@ {
                TallyView {
                    attempts: bump(t.attempts, qi, ti),
                    correct: t.correct,
                    bonus_attempts: t.bonus_attempts,
                    bonus_correct: t.bonus_correct,
                    warnings: t.warnings,
                }
            } else if code == "BC"@ {
                TallyView {
                    attempts: t.attempts,
                    correct: t.correct,
                    bonus_attempts: bump(t.bonus_attempts, qi, ti),
                    bonus_correct: bump(t.bonus_correct, qi, ti),
                    warnings: t.warnings,
                }
            } else if code == "BE"@ {
                TallyView {
                    attempts: t.attempts,
                    correct: t.correct,
                    bonus_attempts: bump(t.bonus_attempts, qi, ti),
                    bonus_correct: t.bonus_correct,
                    warnings: t.warnings,
                }
            } else {
                t
            }
        },
    }
}

/// The tally after counting every row in order, starting from all zeros
/// sized quizzers-by-types.
pub open spec fn spec_aggregate(
    rows: Seq<Seq<Seq<char>>>,
    grid: Seq<Seq<char>>,
    names: Seq<Seq<char>>,
    types: Seq<char>,
) -> TallyView
    decreases rows.len(),
{
    if rows.len() == 0 {
        spec_empty_tally(names.len(), types.len())
    } else {
        spec_step(
            spec_aggregate(rows.drop_last(), grid, names, types),
            rows.last(),
            grid,
            names,
            types,
        )
    }
}

/// Builds an all-zero matrix.
fn zero_matrix_exec(rows: usize, cols: usize) -> (m: Vec<Vec<u64>>)
    ensures
        count_views(m@) == zero_matrix(rows as nat, cols as nat),
{
    let mut m: Vec<Vec<u64>> = Vec::new();
    for i in 0..rows
        invariant
            m@.len() == i,
            forall|w: int| 0 <= w < i ==> #[trigger] m@[w]@ == Seq::new(cols as nat, |j: int| 0u64),
    {
        let mut row: Vec<u64> = Vec::new();
        for j in 0..cols
            invariant
                row@.len() == j,
                forall|w: int| 0 <= w < j ==> row@[w] == 0u64,
        {
            row.push(0);
        }
        proof {
            assert(row@ =~= Seq::new(cols as nat, |j: int| 0u64));
        }
        m.push(row);
    }
    proof {
        assert(count_views(m@) =~= zero_matrix(rows as nat, cols as nat));
    }
    m
}

/// A tally's matrix dimensions survive one counting step.
proof fn lemma_step_dims(
    pre: TallyView,
    row: Seq<Seq<char>>,
    grid: Seq<Seq<char>>,
    names: Seq<Seq<char>>,
    types: Seq<char>,
    nq: int,
    nt: int,
)
    requires
        pre.attempts.len() == nq,
        pre.correct.len() == nq,
        pre.bonus_attempts.len() == nq,
        pre.bonus_correct.len() == nq,
        forall|j: int| 0 <= j < nq ==> #[trigger] pre.attempts[j].len() == nt,
        forall|j: int| 0 <= j < nq ==> #[trigger] pre.correct[j].len() == nt,
        forall|j: int| 0 <= j < nq ==> #[trigger] pre.bonus_attempts[j].len() == nt,
        forall|j: int| 0 <= j < nq ==> #[trigger] pre.bonus_correct[j].len() == nt,
    ensures
        spec_step(pre, row, grid, names, types).attempts.len() == nq,
        spec_step(pre, row, grid, names, types).correct.len() == nq,
        spec_step(pre, row, grid, names, types).bonus_attempts.len() == nq,
        spec_step(pre, row, grid, names, types).bonus_correct.len() == nq,
        forall|j: int|
            0 <= j < nq ==> #[trigger] spec_step(pre, row, grid, names, types).attempts[j].len()
                == nt,
        forall|j: int|
            0 <= j < nq ==> #[trigger] spec_step(pre, row, grid, names, types).correct[j].len()
                == nt,
        forall|j: int|
            0 <= j < nq ==> #[trigger] spec_step(
                pre,
                row,
                grid,
                names,
                types,
            ).bonus_attempts[j].len() == nt,
        forall|j: int|
            0 <= j < nq ==> #[trigger] spec_step(
                pre,
                row,
                grid,
                names,
                types,
            ).bonus_correct[j].len() == nt,
{
    let qi = spec_quizzer_index(names, spec_name_of(row));
    let ti = spec_type_col(types, qt_of(row, grid));
    lemma_bump_dims(pre.attempts, qi, ti);
    lemma_bump_dims(pre.correct, qi, ti);
    lemma_bump_dims(pre.bonus_attempts, qi, ti);
    lemma_bump_dims(pre.bonus_correct, qi, ti);
}

/// The type a row resolves to when it resolves at all; the default
/// category otherwise (only used to name the column in proofs).
pub open spec fn qt_of(row: Seq<Seq<char>>, grid: Seq<Seq<char>>) -> char {
    match spec_resolve_type(row, grid) {
        Some(qt) => qt,
        None => spec_default_type(),
    }
}

proof fn lemma_bump_dims(m: Seq<Seq<u64>>, qi: int, ti: int)
    ensures
        bump(m, qi, ti).len() == m.len(),
        forall|j: int| 0 <= j < m.len() ==> #[trigger] bump(m, qi, ti)[j].len() == m[j].len(),
{
    if 0 <= qi < m.len() && 0 <= ti < m[qi].len() && m[qi][ti] < u64::MAX {
        assert(forall|j: int|
            0 <= j < m.len() && j != qi ==> #[trigger] bump(m, qi, ti)[j] == m[j]);
    }
}

/// Adds one to the cell `[qi][ti]`, leaving a cell outside the matrix (or
/// at the ceiling) unchanged.
fn bump_cell(m: &mut Vec<Vec<u64>>, qi: usize, ti: usize)
    ensures
        count_views(final(m)@) == bump(count_views(old(m)@), qi as int, ti as int),
{
    let ghost before = count_views(old(m)@);
    if qi < m.len() {
        let cols = m[qi].len();
        if ti < cols {
            let cur: u64 = m[qi][ti];
            if cur < u64::MAX {
                let mut row: Vec<u64> = crate::seqtools::clone_counts(&m[qi]);
                row[ti] = cur + 1;
                proof {
                    assert(row@ =~= before[qi as int].update(
                        ti as int,
                        (before[qi as int][ti as int] + 1) as u64,
                    ));
                }
                m[qi] = row;
                proof {
                    assert(count_views(m@) =~= bump(before, qi as int, ti as int));
                }
                return ;
            }
        }
    }
    proof {
        assert(count_views(m@) =~= bump(before, qi as int, ti as int));
    }
}

/// Builds the warning recorded for a skipped row.
fn skip_warning(r: u64, q: u64) -> (s: String)
    ensures
        s@ == spec_skip_warning(r, q),
{
    let mut s = String::from_str("skipped: no question type for round ");
    let rs = u64_to_string(r);
    s.append(rs.as_str());
    s.append(", question ");
    let qs = u64_to_string(q);
    s.append(qs.as_str());
    s
}

/// Resolves one row's question type against the grid.
fn resolve_type(row: &Vec<String>, grid: &Vec<Vec<char>>) -> (r: (u64, u64, Option<char>))
    ensures
        r.0 == spec_round_num(string_views(row@)),
        r.1 == spec_question_num(string_views(row@)),
        r.2 == spec_resolve_type(string_views(row@), crate::seqtools::cell_views(grid@)),
{
    let ghost rv = string_views(row@);
    let ghost gv = crate::seqtools::cell_views(grid@);
    let rnum: u64 = if row.len() > ROUND_COL {
        parse_field_u64(row[ROUND_COL].as_str())
    } else {
        0
    };
    let qnum: u64 = if row.len() > QUESTION_COL {
        parse_field_u64(row[QUESTION_COL].as_str())
    } else {
        0
    };
    proof {
        assert(rnum == spec_round_num(rv));
        assert(qnum == spec_question_num(rv));
    }
    let qt: Option<char> = if qnum == 21 {
        Some(default_question_type())
    } else if rnum >= 1 && qnum >= 1 && rnum <= grid.len() as u64 {
        let ri: usize = (rnum - 1) as usize;
        if qnum <= grid[ri].len() as u64 {
            let qi: usize = (qnum - 1) as usize;
            proof {
                assert(gv[ri as int] == grid@[ri as int]@);
            }
            Some(grid[ri][qi])
        } else {
            None
        }
    } else {
        None
    };
    (rnum, qnum, qt)
}

/// Counts every filtered row into four quizzer-by-type matrices, recording
/// one warning per row whose round or question the grid cannot place.
pub fn aggregate(
    rows: &Vec<Vec<String>>,
    grid: &Vec<Vec<char>>,
    names: &Vec<String>,
    types: &Vec<char>,
) -> (t: Tally)
    ensures
        t@ == spec_aggregate(
            row_views(rows@),
            crate::seqtools::cell_views(grid@),
            string_views(names@),
            types@,
        ),
        t.any_warnings == (t@.warnings.len() > 0),
        t.attempts@.len() == names@.len(),
        t.correct@.len() == names@.len(),
        t.bonus_attempts@.len() == names@.len(),
        t.bonus_correct@.len() == names@.len(),
        forall|j: int| 0 <= j < names@.len() ==> #[trigger] t.attempts@[j]@.len() == types@.len(),
        forall|j: int| 0 <= j < names@.len() ==> #[trigger] t.correct@[j]@.len() == types@.len(),
        forall|j: int|
            0 <= j < names@.len() ==> #[trigger] t.bonus_attempts@[j]@.len() == types@.len(),
        forall|j: int|
            0 <= j < names@.len() ==> #[trigger] t.bonus_correct@[j]@.len() == types@.len(),
{
    let ghost rvs = row_views(rows@);
    let ghost gv = crate::seqtools::cell_views(grid@);
    let ghost nv = string_views(names@);
    let nq: usize = names.len();
    let nt: usize = types.len();
    let mut t = Tally {
        attempts: zero_matrix_exec(nq, nt),
        correct: zero_matrix_exec(nq, nt),
        bonus_attempts: zero_matrix_exec(nq, nt),
        bonus_correct: zero_matrix_exec(nq, nt),
        warnings: Vec::new(),
        any_warnings: false,
    };
    proof {
        assert(string_views(t.warnings@) =~= Seq::<Seq<char>>::empty());
        assert(t@ == spec_empty_tally(nv.len(), types@.len()));
        assert(forall|j: int|
            0 <= j < nq ==> #[trigger] t@.attempts[j] == Seq::new(nt as nat, |w: int| 0u64));
        assert(forall|j: int|
            0 <= j < nq ==> #[trigger] t@.correct[j] == Seq::new(nt as nat, |w: int| 0u64));
        assert(forall|j: int|
            0 <= j < nq ==> #[trigger] t@.bonus_attempts[j] == Seq::new(nt as nat, |w: int| 0u64));
        assert(forall|j: int|
            0 <= j < nq ==> #[trigger] t@.bonus_correct[j] == Seq::new(nt as nat, |w: int| 0u64));
    }
    for i in 0..rows.len()
        invariant
            rvs == row_views(rows@),
            gv == crate::seqtools::cell_views(grid@),
            nv == string_views(names@),
            nq == names@.len(),
            nt == types@.len(),
            t@ == spec_aggregate(rvs.take(i as int), gv, nv, types@),
            t.any_warnings == (t@.warnings.len() > 0),
            t@.attempts.len() == nq,
            t@.correct.len() == nq,
            t@.bonus_attempts.len() == nq,
            t@.bonus_correct.len() == nq,
            forall|j: int| 0 <= j < nq ==> #[trigger] t@.attempts[j].len() == nt,
            forall|j: int| 0 <= j < nq ==> #[trigger] t@.correct[j].len() == nt,
            forall|j: int| 0 <= j < nq ==> #[trigger] t@.bonus_attempts[j].len() == nt,
            forall|j: int| 0 <= j < nq ==> #[trigger] t@.bonus_correct[j].len() == nt,
    {
        proof {
            assert(rvs.take(i + 1).drop_last() =~= rvs.take(i as int));
            assert(rvs.take(i + 1).last() == string_views(rows@[i as int]@));
        }
        let ghost pre = t@;
        let ghost rv = string_views(rows@[i as int]@);
        let row = &rows[i];
        let (rnum, qnum, qt_opt) = resolve_type(row, grid);
        match qt_opt {
            None => {
                let ghost wprev = t.warnings@;
                t.warnings.push(skip_warning(rnum, qnum));
                t.any_warnings = true;
                proof {
                    assert(t.warnings@.drop_last() =~= wprev);
                    crate::seqtools::lemma_string_views_snoc(t.warnings@);
                    assert(t@.warnings =~= pre.warnings.push(spec_skip_warning(rnum, qnum)));
                    assert(t@ == spec_step(pre, rv, gv, nv, types@));
                }
            },
            Some(qt) => {
                let name: String = if row.len() > QUIZZER_COL {
                    row[QUIZZER_COL].clone()
                } else {
                    String::new()
                };
                proof {
                    assert(name@ == spec_name_of(rv));
                }
                let qi = quizzer_index_of(names, &name);
                let ti = type_col(types, qt);
                proof {
                    reveal_strlit("TC");
                    reveal_strlit("TE");
                    reveal_strlit("BC");
                    reveal_strlit("BE");
                }
                let has_code = row.len() > CODE_COL;
                let is_tc = has_code && crate::events::code_eq(&row[CODE_COL], "TC");
                let is_te = has_code && crate::events::code_eq(&row[CODE_COL], "TE");
                let is_bc = has_code && crate::events::code_eq(&row[CODE_COL], "BC");
                let is_be = has_code && crate::events::code_eq(&row[CODE_COL], "BE");
                proof {
                    let code = row_field(rv, CODE_COL as int);
                    if !has_code {
                        assert(code == Seq::<char>::empty());
                        assert(code != "TC"@ && code != "TE"@ && code != "BC"@ && code != "BE"@);
                    } else {
                        assert(code == rv[CODE_COL as int]);
                    }
                }
                if is_tc {
                    bump_cell(&mut t.attempts, qi, ti);
                    bump_cell(&mut t.correct, qi, ti);
                } else if is_te {
                    bump_cell(&mut t.attempts, qi, ti);
                } else if is_bc {
                    bump_cell(&mut t.bonus_attempts, qi, ti);
                    bump_cell(&mut t.bonus_correct, qi, ti);
                } else if is_be {
                    bump_cell(&mut t.bonus_attempts, qi, ti);
                }
                proof {
                    lemma_bump_dims(pre.attempts, qi as int, ti as int);
                    lemma_bump_dims(pre.correct, qi as int, ti as int);
                    lemma_bump_dims(pre.bonus_attempts, qi as int, ti as int);
                    lemma_bump_dims(pre.bonus_correct, qi as int, ti as int);
                    assert(t@ == spec_step(pre, rv, gv, nv, types@));
                }
            },
        }
        proof {
            assert(t@ == spec_aggregate(rvs.take(i + 1), gv, nv, types@));
            lemma_step_dims(pre, rv, gv, nv, types@, nq as int, nt as int);
        }
    }
    proof {
        assert(rvs.take(rows@.len() as int) =~= rvs);
        assert(t.attempts@.len() == nq) by {
            assert(t@.attempts.len() == nq);
        }
        assert(t.correct@.len() == nq) by {
            assert(t@.correct.len() == nq);
        }
        assert(t.bonus_attempts@.len() == nq) by {
            assert(t@.bonus_attempts.len() == nq);
        }
        assert(t.bonus_correct@.len() == nq) by {
            assert(t@.bonus_correct.len() == nq);
        }
        assert forall|j: int| 0 <= j < nq implies #[trigger] t.attempts@[j]@.len() == nt by {
            assert(t@.attempts[j] == t.attempts@[j]@);
        }
        assert forall|j: int| 0 <= j < nq implies #[trigger] t.correct@[j]@.len() == nt by {
            assert(t@.correct[j] == t.correct@[j]@);
        }
        assert forall|j: int| 0 <= j < nq implies #[trigger] t.bonus_attempts@[j]@.len() == nt by {
            assert(t@.bonus_attempts[j] == t.bonus_attempts@[j]@);
        }
        assert forall|j: int| 0 <= j < nq implies #[trigger] t.bonus_correct@[j]@.len() == nt by {
            assert(t@.bonus_correct[j] == t.bonus_correct@[j]@);
        }
    }
    t
}

} // verus!
