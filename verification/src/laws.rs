//! The library's stated laws, proved against the same spec functions its
//! public contracts use: determinism of the whole run, the shape of the
//! report, the distinctness of the quizzer ordering, the grid round trip,
//! the end-of-round carve-out, and the warning discipline for rows the grid
//! cannot place.

use vstd::prelude::*;
use crate::QuizError;
use crate::aggregate::{
    spec_question_num,
    spec_resolve_type,
    spec_round_num,
    spec_skip_warning,
    spec_step,
    TallyView,
};
use crate::grid::{concat_all, dense_at, dense_rounds, max_round, spec_grid, spec_pages};
use crate::aggregate::cell_at;
use crate::events::{spec_name_of, spec_team_of};
use crate::numbers::{dec_str, digit_char};
use crate::pipeline::spec_run;
use crate::report::{
    spec_char_str,
    spec_count_cell,
    spec_data_line,
    spec_data_lines,
    spec_header,
    spec_header_cells,
    spec_header_types,
    spec_report,
    spec_row_counts,
};
use crate::seqtools::count_char;
use crate::quizzers::{group_names, spec_add_name, spec_groups, spec_quizzers};
use crate::types::spec_default_type;

verus! {

/// Running the analysis twice on identical inputs yields identical output:
/// the result is a function of the documents, the rows, the requested
/// types, the tournament filter and the round option, and of nothing else.
pub proof fn lemma_run_deterministic(
    docs: Seq<Seq<char>>,
    rows: Seq<Seq<Seq<char>>>,
    types: Seq<char>,
    tourn: Seq<char>,
    show_round: bool,
    r1: Result<(Seq<Seq<char>>, Seq<char>), QuizError>,
    r2: Result<(Seq<Seq<char>>, Seq<char>), QuizError>,
)
    requires
        r1 == spec_run(docs, rows, types, tourn, show_round),
        r2 == spec_run(docs, rows, types, tourn, show_round),
    ensures
        r1 == r2,
{
}

/// The 21st question position of a round always resolves to the
/// default/general category, whatever the grid holds — pages are twenty
/// questions long, so the end-of-round question lives past them by design.
pub proof fn lemma_question_21_is_default(row: Seq<Seq<char>>, grid: Seq<Seq<char>>)
    requires
        spec_question_num(row) == 21,
    ensures
        spec_resolve_type(row, grid) == Some(spec_default_type()),
{
}

/// A row whose round or question the grid cannot place adds exactly one
/// warning and contributes zero increments to all four matrices.
pub proof fn lemma_out_of_bounds_row_warns(
    t: TallyView,
    row: Seq<Seq<char>>,
    grid: Seq<Seq<char>>,
    names: Seq<Seq<char>>,
    types: Seq<char>,
)
    requires
        spec_resolve_type(row, grid) is None,
    ensures
        spec_step(t, row, grid, names, types).warnings == t.warnings.push(
            spec_skip_warning(spec_round_num(row), spec_question_num(row)),
        ),
        spec_step(t, row, grid, names, types).attempts == t.attempts,
        spec_step(t, row, grid, names, types).correct == t.correct,
        spec_step(t, row, grid, names, types).bonus_attempts == t.bonus_attempts,
        spec_step(t, row, grid, names, types).bonus_correct == t.bonus_correct,
{
}

/// No two entries of the final quizzer ordering are the same name.
pub open spec fn distinct_names(s: Seq<Seq<char>>) -> bool {
    forall|i: int, j: int| 0 <= i < j < s.len() ==> s[i] != s[j]
}

proof fn lemma_group_names_cons(gs: Seq<(u64, Seq<Seq<char>>)>)
    requires
        gs.len() > 0,
    ensures
        group_names(gs) == gs[0].1 + group_names(gs.drop_first()),
    decreases gs.len(),
{
    if gs.len() == 1 {
        assert(gs.drop_first() =~= Seq::<(u64, Seq<Seq<char>>)>::empty());
        assert(gs.drop_last() =~= Seq::<(u64, Seq<Seq<char>>)>::empty());
        assert(group_names(gs) =~= gs[0].1 + group_names(gs.drop_first()));
    } else {
        lemma_group_names_cons(gs.drop_last());
        assert(gs.drop_last()[0] == gs[0]);
        assert(gs.drop_last().drop_first() =~= gs.drop_first().drop_last());
        assert(gs.drop_first().last() == gs.last());
        assert(group_names(gs) =~= gs[0].1 + group_names(gs.drop_first()));
    }
}

proof fn lemma_add_name_names(gs: Seq<(u64, Seq<Seq<char>>)>, team: u64, nm: Seq<char>)
    ensures
        exists|k: int|
            0 <= k <= group_names(gs).len() && group_names(spec_add_name(gs, team, nm))
                == group_names(gs).insert(k, nm),
    decreases gs.len(),
{
    let a = spec_add_name(gs, team, nm);
    if gs.len() == 0 {
        assert(a.drop_last() =~= Seq::<(u64, Seq<Seq<char>>)>::empty());
        assert(a.last().1 == seq![nm]);
        assert(group_names(Seq::<(u64, Seq<Seq<char>>)>::empty()) =~= Seq::<Seq<char>>::empty());
        assert(group_names(a) =~= seq![nm]);
        assert(group_names(gs) =~= Seq::<Seq<char>>::empty());
        assert(group_names(a) =~= group_names(gs).insert(0, nm));
    } else if gs[0].0 == team {
        lemma_group_names_cons(a);
        lemma_group_names_cons(gs);
        assert(a[0].1 == gs[0].1.push(nm));
        assert(a.drop_first() =~= gs.drop_first());
        let k = gs[0].1.len() as int;
        assert(group_names(a) =~= group_names(gs).insert(k, nm));
    } else if gs[0].0 < team {
        lemma_add_name_names(gs.drop_first(), team, nm);
        let k0 = choose|k0: int|
            0 <= k0 <= group_names(gs.drop_first()).len() && group_names(
                spec_add_name(gs.drop_first(), team, nm),
            ) == group_names(gs.drop_first()).insert(k0, nm);
        lemma_group_names_cons(a);
        lemma_group_names_cons(gs);
        assert(a[0] == gs[0]);
        assert(a.drop_first() =~= spec_add_name(gs.drop_first(), team, nm));
        let k = gs[0].1.len() + k0;
        assert(group_names(a) =~= group_names(gs).insert(k, nm));
    } else {
        lemma_group_names_cons(a);
        assert(a[0].1 == seq![nm]);
        assert(a.drop_first() =~= gs);
        assert(group_names(a) =~= group_names(gs).insert(0, nm));
    }
}

proof fn lemma_insert_distinct(s: Seq<Seq<char>>, k: int, x: Seq<char>)
    requires
        distinct_names(s),
        !s.contains(x),
        0 <= k <= s.len(),
    ensures
        distinct_names(s.insert(k, x)),
{
    let t = s.insert(k, x);
    assert forall|i: int, j: int| 0 <= i < j < t.len() implies t[i] != t[j] by {
        assert(forall|w: int| 0 <= w < s.len() ==> s[w] != x);
        if i < k {
            assert(t[i] == s[i]);
        } else if i == k {
            assert(t[i] == x);
        } else {
            assert(t[i] == s[i - 1]);
        }
        if j < k {
            assert(t[j] == s[j]);
        } else if j == k {
            assert(t[j] == x);
        } else {
            assert(t[j] == s[j - 1]);
        }
    }
}

/// The quizzer ordering never lists a name twice, whatever the rows: a
/// name seen once anywhere is never added again.
pub proof fn lemma_quizzers_distinct(rows: Seq<Seq<Seq<char>>>)
    ensures
        distinct_names(spec_quizzers(rows)),
    decreases rows.len(),
{
    if rows.len() == 0 {
        assert(spec_quizzers(rows) =~= Seq::<Seq<char>>::empty());
    } else {
        lemma_quizzers_distinct(rows.drop_last());
        let g = spec_groups(rows.drop_last());
        let nm = spec_name_of(rows.last());
        if !group_names(g).contains(nm) {
            lemma_add_name_names(g, spec_team_of(rows.last()), nm);
            let k = choose|k: int|
                0 <= k <= group_names(g).len() && group_names(
                    spec_add_name(g, spec_team_of(rows.last()), nm),
                ) == group_names(g).insert(k, nm);
            lemma_insert_distinct(group_names(g), k, nm);
        }
    }
}

/// Group lists are strictly ascending by team number.
pub open spec fn teams_sorted(gs: Seq<(u64, Seq<Seq<char>>)>) -> bool {
    forall|i: int, j: int| 0 <= i < j < gs.len() ==> (#[trigger] gs[i].0) < (#[trigger] gs[j].0)
}

proof fn lemma_add_name_sorted(gs: Seq<(u64, Seq<Seq<char>>)>, team: u64, nm: Seq<char>)
    requires
        teams_sorted(gs),
    ensures
        teams_sorted(spec_add_name(gs, team, nm)),
    decreases gs.len(),
{
    let a = spec_add_name(gs, team, nm);
    if gs.len() == 0 {
    } else if gs[0].0 == team {
        assert(forall|j: int| 0 < j < gs.len() ==> gs[0].0 < (#[trigger] gs[j].0));
        assert forall|i: int, j: int| 0 <= i < j < a.len() implies (#[trigger] a[i].0) < (
        #[trigger] a[j].0) by {
            if i > 0 {
                assert(a[i] == gs[i]);
            }
            assert(a[j] == gs[j]);
        }
    } else if gs[0].0 < team {
        let t = gs.drop_first();
        assert(forall|i: int, j: int|
            0 <= i < j < t.len() ==> (#[trigger] t[i].0) < (#[trigger] t[j].0));
        lemma_add_name_sorted(t, team, nm);
        let b = spec_add_name(t, team, nm);
        assert(a =~= seq![gs[0]] + b);
        assert forall|w: int| 0 <= w < b.len() implies gs[0].0 < (#[trigger] b[w].0) by {
            lemma_add_name_teams(t, team, nm, w);
        }
        assert forall|i: int, j: int| 0 <= i < j < a.len() implies (#[trigger] a[i].0) < (
        #[trigger] a[j].0) by {
            if i > 0 {
                assert(a[i] == b[i - 1] && a[j] == b[j - 1]);
            } else {
                assert(a[j] == b[j - 1]);
            }
        }
    } else {
        assert forall|i: int, j: int| 0 <= i < j < a.len() implies (#[trigger] a[i].0) < (
        #[trigger] a[j].0) by {
            if i > 0 {
                assert(a[i] == gs[i - 1] && a[j] == gs[j - 1]);
            } else {
                assert(a[j] == gs[j - 1]);
                assert(team < gs[0].0);
                if j > 1 {
                    assert(gs[0].0 < gs[j - 1].0);
                }
            }
        }
    }
}

/// Every team in the added list is either `team` or a team of the old list.
proof fn lemma_add_name_teams(gs: Seq<(u64, Seq<Seq<char>>)>, team: u64, nm: Seq<char>, w: int)
    requires
        0 <= w < spec_add_name(gs, team, nm).len(),
    ensures
        spec_add_name(gs, team, nm)[w].0 == team || exists|v: int|
            0 <= v < gs.len() && (#[trigger] gs[v].0) == spec_add_name(gs, team, nm)[w].0,
    decreases gs.len(),
{
    let a = spec_add_name(gs, team, nm);
    if gs.len() == 0 {
    } else if gs[0].0 == team {
        if w > 0 {
            assert(a[w] == gs[w]);
        }
    } else if gs[0].0 < team {
        if w > 0 {
            let t = gs.drop_first();
            lemma_add_name_teams(t, team, nm, w - 1);
            assert(a[w] == spec_add_name(t, team, nm)[w - 1]);
            if a[w].0 != team {
                let v = choose|v: int|
                    0 <= v < t.len() && (#[trigger] t[v].0) == spec_add_name(t, team, nm)[w - 1].0;
                assert(gs[v + 1].0 == a[w].0);
            }
        }
    } else {
        if w > 0 {
            assert(a[w] == gs[w - 1]);
        }
    }
}

/// The quizzer groups come out in strictly ascending team-number order,
/// whatever rows they were built from.
pub proof fn lemma_groups_sorted_by_team(rows: Seq<Seq<Seq<char>>>)
    ensures
        teams_sorted(spec_groups(rows)),
    decreases rows.len(),
{
    if rows.len() > 0 {
        lemma_groups_sorted_by_team(rows.drop_last());
        let g = spec_groups(rows.drop_last());
        if !group_names(g).contains(spec_name_of(rows.last())) {
            lemma_add_name_sorted(g, spec_team_of(rows.last()), spec_name_of(rows.last()));
        }
    }
}

proof fn lemma_count_char_none(s: Seq<char>, c: char)
    requires
        forall|i: int| 0 <= i < s.len() ==> s[i] != c,
    ensures
        count_char(s, c) == 0,
    decreases s.len(),
{
    if s.len() > 0 {
        assert(forall|i: int| 0 <= i < s.drop_last().len() ==> s.drop_last()[i] != c);
        lemma_count_char_none(s.drop_last(), c);
    }
}

proof fn lemma_nl_dec_str(n: int)
    ensures
        count_char(dec_str(n), '\n') == 0,
    decreases n,
{
    if n < 10 {
        let s = seq![digit_char(n)];
        assert(s.drop_last() =~= Seq::<char>::empty());
        assert(count_char(Seq::<char>::empty(), '\n') == 0);
        assert(digit_char(n) != '\n');
        assert(count_char(dec_str(n), '\n') == 0);
    } else {
        lemma_nl_dec_str(n / 10);
        let s = dec_str(n / 10).push(digit_char(n % 10));
        assert(s.drop_last() =~= dec_str(n / 10));
        assert(digit_char(n % 10) != '\n');
        assert(count_char(s, '\n') == 0);
    }
}

proof fn lemma_nl_char_str(c: char)
    ensures
        count_char(spec_char_str(c), '\n') == 0,
{
    reveal_strlit("A");
    reveal_strlit("G");
    reveal_strlit("I");
    reveal_strlit("M");
    reveal_strlit("Q");
    reveal_strlit("R");
    reveal_strlit("S");
    reveal_strlit("X");
    reveal_strlit("?");
    lemma_count_char_none(spec_char_str(c), '\n');
}

proof fn lemma_nl_count_cell(n: u64)
    ensures
        count_char(spec_count_cell(n), '\n') == 0,
{
    broadcast use crate::seqtools::lemma_count_char_concat;

    lemma_nl_dec_str(n as int);
    reveal_strlit(".0");
    lemma_count_char_none(".0"@, '\n');
}

proof fn lemma_nl_header_cells(c: char)
    ensures
        count_char(spec_header_cells(c), '\n') == 0,
{
    broadcast use crate::seqtools::lemma_count_char_concat;

    lemma_nl_char_str(c);
    reveal_strlit("\t");
    reveal_strlit(" Attempts");
    reveal_strlit(" Correct");
    reveal_strlit(" Bonus Attempts");
    reveal_strlit(" Bonus Correct");
    lemma_count_char_none("\t"@, '\n');
    lemma_count_char_none(" Attempts"@, '\n');
    lemma_count_char_none(" Correct"@, '\n');
    lemma_count_char_none(" Bonus Attempts"@, '\n');
    lemma_count_char_none(" Bonus Correct"@, '\n');
}

proof fn lemma_nl_header_types(types: Seq<char>, k: int)
    ensures
        count_char(spec_header_types(types, k), '\n') == 0,
    decreases k,
{
    broadcast use crate::seqtools::lemma_count_char_concat;

    if k > 0 {
        lemma_nl_header_types(types, k - 1);
        lemma_nl_header_cells(types[k - 1]);
    }
}

proof fn lemma_nl_header(types: Seq<char>, show_round: bool)
    ensures
        count_char(spec_header(types, show_round), '\n') == 1,
{
    broadcast use crate::seqtools::lemma_count_char_concat;

    reveal_strlit("Round");
    reveal_strlit("\t");
    reveal_strlit("Quizzer");
    reveal_strlit("\n");
    lemma_count_char_none("Round"@, '\n');
    lemma_count_char_none("\t"@, '\n');
    lemma_count_char_none("Quizzer"@, '\n');
    lemma_nl_header_types(types, types.len() as int);
    assert("\n"@.drop_last() =~= Seq::<char>::empty());
    assert(count_char(Seq::<char>::empty(), '\n') == 0);
    assert(count_char("\n"@, '\n') == 1);
}

proof fn lemma_nl_row_counts(t: TallyView, qi: int, k: int)
    ensures
        count_char(spec_row_counts(t, qi, k), '\n') == 0,
    decreases k,
{
    broadcast use crate::seqtools::lemma_count_char_concat;

    if k > 0 {
        lemma_nl_row_counts(t, qi, k - 1);
        reveal_strlit("\t");
        lemma_count_char_none("\t"@, '\n');
        lemma_nl_count_cell(cell_at(t.attempts, qi, k - 1));
        lemma_nl_count_cell(cell_at(t.correct, qi, k - 1));
        lemma_nl_count_cell(cell_at(t.bonus_attempts, qi, k - 1));
        lemma_nl_count_cell(cell_at(t.bonus_correct, qi, k - 1));
    }
}

proof fn lemma_nl_data_lines(
    names: Seq<Seq<char>>,
    t: TallyView,
    ntypes: int,
    k: int,
    show_round: bool,
)
    requires
        k <= names.len(),
        forall|i: int, w: int|
            0 <= i < names.len() && 0 <= w < names[i].len() ==> #[trigger] names[i][w] != '\n',
    ensures
        count_char(spec_data_lines(names, t, ntypes, k, show_round), '\n') == if k <= 0 {
            0int
        } else {
            k
        },
    decreases k,
{
    broadcast use crate::seqtools::lemma_count_char_concat;

    if k > 0 {
        lemma_nl_data_lines(names, t, ntypes, k - 1, show_round);
        reveal_strlit("\t");
        reveal_strlit("\n");
        lemma_count_char_none("\t"@, '\n');
        lemma_count_char_none(names[k - 1], '\n');
        lemma_nl_row_counts(t, k - 1, ntypes);
        assert("\n"@.drop_last() =~= Seq::<char>::empty());
        assert(count_char(Seq::<char>::empty(), '\n') == 0);
        assert(count_char("\n"@, '\n') == 1);
        assert(count_char(spec_data_line(names, t, ntypes, k - 1, show_round), '\n') == 1);
    }
}

/// The report has exactly one line per quizzer after the header: its
/// newline count is the number of distinct quizzer names plus one, as long
/// as no name itself carries a newline.
pub proof fn lemma_report_line_count(
    names: Seq<Seq<char>>,
    t: TallyView,
    types: Seq<char>,
    show_round: bool,
)
    requires
        forall|i: int, w: int|
            0 <= i < names.len() && 0 <= w < names[i].len() ==> #[trigger] names[i][w] != '\n',
    ensures
        count_char(spec_report(names, t, types, show_round), '\n') == names.len() + 1,
{
    broadcast use crate::seqtools::lemma_count_char_concat;

    lemma_nl_header(types, show_round);
    lemma_nl_data_lines(names, t, types.len() as int, names.len() as int, show_round);
}

proof fn lemma_max_round_dense(ps: Seq<(usize, Seq<char>)>, k: int)
    requires
        ps.len() == k,
        0 <= k,
        forall|i: int| 0 <= i < k ==> (#[trigger] ps[i].0) as int == i + 1,
    ensures
        max_round(ps) == k,
    decreases k,
{
    if k > 0 {
        assert(forall|i: int|
            0 <= i < k - 1 ==> (#[trigger] ps.drop_last()[i].0) as int == i + 1);
        lemma_max_round_dense(ps.drop_last(), k - 1);
        assert(ps.last().0 as int == k);
    }
}

proof fn lemma_dense_at_dense(ps: Seq<(usize, Seq<char>)>, j: int)
    requires
        forall|i: int| 0 <= i < ps.len() ==> (#[trigger] ps[i].0) as int == i + 1,
        0 <= j < ps.len(),
    ensures
        dense_at(ps, j) == ps[j].1,
    decreases ps.len(),
{
    if ps.len() > 0 {
        if j == ps.len() - 1 {
            assert(ps.last().0 as int == j + 1);
        } else {
            assert(ps.last().0 as int == ps.len());
            assert(forall|i: int|
                0 <= i < ps.len() - 1 ==> (#[trigger] ps.drop_last()[i].0) as int == i + 1);
            lemma_dense_at_dense(ps.drop_last(), j);
        }
    }
}

proof fn lemma_concat_len_full(rows: Seq<Seq<char>>)
    requires
        forall|i: int| 0 <= i < rows.len() ==> (#[trigger] rows[i]).len() == 20,
    ensures
        concat_all(rows).len() == 20 * rows.len(),
    decreases rows.len(),
{
    if rows.len() > 0 {
        assert(forall|i: int|
            0 <= i < rows.len() - 1 ==> (#[trigger] rows.drop_last()[i]).len() == 20);
        lemma_concat_len_full(rows.drop_last());
        assert(rows.last().len() == 20);
    }
}

proof fn lemma_concat_offsets(rows: Seq<Seq<char>>, j: int)
    requires
        forall|i: int| 0 <= i < rows.len() - 1 ==> (#[trigger] rows[i]).len() == 20,
        0 <= j < rows.len(),
    ensures
        concat_all(rows).len() == 20 * (rows.len() - 1) + rows.last().len(),
        concat_all(rows).subrange(20 * j, 20 * j + rows[j].len()) == rows[j],
    decreases rows.len(),
{
    let flat = concat_all(rows);
    let front = concat_all(rows.drop_last());
    assert(forall|i: int|
        0 <= i < rows.len() - 1 ==> (#[trigger] rows.drop_last()[i]).len() == 20);
    lemma_concat_len_full(rows.drop_last());
    assert(front.len() == 20 * (rows.len() - 1));
    if j == rows.len() - 1 {
        assert(flat.subrange(20 * j, 20 * j + rows[j].len()) =~= rows[j]);
    } else {
        lemma_concat_offsets(rows.drop_last(), j);
        assert(rows.drop_last()[j] == rows[j]);
        assert(flat.subrange(20 * j, 20 * j + rows[j].len()) =~= front.subrange(
            20 * j,
            20 * j + rows[j].len(),
        ));
    }
}

/// Round trip: when the documents declare rounds 1 through `k` in order,
/// every earlier round a complete page of twenty codes and the last one
/// declaring between one and twenty, the grid gives each round's codes back
/// unchanged — in particular, the document declaring round `k` lands at
/// grid row `k - 1`.
pub proof fn lemma_grid_round_trip(ps: Seq<(usize, Seq<char>)>, k: int)
    requires
        ps.len() == k,
        1 <= k,
        forall|i: int| 0 <= i < k ==> (#[trigger] ps[i].0) as int == i + 1,
        forall|i: int| 0 <= i < k - 1 ==> (#[trigger] ps[i].1).len() == 20,
        1 <= ps[k - 1].1.len() <= 20,
    ensures
        spec_grid(ps).len() == k,
        forall|i: int| 0 <= i < k ==> spec_grid(ps)[i] == ps[i].1,
{
    broadcast use vstd::arithmetic::div_mod::lemma_fundamental_div_mod_converse_div;

    lemma_max_round_dense(ps, k);
    let dr = dense_rounds(ps);
    assert(dr.len() == k);
    assert forall|j: int| 0 <= j < k implies dr[j] == ps[j].1 by {
        lemma_dense_at_dense(ps, j);
    }
    let flat = concat_all(dr);
    assert(forall|i: int| 0 <= i < k - 1 ==> (#[trigger] dr[i]).len() == 20);
    let n = ps[k - 1].1.len() as int;
    assert(dr.last() == ps[k - 1].1);
    lemma_concat_offsets(dr, k - 1);
    assert(flat.len() == 20 * (k - 1) + n);
    let pages = spec_pages(flat);
    assert((flat.len() + 19) / 20 == k) by {
        assert(flat.len() + 19 == 20 * k + (n - 1));
        assert(0 <= n - 1 < 20);
        assert((20 * k + (n - 1)) / 20 == k);
    }
    assert(pages.len() == k);
    assert forall|j: int| 0 <= j < k implies pages[j] == ps[j].1 by {
        lemma_concat_offsets(dr, j);
        if j < k - 1 {
            assert(dr[j].len() == 20);
            assert(20 * j + 20 <= 20 * (k - 1));
            assert(pages[j] == flat.subrange(20 * j, 20 * j + 20));
            assert(flat.subrange(20 * j, 20 * j + dr[j].len()) == dr[j]);
        } else {
            assert(pages[j] == flat.subrange(20 * j, flat.len() as int));
            assert(flat.subrange(20 * j, 20 * j + dr[j].len()) == dr[j]);
            assert(20 * j + dr[j].len() == flat.len());
        }
    }
}

} // verus!
