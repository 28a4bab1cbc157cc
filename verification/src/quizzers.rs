//! The quizzer index: a stable, deduplicated ordering of quizzer names
//! derived from the filtered event rows. Names are deduplicated globally —
//! a name seen once anywhere is never added again, even under a different
//! team — and grouped by the team each name first appeared under; the groups
//! come out in ascending team-number order, names inside a group in order of
//! first appearance.

use vstd::prelude::*;
use crate::events::{spec_name_of, spec_team_of, QUIZZER_COL, TEAM_COL};
use crate::numbers::parse_field_u64;
use crate::seqtools::{
    clone_strings,
    first_index,
    lemma_concat_contains,
    lemma_first_index,
    row_views,
    string_views,
};

verus! {

/// All names of a group list, groups in order, names in order inside each
/// group.
pub open spec fn group_names(gs: Seq<(u64, Seq<Seq<char>>)>) -> Seq<Seq<char>>
    decreases gs.len(),
{
    if gs.len() == 0 {
        Seq::empty()
    } else {
        group_names(gs.drop_last()) + gs.last().1
    }
}

/// Adds a new name under its team, keeping the group list ascending by team
/// number.
pub open spec fn spec_add_name(
    gs: Seq<(u64, Seq<Seq<char>>)>,
    team: u64,
    name: Seq<char>,
) -> Seq<(u64, Seq<Seq<char>>)>
    decreases gs.len(),
{
    if gs.len() == 0 {
        seq![(team, seq![name])]
    } else if gs[0].0 == team {
        seq![(team, gs[0].1.push(name))] + gs.drop_first()
    } else if gs[0].0 < team {
        seq![gs[0]] + spec_add_name(gs.drop_first(), team, name)
    } else {
        seq![(team, seq![name])] + gs
    }
}

/// The groups after processing the rows in order: each row's name joins the
/// group of its team unless the name was already seen anywhere.
pub open spec fn spec_groups(rows: Seq<Seq<Seq<char>>>) -> Seq<(u64, Seq<Seq<char>>)>
    decreases rows.len(),
{
    if rows.len() == 0 {
        Seq::empty()
    } else {
        let g = spec_groups(rows.drop_last());
        let name = spec_name_of(rows.last());
        if group_names(g).contains(name) {
            g
        } else {
            spec_add_name(g, spec_team_of(rows.last()), name)
        }
    }
}

/// The final quizzer ordering the report uses.
pub open spec fn spec_quizzers(rows: Seq<Seq<Seq<char>>>) -> Seq<Seq<char>> {
    group_names(spec_groups(rows))
}

/// Index a name resolves to: its first occurrence, with index 0 as the
/// defined fallback for a name that is not in the list.
pub open spec fn spec_quizzer_index(names: Seq<Seq<char>>, name: Seq<char>) -> int {
    if names.contains(name) {
        first_index(names, name)
    } else {
        0
    }
}

/// The (team, name views) of the exec group list.
pub open spec fn group_views(gs: Seq<(u64, Vec<String>)>) -> Seq<(u64, Seq<Seq<char>>)> {
    Seq::new(gs.len(), |i: int| (gs[i].0, string_views(gs[i].1@)))
}

/// A name is among a group list's names exactly when some group holds it.
pub proof fn lemma_group_names_structure(gs: Seq<(u64, Seq<Seq<char>>)>, nm: Seq<char>)
    ensures
        group_names(gs).contains(nm) <==> exists|i: int|
            0 <= i < gs.len() && #[trigger] gs[i].1.contains(nm),
    decreases gs.len(),
{
    if gs.len() > 0 {
        lemma_group_names_structure(gs.drop_last(), nm);
        lemma_concat_contains(group_names(gs.drop_last()), gs.last().1, nm);
        if group_names(gs).contains(nm) {
            if gs.last().1.contains(nm) {
                assert(gs[gs.len() - 1].1.contains(nm));
            } else {
                let i = choose|i: int|
                    0 <= i < gs.drop_last().len() && #[trigger] gs.drop_last()[i].1.contains(nm);
                assert(gs[i].1.contains(nm));
            }
        }
        if exists|i: int| 0 <= i < gs.len() && #[trigger] gs[i].1.contains(nm) {
            let i = choose|i: int| 0 <= i < gs.len() && #[trigger] gs[i].1.contains(nm);
            if i < gs.len() - 1 {
                assert(gs.drop_last()[i].1.contains(nm));
            }
        }
    }
}

/// Whether any group already holds this name.
fn groups_contain(gs: &Vec<(u64, Vec<String>)>, name: &String) -> (r: bool)
    ensures
        r == group_names(group_views(gs@)).contains(name@),
{
    proof {
        lemma_group_names_structure(group_views(gs@), name@);
    }
    for i in 0..gs.len()
        invariant
            forall|ii: int| 0 <= ii < i ==> !(#[trigger] group_views(gs@)[ii].1.contains(name@)),
    {
        let g = &gs[i].1;
        for j in 0..g.len()
            invariant
                g@ == gs@[i as int].1@,
                i < gs@.len(),
                forall|jj: int| 0 <= jj < j ==> g@[jj]@ != name@,
        {
            if g[j] == *name {
                proof {
                    assert(group_views(gs@)[i as int].1[j as int] == name@);
                    assert(group_views(gs@)[i as int].1.contains(name@));
                    lemma_group_names_structure(group_views(gs@), name@);
                }
                return true;
            }
        }
        proof {
            assert forall|w: int|
                0 <= w < group_views(gs@)[i as int].1.len() implies group_views(
                gs@,
            )[i as int].1[w] != name@ by {
                assert(g@[w]@ != name@);
            }
        }
    }
    proof {
        lemma_group_names_structure(group_views(gs@), name@);
    }
    false
}

/// A non-empty group list's views are the views of its front followed by
/// the view of its last group.
proof fn lemma_group_views_snoc(v: Seq<(u64, Vec<String>)>)
    requires
        v.len() > 0,
    ensures
        group_views(v) =~= group_views(v.drop_last()).push(
            (v.last().0, string_views(v.last().1@)),
        ),
{
    assert forall|w: int| 0 <= w < v.len() - 1 implies group_views(v)[w] == group_views(
        v.drop_last(),
    )[w] by {
        assert(v.drop_last()[w] == v[w]);
    }
}

proof fn lemma_add_name_at(gs: Seq<(u64, Seq<Seq<char>>)>, team: u64, name: Seq<char>, k: int)
    requires
        0 <= k <= gs.len(),
        forall|j: int| 0 <= j < k ==> (#[trigger] gs[j].0) < team,
        k < gs.len() ==> gs[k].0 >= team,
    ensures
        spec_add_name(gs, team, name) == if k < gs.len() && gs[k].0 == team {
            gs.update(k, (team, gs[k].1.push(name)))
        } else {
            gs.take(k) + seq![(team, seq![name])] + gs.skip(k)
        },
    decreases k,
{
    if k == 0 {
        if gs.len() == 0 {
            assert(spec_add_name(gs, team, name) =~= gs.take(0) + seq![(team, seq![name])]
                + gs.skip(0));
        } else if gs[0].0 == team {
            assert(spec_add_name(gs, team, name) =~= gs.update(0, (team, gs[0].1.push(name))));
        } else {
            assert(gs[0].0 > team);
            assert(spec_add_name(gs, team, name) =~= gs.take(0) + seq![(team, seq![name])]
                + gs.skip(0));
        }
    } else {
        let t = gs.drop_first();
        assert(gs[0].0 < team);
        assert(forall|j: int| 0 <= j < k - 1 ==> (#[trigger] t[j].0) < team);
        lemma_add_name_at(t, team, name, k - 1);
        if k < gs.len() && gs[k].0 == team {
            assert(t[k - 1].0 == team);
            assert(spec_add_name(gs, team, name) =~= gs.update(k, (team, gs[k].1.push(name))));
        } else {
            assert(spec_add_name(gs, team, name) == seq![gs[0]] + (t.take(k - 1) + seq![
                (team, seq![name]),
            ] + t.skip(k - 1)));
            assert(seq![gs[0]] + (t.take(k - 1) + seq![(team, seq![name])] + t.skip(k - 1))
                =~= gs.take(k) + seq![(team, seq![name])] + gs.skip(k));
        }
    }
}

/// Adds a name under its team, keeping the groups ascending by team number.
fn add_name(gs: Vec<(u64, Vec<String>)>, team: u64, name: String) -> (r: Vec<
    (u64, Vec<String>),
>)
    ensures
        group_views(r@) == spec_add_name(group_views(gs@), team, name@),
{
    let ghost gv = group_views(gs@);
    let mut out: Vec<(u64, Vec<String>)> = Vec::new();
    let mut i: usize = 0;
    while i < gs.len() && gs[i].0 < team
        invariant
            0 <= i <= gs@.len(),
            gv == group_views(gs@),
            forall|j: int| 0 <= j < i ==> (#[trigger] gv[j].0) < team,
            group_views(out@) == gv.take(i as int),
        decreases gs@.len() - i,
    {
        let t: u64 = gs[i].0;
        let ns = clone_strings(&gs[i].1);
        proof {
            assert(string_views(ns@) == string_views(gs@[i as int].1@));
            assert(gv[i as int] == (gs@[i as int].0, string_views(gs@[i as int].1@)));
        }
        let ghost prev = out@;
        out.push((t, ns));
        proof {
            assert(out@.drop_last() =~= prev);
            lemma_group_views_snoc(out@);
            assert(group_views(out@) =~= gv.take(i + 1));
        }
        i = i + 1;
    }
    proof {
        lemma_add_name_at(gv, team, name@, i as int);
    }
    if i < gs.len() && gs[i].0 == team {
        let mut ns = clone_strings(&gs[i].1);
        let ghost nsprev = ns@;
        ns.push(name);
        proof {
            assert(ns@.drop_last() =~= nsprev);
            crate::seqtools::lemma_string_views_snoc(ns@);
            assert(string_views(ns@) =~= gv[i as int].1.push(name@));
        }
        let ghost outprev = out@;
        out.push((team, ns));
        proof {
            assert(out@.drop_last() =~= outprev);
            lemma_group_views_snoc(out@);
        }
        let ghost mid = group_views(out@);
        let mut j: usize = i + 1;
        while j < gs.len()
            invariant
                i + 1 <= j <= gs@.len(),
                gv == group_views(gs@),
                mid == group_views(out@).take(i + 1),
                group_views(out@) == mid + gv.subrange(i + 1, j as int),
                mid == gv.take(i as int).push((team, gv[i as int].1.push(name@))),
            decreases gs@.len() - j,
        {
            let t: u64 = gs[j].0;
            let ns2 = clone_strings(&gs[j].1);
            let ghost prev = out@;
            out.push((t, ns2));
            proof {
                assert(out@.drop_last() =~= prev);
                lemma_group_views_snoc(out@);
                assert(group_views(out@) =~= mid + gv.subrange(i + 1, j + 1));
                assert(group_views(out@).take(i + 1) =~= mid);
            }
            j = j + 1;
        }
        proof {
            assert(group_views(out@) =~= gv.update(i as int, (team, gv[i as int].1.push(name@))));
        }
        out
    } else {
        let mut ns: Vec<String> = Vec::new();
        ns.push(name);
        proof {
            assert(string_views(ns@) =~= seq![name@]);
        }
        let ghost outprev = out@;
        out.push((team, ns));
        proof {
            assert(out@.drop_last() =~= outprev);
            lemma_group_views_snoc(out@);
        }
        let ghost mid = group_views(out@);
        let mut j: usize = i;
        while j < gs.len()
            invariant
                i <= j <= gs@.len(),
                gv == group_views(gs@),
                group_views(out@) == mid + gv.subrange(i as int, j as int),
                mid == gv.take(i as int).push((team, seq![name@])),
            decreases gs@.len() - j,
        {
            let t: u64 = gs[j].0;
            let ns2 = clone_strings(&gs[j].1);
            let ghost prev = out@;
            out.push((t, ns2));
            proof {
                assert(out@.drop_last() =~= prev);
                lemma_group_views_snoc(out@);
                assert(group_views(out@) =~= mid + gv.subrange(i as int, j + 1));
            }
            j = j + 1;
        }
        proof {
            assert(group_views(out@) =~= gv.take(i as int) + seq![(team, seq![name@])] + gv.skip(
                i as int,
            ));
        }
        out
    }
}

/// Derives the stable quizzer ordering from the filtered rows.
pub fn quizzer_names(rows: &Vec<Vec<String>>) -> (r: Vec<String>)
    ensures
        string_views(r@) == spec_quizzers(row_views(rows@)),
{
    let mut groups: Vec<(u64, Vec<String>)> = Vec::new();
    for i in 0..rows.len()
        invariant
            group_views(groups@) == spec_groups(row_views(rows@).take(i as int)),
    {
        proof {
            assert(row_views(rows@).take(i + 1).drop_last() =~= row_views(rows@).take(i as int));
            assert(row_views(rows@).take(i + 1).last() == string_views(rows@[i as int]@));
        }
        let row = &rows[i];
        let ghost rv = string_views(rows@[i as int]@);
        let name: String = if row.len() > QUIZZER_COL {
            row[QUIZZER_COL].clone()
        } else {
            String::new()
        };
        proof {
            assert(name@ == spec_name_of(rv));
        }
        let team: u64 = if row.len() > TEAM_COL {
            parse_field_u64(row[TEAM_COL].as_str())
        } else {
            0
        };
        proof {
            if row@.len() > TEAM_COL {
                assert(team == spec_team_of(rv));
            } else {
                assert(crate::events::row_field(rv, TEAM_COL as int) == Seq::<char>::empty());
                assert(team == spec_team_of(rv));
            }
        }
        if !groups_contain(&groups, &name) {
            groups = add_name(groups, team, name);
        }
    }
    proof {
        assert(row_views(rows@).take(rows@.len() as int) =~= row_views(rows@));
    }
    let mut out: Vec<String> = Vec::new();
    let ghost gv = group_views(groups@);
    for i in 0..groups.len()
        invariant
            gv == group_views(groups@),
            string_views(out@) == group_names(gv.take(i as int)),
    {
        let g = &groups[i].1;
        let ghost base = string_views(out@);
        for j in 0..g.len()
            invariant
                g@ == groups@[i as int].1@,
                i < groups@.len(),
                gv == group_views(groups@),
                string_views(out@) == base + string_views(g@).take(j as int),
        {
            let ghost prev = out@;
            out.push(g[j].clone());
            proof {
                assert(out@.drop_last() =~= prev);
                crate::seqtools::lemma_string_views_snoc(out@);
                assert(string_views(out@) =~= base + string_views(g@).take(j + 1));
            }
        }
        proof {
            assert(gv.take(i + 1).drop_last() =~= gv.take(i as int));
            assert(string_views(g@).take(g@.len() as int) =~= string_views(g@));
            assert(string_views(out@) =~= group_names(gv.take(i + 1)));
        }
    }
    proof {
        assert(gv.take(groups@.len() as int) =~= gv);
    }
    out
}

/// Resolves a name to its row index in the report: the first occurrence in
/// the quizzer ordering, or index 0 as the defined fallback for a name that
/// never appeared.
pub fn quizzer_index_of(names: &Vec<String>, name: &String) -> (i: usize)
    ensures
        i as int == spec_quizzer_index(string_views(names@), name@),
        names@.len() > 0 ==> (i as int) < names@.len(),
{
    proof {
        lemma_first_index(string_views(names@), name@);
    }
    for j in 0..names.len()
        invariant
            forall|k: int| 0 <= k < j ==> string_views(names@)[k] != name@,
    {
        if names[j] == *name {
            proof {
                let ns = string_views(names@);
                lemma_first_index(ns, name@);
                assert(ns[j as int] == name@);
                assert(ns.contains(name@));
                let f = first_index(ns, name@);
                assert(f == j as int) by {
                    if f < j as int {
                        assert(ns[f] != name@);
                    }
                    if f > j as int {
                        assert(ns[j as int] != name@);
                    }
                }
            }
            return j;
        }
    }
    proof {
        let ns = string_views(names@);
        if ns.contains(name@) {
            let w = choose|w: int| 0 <= w < ns.len() && ns[w] == name@;
            assert(ns[w] != name@);
        }
    }
    0
}

} // verus!
