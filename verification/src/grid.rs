//! The type-grid builder: collects each document's (round number, codes)
//! pair, lays the rounds out densely by declared number, concatenates them
//! into one continuous question sequence, and re-chunks that sequence into
//! fixed pages of twenty questions — each page is one round of the final
//! lookup grid. The re-pagination deliberately discards the original
//! document boundaries: the answer keys are treated as one continuous set of
//! questions paged at twenty per round.

use vstd::prelude::*;
use crate::seqtools::{cell_views, clone_chars};

verus! {

/// Questions per page of the rebuilt grid.
pub open spec fn page_size() -> int {
    20
}

/// The (round number, codes) views of extracted pairs.
pub open spec fn pair_views(ps: Seq<(usize, Vec<char>)>) -> Seq<(usize, Seq<char>)> {
    Seq::new(ps.len(), |i: int| (ps[i].0, ps[i].1@))
}

/// A non-empty pair list's views are the views of its front followed by
/// the view of its last pair.
pub proof fn lemma_pair_views_snoc(v: Seq<(usize, Vec<char>)>)
    requires
        v.len() > 0,
    ensures
        pair_views(v) =~= pair_views(v.drop_last()).push((v.last().0, v.last().1@)),
{
    assert forall|w: int| 0 <= w < v.len() - 1 implies pair_views(v)[w] == pair_views(
        v.drop_last(),
    )[w] by {
        assert(v.drop_last()[w] == v[w]);
    }
}

/// Highest declared round number among the pairs.
pub open spec fn max_round(ps: Seq<(usize, Seq<char>)>) -> nat
    decreases ps.len(),
{
    if ps.len() == 0 {
        0
    } else {
        let m = max_round(ps.drop_last());
        if ps.last().0 as nat > m {
            ps.last().0 as nat
        } else {
            m
        }
    }
}

/// The codes declared for round `j + 1`: the last pair declaring that round
/// wins; a round no pair declares is empty.
pub open spec fn dense_at(ps: Seq<(usize, Seq<char>)>, j: int) -> Seq<char>
    decreases ps.len(),
{
    if ps.len() == 0 {
        Seq::empty()
    } else if ps.last().0 as int == j + 1 {
        ps.last().1
    } else {
        dense_at(ps.drop_last(), j)
    }
}

/// The dense, 0-indexed round list: position `j` holds the codes declared
/// for round `j + 1`, backfilled with an empty sequence for gaps.
pub open spec fn dense_rounds(ps: Seq<(usize, Seq<char>)>) -> Seq<Seq<char>> {
    Seq::new(max_round(ps), |j: int| dense_at(ps, j))
}

/// All rows joined into one flat sequence, in order.
pub open spec fn concat_all(rows: Seq<Seq<char>>) -> Seq<char>
    decreases rows.len(),
{
    if rows.len() == 0 {
        Seq::empty()
    } else {
        concat_all(rows.drop_last()) + rows.last()
    }
}

/// The flat sequence cut into pages of twenty, the last page possibly
/// shorter.
pub open spec fn spec_pages(s: Seq<char>) -> Seq<Seq<char>> {
    Seq::new(
        ((s.len() + page_size() - 1) / page_size()) as nat,
        |i: int|
            s.subrange(
                page_size() * i,
                if page_size() * i + page_size() <= s.len() {
                    page_size() * i + page_size()
                } else {
                    s.len() as int
                },
            ),
    )
}

/// The final lookup grid built from the extracted pairs.
pub open spec fn spec_grid(ps: Seq<(usize, Seq<char>)>) -> Seq<Seq<char>> {
    spec_pages(concat_all(dense_rounds(ps)))
}

/// Builds the round-by-question lookup grid from every document's declared
/// round number and extracted codes.
pub fn build_grid(pairs: &Vec<(usize, Vec<char>)>) -> (g: Vec<Vec<char>>)
    ensures
        cell_views(g@) == spec_grid(pair_views(pairs@)),
{
    let ghost pv = pair_views(pairs@);
    let mut maxr: usize = 0;
    for i in 0..pairs.len()
        invariant
            maxr as nat == max_round(pair_views(pairs@).take(i as int)),
    {
        proof {
            assert(pair_views(pairs@).take(i + 1).drop_last() =~= pair_views(pairs@).take(i as int));
        }
        if pairs[i].0 > maxr {
            maxr = pairs[i].0;
        }
    }
    proof {
        assert(pair_views(pairs@).take(pairs@.len() as int) =~= pv);
    }
    let ghost dr = dense_rounds(pv);
    let mut flat: Vec<char> = Vec::new();
    for j in 0..maxr
        invariant
            pv == pair_views(pairs@),
            dr == dense_rounds(pv),
            dr.len() == maxr,
            flat@ == concat_all(dr.take(j as int)),
    {
        let mut cell: Vec<char> = Vec::new();
        let mut found: bool = false;
        let mut k: usize = pairs.len();
        proof {
            assert(pv.take(pairs@.len() as int) =~= pv);
        }
        while k > 0 && !found
            invariant
                0 <= k <= pairs@.len(),
                j < maxr,
                pv == pair_views(pairs@),
                !found ==> dense_at(pv, j as int) == dense_at(pv.take(k as int), j as int),
                !found ==> cell@ == Seq::<char>::empty(),
                found ==> cell@ == dense_at(pv, j as int),
            decreases k,
        {
            k = k - 1;
            proof {
                assert(pv.take(k + 1).drop_last() =~= pv.take(k as int));
                assert(pv.take(k + 1).last() == pv[k as int]);
            }
            if pairs[k].0 == j + 1 {
                cell = clone_chars(&pairs[k].1);
                found = true;
            }
        }
        proof {
            if !found {
                assert(pv.take(0) =~= Seq::<(usize, Seq<char>)>::empty());
            }
            assert(cell@ == dense_at(pv, j as int));
            assert(dr[j as int] == dense_at(pv, j as int));
            assert(dr.take(j + 1).drop_last() =~= dr.take(j as int));
        }
        flat.append(&mut cell);
    }
    proof {
        assert(dr.take(maxr as int) =~= dr);
        assert(flat@ == concat_all(dense_rounds(pair_views(pairs@))));
    }
    let ghost pages = spec_pages(flat@);
    let total: usize = flat.len();
    let mut g: Vec<Vec<char>> = Vec::new();
    let mut start: usize = 0;
    while start < total
        invariant
            total == flat@.len(),
            pages == spec_pages(flat@),
            g@.len() <= pages.len(),
            g@.len() < pages.len() ==> start == page_size() * g@.len(),
            g@.len() == pages.len() ==> start == total,
            forall|q: int| 0 <= q < g@.len() ==> cell_views(g@)[q] == pages[q],
        decreases total - start,
    {
        proof {
            broadcast use vstd::arithmetic::div_mod::lemma_fundamental_div_mod;
            broadcast use vstd::arithmetic::div_mod::lemma_mod_bound;

            let d = (total + page_size() - 1) / page_size();
            assert(total + page_size() - 1 == page_size() * d + (total + page_size() - 1)
                % page_size());
            assert(0 <= (total + page_size() - 1) % page_size() < page_size());
            assert(g@.len() < pages.len());
        }
        let end: usize = if total - start >= 20 {
            start + 20
        } else {
            total
        };
        let mut page: Vec<char> = Vec::new();
        for t in start..end
            invariant
                total == flat@.len(),
                start <= t <= end <= total,
                page@ == flat@.subrange(start as int, t as int),
        {
            page.push(flat[t]);
            proof {
                assert(page@ =~= flat@.subrange(start as int, t + 1));
            }
        }
        proof {
            let i = g@.len() as int;
            assert(page@ == pages[i]);
        }
        g.push(page);
        proof {
            assert(forall|q: int|
                0 <= q < g@.len() ==> cell_views(g@)[q] == pages[q]);
            if g@.len() < pages.len() {
                broadcast use vstd::arithmetic::div_mod::lemma_fundamental_div_mod;
                broadcast use vstd::arithmetic::div_mod::lemma_mod_bound;

                let d = (total + page_size() - 1) / page_size();
                assert(total + page_size() - 1 == page_size() * d + (total + page_size() - 1)
                    % page_size());
            }
        }
        start = end;
    }
    proof {
        if g@.len() < pages.len() {
            broadcast use vstd::arithmetic::div_mod::lemma_fundamental_div_mod;
            broadcast use vstd::arithmetic::div_mod::lemma_mod_bound;

            let d = (total + page_size() - 1) / page_size();
            assert(total + page_size() - 1 == page_size() * d + (total + page_size() - 1)
                % page_size());
            assert(start < total);
        }
        assert(cell_views(g@) =~= pages);
    }
    g
}

} // verus!
