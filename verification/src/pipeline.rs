//! The whole run after input reading: extract every document, build the
//! grid, filter the event rows, derive the quizzer ordering, aggregate the
//! counts, and render the report. Callers hand in the documents' texts and
//! the tokenized event rows; reading files and splitting delimited text stay
//! outside.

use vstd::prelude::*;
use vstd::string::StringExecFns;
use crate::QuizError;
use crate::aggregate::{aggregate, spec_aggregate};
use crate::events::{filter_events, spec_filter};
use crate::extract::{extract_round, extract_types, spec_extract_types, spec_round_of};
use crate::grid::{build_grid, lemma_pair_views_snoc, pair_views, spec_grid};
use crate::quizzers::{quizzer_names, spec_quizzers};
use crate::report::{render_report, spec_report};
use crate::seqtools::{row_views, string_views};
use crate::types::{select_types, spec_selected_types};

verus! {

/// The (round, codes) pair of each document in order; the first document
/// whose round marker is missing or invalid fails the whole run.
pub open spec fn spec_pairs(docs: Seq<Seq<char>>) -> Result<Seq<(usize, Seq<char>)>, QuizError>
    decreases docs.len(),
{
    if docs.len() == 0 {
        Ok(Seq::empty())
    } else {
        match spec_pairs(docs.drop_last()) {
            Err(e) => Err(e),
            Ok(ps) => match spec_round_of(docs.last()) {
                Err(e) => Err(e),
                Ok(r) => Ok(ps.push((r, spec_extract_types(docs.last())))),
            },
        }
    }
}

/// What the whole run returns: the warnings and the rendered report, or the
/// first document error.
pub open spec fn spec_run(
    docs: Seq<Seq<char>>,
    rows: Seq<Seq<Seq<char>>>,
    types: Seq<char>,
    tourn: Seq<char>,
    show_round: bool,
) -> Result<(Seq<Seq<char>>, Seq<char>), QuizError> {
    match spec_pairs(docs) {
        Err(e) => Err(e),
        Ok(ps) => {
            let grid = spec_grid(ps);
            let kept = spec_filter(rows, tourn);
            let names = spec_quizzers(kept);
            let selected = spec_selected_types(types);
            let t = spec_aggregate(kept, grid, names, selected);
            Ok((t.warnings, spec_report(names, t, selected, show_round)))
        },
    }
}

/// An error in an early document decides the whole pair list.
proof fn lemma_pairs_error_persists(docs: Seq<Seq<char>>, i: int, e: QuizError)
    requires
        0 <= i <= docs.len(),
        spec_pairs(docs.take(i)) == Err::<Seq<(usize, Seq<char>)>, QuizError>(e),
    ensures
        spec_pairs(docs) == Err::<Seq<(usize, Seq<char>)>, QuizError>(e),
    decreases docs.len() - i,
{
    if i < docs.len() {
        assert(docs.take(i + 1).drop_last() =~= docs.take(i));
        lemma_pairs_error_persists(docs, i + 1, e);
    } else {
        assert(docs.take(i) =~= docs);
    }
}

/// Runs the whole analysis on the documents' texts and the tokenized event
/// rows: the type grid from the answer keys, the filtered rows, the quizzer
/// ordering, the four count matrices, and the rendered report. Returns the
/// warnings (one per skipped row) and the report, or the first document's
/// round-marker error.
pub fn qperf(
    docs: &Vec<String>,
    rows: &Vec<Vec<String>>,
    types: &Vec<char>,
    tourn: &String,
    show_round: bool,
) -> (r: Result<(Vec<String>, String), QuizError>)
    ensures
        match r {
            Ok(p) => spec_run(string_views(docs@), row_views(rows@), types@, tourn@, show_round)
                == Ok::<(Seq<Seq<char>>, Seq<char>), QuizError>((string_views(p.0@), p.1@)),
            Err(e) => spec_run(string_views(docs@), row_views(rows@), types@, tourn@, show_round)
                == Err::<(Seq<Seq<char>>, Seq<char>), QuizError>(e),
        },
{
    let ghost dv = string_views(docs@);
    let mut pairs: Vec<(usize, Vec<char>)> = Vec::new();
    proof {
        assert(dv.take(0) =~= Seq::<Seq<char>>::empty());
        assert(pair_views(pairs@) =~= Seq::<(usize, Seq<char>)>::empty());
    }
    for i in 0..docs.len()
        invariant
            dv == string_views(docs@),
            spec_pairs(dv.take(i as int)) == Ok::<Seq<(usize, Seq<char>)>, QuizError>(
                pair_views(pairs@),
            ),
    {
        proof {
            assert(dv.take(i + 1).drop_last() =~= dv.take(i as int));
            assert(dv.take(i + 1).last() == docs@[i as int]@);
        }
        match extract_round(docs[i].as_str()) {
            Err(e) => {
                proof {
                    lemma_pairs_error_persists(dv, i + 1, e);
                }
                return Err(e);
            },
            Ok(rnum) => {
                let codes = extract_types(docs[i].as_str());
                let ghost prev = pairs@;
                pairs.push((rnum, codes));
                proof {
                    assert(pairs@.drop_last() =~= prev);
                    lemma_pair_views_snoc(pairs@);
                    assert(pair_views(pairs@) =~= pair_views(prev).push(
                        (rnum, spec_extract_types(docs@[i as int]@)),
                    ));
                }
            },
        }
    }
    proof {
        assert(dv.take(docs@.len() as int) =~= dv);
    }
    let grid = build_grid(&pairs);
    let kept = filter_events(rows, tourn);
    let names = quizzer_names(&kept);
    let selected = select_types(types);
    let t = aggregate(&kept, &grid, &names, &selected);
    let rep = render_report(&names, &t, &selected, show_round);
    let warnings = t.warnings;
    Ok((warnings, rep))
}

} // verus!
