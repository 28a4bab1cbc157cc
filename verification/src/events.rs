//! The event log's row layout and the event filter: of all parsed rows only
//! those whose event-code field is one of the four counted scoring codes are
//! kept, optionally further restricted to one tournament, in their original
//! relative order.

use vstd::prelude::*;
use vstd::string::StrSliceExecFns;
use vstd::string::StringExecFns;
use crate::numbers::spec_field_u64;
use crate::seqtools::{clone_strings, row_views, string_views};

verus! {

/// Column of the 1-indexed round number.
pub const ROUND_COL: usize = 0;

/// Column of the 1-indexed question number.
pub const QUESTION_COL: usize = 1;

/// Column of the quizzer's name.
pub const QUIZZER_COL: usize = 2;

/// Column of the team number.
pub const TEAM_COL: usize = 3;

/// Column of the event code.
pub const CODE_COL: usize = 4;

/// Column of the tournament name, when present.
pub const TOURN_COL: usize = 5;

/// A row's field at column `c`; a missing column reads as empty.
pub open spec fn row_field(row: Seq<Seq<char>>, c: int) -> Seq<char> {
    if 0 <= c < row.len() {
        row[c]
    } else {
        Seq::empty()
    }
}

/// The quizzer name a row carries.
pub open spec fn spec_name_of(row: Seq<Seq<char>>) -> Seq<char> {
    row_field(row, QUIZZER_COL as int)
}

/// The team number a row carries; an unparseable team defaults to 0.
pub open spec fn spec_team_of(row: Seq<Seq<char>>) -> u64 {
    spec_field_u64(row_field(row, TEAM_COL as int))
}

/// The four event codes the report counts: tossup correct and error, bonus
/// correct and error.
pub open spec fn is_counted_code(c: Seq<char>) -> bool {
    c == "TC"@ || c == "TE"@ || c == "BC"@ || c == "BE"@
}

/// Whether one row passes the filter: it has an event-code column holding
/// one of the four counted codes, and, when a tournament name is given, a
/// tournament column that matches it exactly.
pub open spec fn spec_keep(row: Seq<Seq<char>>, tourn: Seq<char>) -> bool {
    &&& row.len() > CODE_COL
    &&& is_counted_code(row[CODE_COL as int])
    &&& (tourn.len() == 0 || (row.len() > TOURN_COL && row[TOURN_COL as int] == tourn))
}

/// The rows that pass the filter, original order preserved.
pub open spec fn spec_filter(rows: Seq<Seq<Seq<char>>>, tourn: Seq<char>) -> Seq<Seq<Seq<char>>>
    decreases rows.len(),
{
    if rows.len() == 0 {
        Seq::empty()
    } else {
        let rest = spec_filter(rows.drop_last(), tourn);
        if spec_keep(rows.last(), tourn) {
            rest.push(rows.last())
        } else {
            rest
        }
    }
}

/// Compares a field with a literal code.
pub fn code_eq(a: &String, lit: &str) -> (r: bool)
    ensures
        r == (a@ == lit@),
{
    let b = String::from_str(lit);
    *a == b
}

/// Decides whether one row passes the filter.
pub fn row_passes(row: &Vec<String>, tourn: &String) -> (r: bool)
    ensures
        r == spec_keep(string_views(row@), tourn@),
{
    if row.len() <= CODE_COL {
        return false;
    }
    let code = &row[CODE_COL];
    let counted = code_eq(code, "TC") || code_eq(code, "TE") || code_eq(
        code,
        "BC",
    ) || code_eq(code, "BE");
    if !counted {
        return false;
    }
    if tourn.as_str().is_empty() {
        return true;
    }
    if row.len() <= TOURN_COL {
        return false;
    }
    row[TOURN_COL] == *tourn
}

/// Keeps the rows whose event code is one of the four counted scoring codes
/// and, when a tournament name is given, whose tournament field matches it.
pub fn filter_events(rows: &Vec<Vec<String>>, tourn: &String) -> (r: Vec<Vec<String>>)
    ensures
        row_views(r@) == spec_filter(row_views(rows@), tourn@),
{
    let mut out: Vec<Vec<String>> = Vec::new();
    for i in 0..rows.len()
        invariant
            row_views(out@) == spec_filter(row_views(rows@).take(i as int), tourn@),
    {
        proof {
            assert(row_views(rows@).take(i + 1).drop_last() =~= row_views(rows@).take(i as int));
            assert(row_views(rows@).take(i + 1).last() == string_views(rows@[i as int]@));
        }
        if row_passes(&rows[i], tourn) {
            out.push(clone_strings(&rows[i]));
            proof {
                assert(row_views(out@) =~= spec_filter(
                    row_views(rows@).take(i as int),
                    tourn@,
                ).push(string_views(rows@[i as int]@)));
            }
        }
    }
    proof {
        assert(row_views(rows@).take(rows@.len() as int) =~= row_views(rows@));
    }
    out
}

} // verus!
