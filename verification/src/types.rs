//! The question-type categories: the closed set of eight recognized codes,
//! the default/general category, and the mapping from a code to its column in
//! the count matrices.

use vstd::prelude::*;
use crate::seqtools::{first_index, lemma_first_index};

verus! {

/// The eight recognized question-type codes, in ascending order.
pub open spec fn spec_question_types() -> Seq<char> {
    seq!['A', 'G', 'I', 'M', 'Q', 'R', 'S', 'X']
}

/// The default/general category: what an unrecognized code falls back to and
/// what the end-of-round question position is always counted under.
pub open spec fn spec_default_type() -> char {
    'G'
}

pub fn default_question_type() -> (c: char)
    ensures
        c == spec_default_type(),
{
    'G'
}

/// The eight recognized question-type codes, in ascending order.
pub fn get_question_types() -> (r: Vec<char>)
    ensures
        r@ == spec_question_types(),
{
    let mut v: Vec<char> = Vec::new();
    v.push('A');
    v.push('G');
    v.push('I');
    v.push('M');
    v.push('Q');
    v.push('R');
    v.push('S');
    v.push('X');
    proof {
        assert(v@ =~= spec_question_types());
    }
    v
}

/// The column a code occupies among the selected types: the position of its
/// first occurrence, and column 0 as the defined fallback for a code that is
/// not selected.
pub open spec fn spec_type_col(types: Seq<char>, c: char) -> int {
    if types.contains(c) {
        first_index(types, c)
    } else {
        0
    }
}

/// Resolves a code to its matrix column among `types`; a code not among them
/// falls back to column 0.
pub fn type_col(types: &Vec<char>, c: char) -> (i: usize)
    ensures
        i as int == spec_type_col(types@, c),
        types@.len() > 0 ==> (i as int) < types@.len(),
{
    proof {
        lemma_first_index(types@, c);
    }
    for j in 0..types.len()
        invariant
            forall|k: int| 0 <= k < j ==> types@[k] != c,
    {
        if types[j] == c {
            proof {
                lemma_first_index(types@, c);
                assert(types@.contains(c));
                let f = first_index(types@, c);
                assert(types@[f] == c);
                assert(f == j as int) by {
                    if f < j as int {
                        assert(types@[f] != c);
                    }
                    if f > j as int {
                        assert(types@[j as int] != c);
                    }
                }
            }
            return j;
        }
    }
    proof {
        if types@.contains(c) {
            let w = choose|w: int| 0 <= w < types@.len() && types@[w] == c;
            assert(types@[w] != c);
        }
    }
    0
}

/// Inserts `c` into an ascending list of codes, keeping the list ascending
/// and without duplicates.
pub open spec fn spec_insert_type(s: Seq<char>, c: char) -> Seq<char>
    decreases s.len(),
{
    if s.len() == 0 {
        seq![c]
    } else if s[0] == c {
        s
    } else if (s[0] as u32) < (c as u32) {
        seq![s[0]] + spec_insert_type(s.drop_first(), c)
    } else {
        seq![c] + s
    }
}

/// The requested codes, sorted ascending with duplicates dropped.
pub open spec fn spec_sorted_types(ts: Seq<char>) -> Seq<char>
    decreases ts.len(),
{
    if ts.len() == 0 {
        Seq::empty()
    } else {
        spec_insert_type(spec_sorted_types(ts.drop_last()), ts.last())
    }
}

/// The selection the matrices and the report columns use: the requested codes
/// sorted ascending without duplicates, or the full recognized set when no
/// code was requested.
pub open spec fn spec_selected_types(ts: Seq<char>) -> Seq<char> {
    if ts.len() == 0 {
        spec_question_types()
    } else {
        spec_sorted_types(ts)
    }
}

proof fn lemma_insert_type_at(s: Seq<char>, c: char, k: int)
    requires
        0 <= k <= s.len(),
        forall|j: int| 0 <= j < k ==> (s[j] as u32) < (c as u32),
        k < s.len() ==> (s[k] as u32) >= (c as u32),
    ensures
        spec_insert_type(s, c) == if k < s.len() && s[k] == c {
            s
        } else {
            s.take(k) + seq![c] + s.skip(k)
        },
    decreases k,
{
    if k == 0 {
        if s.len() == 0 {
            assert(spec_insert_type(s, c) =~= s.take(0) + seq![c] + s.skip(0));
        } else if s[0] == c {
        } else {
            assert(!((s[0] as u32) < (c as u32)));
            assert(spec_insert_type(s, c) =~= s.take(0) + seq![c] + s.skip(0));
        }
    } else {
        let t = s.drop_first();
        assert((s[0] as u32) < (c as u32));
        assert(s[0] != c) by {
            if s[0] == c {
                assert((s[0] as u32) == (c as u32));
            }
        }
        assert(forall|j: int| 0 <= j < k - 1 ==> (#[trigger] t[j] as u32) < (c as u32));
        lemma_insert_type_at(t, c, k - 1);
        if k < s.len() && s[k] == c {
            assert(t[k - 1] == c);
            assert(spec_insert_type(s, c) =~= s);
        } else {
            assert(spec_insert_type(s, c) == seq![s[0]] + (t.take(k - 1) + seq![c] + t.skip(k - 1)));
            assert(seq![s[0]] + (t.take(k - 1) + seq![c] + t.skip(k - 1)) =~= s.take(k) + seq![c]
                + s.skip(k));
        }
    }
}

/// Inserts one code into an already-sorted selection.
fn insert_type(s: &Vec<char>, c: char) -> (r: Vec<char>)
    ensures
        r@ == spec_insert_type(s@, c),
{
    let mut out: Vec<char> = Vec::new();
    let mut i: usize = 0;
    while i < s.len() && (s[i] as u32) < (c as u32)
        invariant
            0 <= i <= s@.len(),
            forall|j: int| 0 <= j < i ==> (#[trigger] s@[j] as u32) < (c as u32),
            out@ == s@.take(i as int),
        decreases s@.len() - i,
    {
        out.push(s[i]);
        proof {
            assert(out@ =~= s@.take(i + 1));
        }
        i = i + 1;
    }
    proof {
        lemma_insert_type_at(s@, c, i as int);
    }
    if i < s.len() && s[i] == c {
        return crate::seqtools::clone_chars(s);
    }
    out.push(c);
    let ghost mid = out@;
    let mut j: usize = i;
    while j < s.len()
        invariant
            i <= j <= s@.len(),
            mid == s@.take(i as int) + seq![c],
            out@ == mid + s@.subrange(i as int, j as int),
        decreases s@.len() - j,
    {
        out.push(s[j]);
        proof {
            assert(out@ =~= mid + s@.subrange(i as int, j + 1));
        }
        j = j + 1;
    }
    proof {
        assert(out@ =~= s@.take(i as int) + seq![c] + s@.skip(i as int));
    }
    out
}

/// Sorts the requested codes ascending, dropping duplicates; with no request
/// the full recognized set is selected.
pub fn select_types(ts: &Vec<char>) -> (r: Vec<char>)
    ensures
        r@ == spec_selected_types(ts@),
{
    if ts.len() == 0 {
        return get_question_types();
    }
    let mut acc: Vec<char> = Vec::new();
    for i in 0..ts.len()
        invariant
            acc@ == spec_sorted_types(ts@.take(i as int)),
    {
        acc = insert_type(&acc, ts[i]);
        proof {
            assert(ts@.take(i + 1).drop_last() =~= ts@.take(i as int));
            assert(ts@.take(i + 1).last() == ts@[i as int]);
        }
    }
    proof {
        assert(ts@.take(ts@.len() as int) =~= ts@);
    }
    acc
}

} // verus!
