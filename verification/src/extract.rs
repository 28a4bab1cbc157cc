//! The answer-key extractor: reads one answer-key document's text into the
//! ordered sequence of question-type codes it carries, and recovers the
//! document's declared round number from its `SET #` marker.
//!
//! The document is segmented at tab characters. Even-indexed segments are the
//! candidate question cells; a cell of two or more characters contributes its
//! second-to-last character as that question's type code, shorter cells carry
//! no code and are skipped.

use vstd::prelude::*;
use crate::QuizError;
use crate::numbers::{all_digits, dec_val, is_digit_char, spec_parse_u64, parse_u64_chars};
use crate::seqtools::{cell_views, chars_of};

verus! {

/// The segments of a document, split at every tab character: one more
/// segment than there are tabs, in document order.
pub open spec fn spec_cells(s: Seq<char>) -> Seq<Seq<char>>
    decreases s.len(),
{
    if s.len() == 0 {
        seq![Seq::<char>::empty()]
    } else {
        let rest = spec_cells(s.drop_last());
        if s.last() == '\t' {
            rest.push(Seq::<char>::empty())
        } else {
            rest.update(rest.len() - 1, rest.last().push(s.last()))
        }
    }
}

/// The codes carried by a segment list: each even-indexed segment of length
/// two or more contributes its second-to-last character, in order.
pub open spec fn spec_codes(cells: Seq<Seq<char>>) -> Seq<char>
    decreases cells.len(),
{
    if cells.len() == 0 {
        Seq::empty()
    } else {
        let rest = spec_codes(cells.drop_last());
        let c = cells.last();
        if (cells.len() - 1) % 2 == 0 && c.len() >= 2 {
            rest.push(c[c.len() - 2])
        } else {
            rest
        }
    }
}

/// The ordered question-type codes of one document's text.
pub open spec fn spec_extract_types(s: Seq<char>) -> Seq<char> {
    spec_codes(spec_cells(s))
}

/// Reads one document's text into its ordered question-type codes.
pub fn extract_types(text: &str) -> (r: Vec<char>)
    ensures
        r@ == spec_extract_types(text@),
{
    let cs = chars_of(text);
    let n: usize = cs.len();
    let mut done: Vec<Vec<char>> = Vec::new();
    let mut cur: Vec<char> = Vec::new();
    for i in 0..n
        invariant
            n == cs@.len(),
            cs@ == text@,
            cell_views(done@).push(cur@) == spec_cells(text@.take(i as int)),
    {
        let c = cs[i];
        proof {
            assert(text@.take(i + 1).drop_last() =~= text@.take(i as int));
            assert(text@.take(i + 1).last() == text@[i as int]);
        }
        if c == '\t' {
            done.push(cur);
            cur = Vec::new();
            proof {
                assert(cell_views(done@).push(cur@) =~= spec_cells(text@.take(i as int)).push(
                    Seq::<char>::empty(),
                ));
            }
        } else {
            cur.push(c);
            proof {
                let rest = spec_cells(text@.take(i as int));
                assert(cell_views(done@).push(cur@) =~= rest.update(
                    rest.len() - 1,
                    rest.last().push(c),
                ));
            }
        }
    }
    done.push(cur);
    proof {
        assert(text@.take(n as int) =~= text@);
        assert(cell_views(done@) =~= spec_cells(text@));
    }
    let mut codes: Vec<char> = Vec::new();
    let k: usize = done.len();
    for i in 0..k
        invariant
            k == done@.len(),
            cell_views(done@) == spec_cells(text@),
            codes@ == spec_codes(cell_views(done@).take(i as int)),
    {
        proof {
            assert(cell_views(done@).take(i + 1).drop_last() =~= cell_views(done@).take(i as int));
            assert(cell_views(done@).take(i + 1).last() == done@[i as int]@);
        }
        let cell = &done[i];
        if i % 2 == 0 && cell.len() >= 2 {
            codes.push(cell[cell.len() - 2]);
        }
    }
    proof {
        assert(cell_views(done@).take(k as int) =~= cell_views(done@));
    }
    codes
}

/// True when the round marker `SET #` starts at position `i` of the text.
pub open spec fn marker_at(s: Seq<char>, i: int) -> bool {
    &&& 0 <= i
    &&& i + 5 <= s.len()
    &&& s[i] == 'S'
    &&& s[i + 1] == 'E'
    &&& s[i + 2] == 'T'
    &&& s[i + 3] == ' '
    &&& s[i + 4] == '#'
}

/// Position of the first round marker at or after `i`, if any.
pub open spec fn first_marker_from(s: Seq<char>, i: int) -> Option<int>
    decreases s.len() - i,
{
    if i + 5 > s.len() {
        None
    } else if marker_at(s, i) {
        Some(i)
    } else {
        first_marker_from(s, i + 1)
    }
}

/// End of the run of digit characters that starts at `i`.
pub open spec fn digit_end(s: Seq<char>, i: int) -> int
    decreases s.len() - i,
{
    if 0 <= i < s.len() && is_digit_char(s[i]) {
        digit_end(s, i + 1)
    } else {
        i
    }
}

/// The declared round number of a document: the digits right after the first
/// `SET #` marker. A text without the marker is missing its round number; an
/// empty digit run, a zero, or a value too large for an index is invalid.
pub open spec fn spec_round_of(s: Seq<char>) -> Result<usize, QuizError> {
    match first_marker_from(s, 0) {
        None => Err(QuizError::MissingRoundNumber),
        Some(m) => {
            let e = digit_end(s, m + 5);
            let ds = s.subrange(m + 5, e);
            if ds.len() == 0 || dec_val(ds) < 1 || dec_val(ds) > usize::MAX {
                Err(QuizError::InvalidRoundNumber)
            } else {
                Ok(dec_val(ds) as usize)
            }
        },
    }
}

/// Recovers the declared round number from one document's text.
pub fn extract_round(text: &str) -> (r: Result<usize, QuizError>)
    ensures
        r == spec_round_of(text@),
{
    let cs = chars_of(text);
    let n: usize = cs.len();
    let mut m: usize = 0;
    while n >= 5 && m <= n - 5
        invariant
            n == cs@.len(),
            cs@ == text@,
            0 <= m <= n,
            first_marker_from(text@, 0) == first_marker_from(text@, m as int),
        decreases n - m,
    {
        if cs[m] == 'S' && cs[m + 1] == 'E' && cs[m + 2] == 'T' && cs[m + 3] == ' ' && cs[m + 4]
            == '#' {
            proof {
                assert(marker_at(text@, m as int));
                assert(first_marker_from(text@, m as int) == Some(m as int));
            }
            let start: usize = m + 5;
            let mut j: usize = start;
            let mut buf: Vec<char> = Vec::new();
            while j < n && 48 <= cs[j] as u32 && cs[j] as u32 <= 57
                invariant
                    n == cs@.len(),
                    cs@ == text@,
                    start <= j <= n,
                    digit_end(text@, start as int) == digit_end(text@, j as int),
                    buf@ == text@.subrange(start as int, j as int),
                    all_digits(buf@),
                decreases n - j,
            {
                buf.push(cs[j]);
                proof {
                    assert(is_digit_char(text@[j as int]));
                    assert(buf@ =~= text@.subrange(start as int, j + 1));
                }
                j = j + 1;
            }
            proof {
                assert(digit_end(text@, j as int) == j as int);
                assert(buf@ == text@.subrange(start as int, digit_end(text@, start as int)));
            }
            if buf.len() == 0 {
                return Err(QuizError::InvalidRoundNumber);
            }
            match parse_u64_chars(&buf) {
                None => {
                    proof {
                        assert(dec_val(buf@) > u64::MAX);
                        assert(usize::MAX <= u64::MAX);
                    }
                    return Err(QuizError::InvalidRoundNumber);
                },
                Some(v) => {
                    proof {
                        crate::numbers::lemma_dec_val_nonneg(buf@);
                        assert(v as int == dec_val(buf@));
                    }
                    if v == 0 {
                        return Err(QuizError::InvalidRoundNumber);
                    }
                    if v > usize::MAX as u64 {
                        return Err(QuizError::InvalidRoundNumber);
                    }
                    return Ok(v as usize);
                },
            }
        }
        proof {
            assert(!marker_at(text@, m as int));
        }
        m = m + 1;
    }
    proof {
        assert(first_marker_from(text@, m as int) is None);
    }
    Err(QuizError::MissingRoundNumber)
}

} // verus!
