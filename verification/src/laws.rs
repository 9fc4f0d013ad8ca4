//! Laws of the cursor operations, stated over the spec functions that the
//! operations' own contracts use and proved once for all texts, positions
//! and patterns.

use vstd::prelude::*;

verus! {

use vstd::utf8::{valid_utf8, is_char_boundary, decode_utf8, pop_first_scalar, valid_utf8_split};
use crate::pattern::{Pattern, first_match_in, lemma_first_match_props};
use crate::scan::{advance_chars, next_boundary, lemma_scalar_span};
use crate::slicer::{until_pos, until_result, until_after_pos, until_after_result, to_end_result};
use crate::slicer::Tracker;
use crate::trackers::{LineTracker, newline_count, lemma_line_track, lemma_newline_count_split};

/// Slicing to the end consumes the tail exactly once: from a position before
/// the end it returns the whole remaining text and lands on the end, where a
/// second slice returns nothing.
pub proof fn law_slice_to_end_idempotent(s: Seq<u8>, p: int)
    requires
        0 <= p <= s.len(),
    ensures
        p < s.len() ==> to_end_result(s, p) == Some(s.subrange(p, s.len() as int)),
        p == s.len() ==> to_end_result(s, p) is None,
        to_end_result(s, s.len() as int) is None,
{
}

/// When a pattern occurs in the remaining text, slicing until it consumes
/// exactly the prefix before its first occurrence, and the pattern is next
/// afterwards.
pub proof fn law_slice_until_first_occurrence<P: Pattern>(pat: P, s: Seq<u8>, p: int, k: int)
    requires
        0 <= p <= k < s.len(),
        pat.match_at(s, k),
    ensures
        ({
            let m = until_pos(pat, s, p);
            &&& p <= m <= k
            &&& pat.match_at(s, m)
            &&& (forall|j: int| p <= j < m ==> !pat.match_at(s, j))
            &&& until_result(pat, s, p) == Some(s.subrange(p, m))
        }),
{
    lemma_first_match_props(pat, s, p);
    let m = first_match_in(pat, s, p);
    if m > k {
        assert(!pat.match_at(s, k));
    }
}

/// Slicing until-and-over a pattern that occurs in the remaining text yields
/// a substring exactly the pattern's skip length longer than slicing until
/// it, and leaves the cursor immediately past the matched occurrence.
pub proof fn law_slice_until_after_extends<P: Pattern>(pat: P, s: Seq<u8>, p: int, k: int)
    requires
        valid_utf8(s),
        0 <= p <= k < s.len(),
        pat.match_at(s, k),
    ensures
        ({
            let m = until_pos(pat, s, p);
            let e = until_after_pos(pat, s, p);
            &&& e == m + pat.skip_len(s, m)
            &&& m <= e <= s.len()
            &&& until_result(pat, s, p) == Some(s.subrange(p, m))
            &&& until_after_result(pat, s, p) == Some(s.subrange(p, e))
            &&& s.subrange(p, e).len() == s.subrange(p, m).len() + pat.skip_len(s, m)
        }),
{
    law_slice_until_first_occurrence(pat, s, p, k);
    let m = until_pos(pat, s, p);
    pat.lemma_match(s, m);
    pat.lemma_skip(s, m);
}

/// A consistent line tracker recomputes itself correctly for forward and
/// backward moves alike: after observing any move, its derived position is
/// again the number of newlines before the new offset.
pub proof fn law_line_tracker_recomputes(t: LineTracker, s: Seq<u8>, o: int, n: int)
    requires
        0 <= o <= s.len(),
        0 <= n <= s.len(),
        o <= usize::MAX,
        n <= usize::MAX,
        t.inv(s, o),
    ensures
        t.track(s, o, n).inv(s, n),
        t.track(s, o, n).spec_pos() as int == newline_count(s, 0, n),
{
    lemma_line_track(t, s, o, n);
    if n > o {
        lemma_newline_count_split(s, 0, o, n);
    } else if n < o {
        lemma_newline_count_split(s, 0, n, o);
    }
}

/// Character-count movement never passes the end of the text and never
/// splits a character; when fewer than `n` characters remain, it stops
/// exactly at the end of the text.
pub proof fn law_advance_chars_in_bounds(s: Seq<u8>, p: int, n: nat)
    requires
        valid_utf8(s),
        is_char_boundary(s, p),
        0 <= p <= s.len(),
    ensures
        p <= advance_chars(s, p, n) <= s.len(),
        is_char_boundary(s, advance_chars(s, p, n)),
        n >= decode_utf8(s.subrange(p, s.len() as int)).len() ==> advance_chars(s, p, n)
            == s.len(),
    decreases n,
{
    let tail = s.subrange(p, s.len() as int);
    valid_utf8_split(s, p);
    if p < s.len() {
        assert(decode_utf8(tail).len() >= 1);
    } else {
        assert(tail =~= Seq::<u8>::empty());
    }
    if n > 0 && p < s.len() {
        lemma_scalar_span(s, p);
        let q = next_boundary(s, p);
        assert(pop_first_scalar(tail) =~= s.subrange(q, s.len() as int));
        assert(decode_utf8(tail).len() == 1 + decode_utf8(s.subrange(q, s.len() as int)).len());
        law_advance_chars_in_bounds(s, q, (n - 1) as nat);
    }
}

} // verus!
