//! Trackers that derive auxiliary position information from cursor moves.

use vstd::prelude::*;

verus! {

use vstd::string::StringSliceAdditionalSpecFns;
use crate::slicer::Tracker;

/// The number of newline bytes of `s` in the half-open range `[a, b)`.
pub open spec fn newline_count(s: Seq<u8>, a: int, b: int) -> int
    decreases b - a, when a <= b
{
    if b <= a {
        0
    } else {
        newline_count(s, a, b - 1) + if s[b - 1] == 0x0Au8 {
            1int
        } else {
            0int
        }
    }
}

/// The byte offset of the last newline of `s` in `[a, b)`, or `-1` when the
/// range holds none.
pub open spec fn last_newline_in(s: Seq<u8>, a: int, b: int) -> int
    decreases b - a, when a <= b
{
    if b <= a {
        -1
    } else if s[b - 1] == 0x0Au8 {
        b - 1
    } else {
        last_newline_in(s, a, b - 1)
    }
}

/// Newline counts over adjacent ranges add up.
pub proof fn lemma_newline_count_split(s: Seq<u8>, a: int, m: int, b: int)
    requires
        a <= m <= b,
    ensures
        newline_count(s, a, b) == newline_count(s, a, m) + newline_count(s, m, b),
    decreases b - m,
{
    if m < b {
        lemma_newline_count_split(s, a, m, b - 1);
    }
}

/// The last newline of a range, when there is one, lies inside the range.
pub proof fn lemma_last_newline_bounds(s: Seq<u8>, a: int, b: int)
    requires
        0 <= a <= b,
    ensures
        last_newline_in(s, a, b) == -1 || a <= last_newline_in(s, a, b) < b,
    decreases b - a,
{
    if a < b && !(s[b - 1] == 0x0Au8) {
        lemma_last_newline_bounds(s, a, b - 1);
    }
}

/// A newline count is never negative and never exceeds the range's width.
pub proof fn lemma_newline_count_bounds(s: Seq<u8>, a: int, b: int)
    requires
        a <= b,
    ensures
        0 <= newline_count(s, a, b) <= b - a,
    decreases b - a,
{
    if a < b {
        lemma_newline_count_bounds(s, a, b - 1);
    }
}

/// The line tracker's transition on an observed move from `o` to `n` over
/// the text bytes `s`, as a pair of the new line count and the new recorded
/// line-start offset.
///
/// Forward moves add the newlines of `[o, n)`. Backward moves either recount
/// from the start of the text (when more than half the distance back to the
/// start is undone) or subtract the newlines of `[n, o)`. In every case the
/// recorded line-start offset becomes the last newline seen in the scanned
/// range, and keeps its old value when that range holds none — a known
/// limitation of the backward paths, which do not look outside the range
/// they scan.
pub open spec fn line_track(lines: int, line_byte_pos: int, s: Seq<u8>, o: int, n: int) -> (
    int,
    int,
) {
    if n > o {
        let c = newline_count(s, o, n);
        let w = last_newline_in(s, o, n);
        (
            lines + c,
            if w >= 0 {
                w
            } else {
                line_byte_pos
            },
        )
    } else if n < o {
        if o - n > o / 2 {
            let c = newline_count(s, 0, n);
            let w = last_newline_in(s, 0, n);
            (
                c,
                if w >= 0 {
                    w
                } else {
                    line_byte_pos
                },
            )
        } else {
            let c = newline_count(s, n, o);
            let w = last_newline_in(s, n, o);
            (
                lines - c,
                if w >= 0 {
                    w
                } else {
                    line_byte_pos
                },
            )
        }
    } else {
        (lines, line_byte_pos)
    }
}

/// A [`Tracker`] that derives the line number of the cursor's position: the
/// count of newline characters before it in the text.
#[derive(Debug, Clone)]
pub struct LineTracker {
    lines: usize,
    line_byte_pos: usize,
}

/// Counts the newlines of `h` in `[lo, hi)` and finds the offset of the last
/// one, when the range holds any.
fn scan_newlines(h: &[u8], lo: usize, hi: usize) -> (r: (usize, Option<usize>))
    requires
        lo <= hi <= h@.len(),
    ensures
        r.0 as int == newline_count(h@, lo as int, hi as int),
        (match r.1 {
            Some(w) => w as int == last_newline_in(h@, lo as int, hi as int),
            None => last_newline_in(h@, lo as int, hi as int) == -1,
        }),
{
    let mut count: usize = 0;
    let mut last: Option<usize> = None;
    let mut i = lo;
    while i < hi
        invariant
            lo <= i <= hi <= h@.len(),
            count as int == newline_count(h@, lo as int, i as int),
            count as int <= i - lo,
            (match last {
                Some(w) => w as int == last_newline_in(h@, lo as int, i as int),
                None => last_newline_in(h@, lo as int, i as int) == -1,
            }),
        decreases hi - i,
    {
        if h[i] == 0x0A {
            count += 1;
            last = Some(i);
        }
        i += 1;
    }
    (count, last)
}

impl LineTracker {
    /// The tracked line count.
    pub closed spec fn spec_lines(&self) -> usize {
        self.lines
    }

    /// The tracked byte offset of the newline that opened the current line.
    pub closed spec fn spec_line_byte_pos(&self) -> usize {
        self.line_byte_pos
    }

    /// A fresh tracker, consistent with the start of any text.
    pub fn new() -> (r: Self)
        ensures
            r.spec_lines() == 0,
            r.spec_line_byte_pos() == 0,
            forall|s: Seq<u8>| #[trigger] r.inv(s, 0),
    {
        let r = LineTracker { lines: 0, line_byte_pos: 0 };
        proof {
            assert forall|s: Seq<u8>| #[trigger] r.inv(s, 0) by {
                assert(newline_count(s, 0, 0) == 0);
            }
        }
        r
    }

    /// The line number: the count of newlines before the observed position.
    /// The same value as this type's [`Tracker::pos`].
    #[inline]
    pub fn lines(&self) -> (r: usize)
        ensures
            r == self.spec_lines(),
    {
        self.lines
    }

    /// The recorded byte offset of the newline that opened the current line;
    /// zero before any newline has been scanned, and possibly stale after a
    /// backward move whose scanned range held no newline.
    #[inline]
    pub fn line_byte_pos(&self) -> (r: usize)
        ensures
            r == self.spec_line_byte_pos(),
    {
        self.line_byte_pos
    }
}

impl Default for LineTracker {
    /// The same tracker as [`LineTracker::new`].
    fn default() -> (r: Self)
        ensures
            r.spec_lines() == 0,
            r.spec_line_byte_pos() == 0,
            forall|s: Seq<u8>| #[trigger] r.inv(s, 0),
    {
        Self::new()
    }
}

impl Tracker for LineTracker {
    type Pos = usize;

    /// Consistency: the tracked line count is the number of newlines before
    /// the observed position.
    open spec fn inv(&self, s: Seq<u8>, pos: int) -> bool {
        self.spec_lines() as int == newline_count(s, 0, pos)
    }

    closed spec fn track(&self, s: Seq<u8>, old_pos: int, new_pos: int) -> Self {
        let (lines, lbp) = line_track(
            self.lines as int,
            self.line_byte_pos as int,
            s,
            old_pos,
            new_pos,
        );
        LineTracker { lines: lines as usize, line_byte_pos: lbp as usize }
    }

    open spec fn spec_pos(&self) -> usize {
        self.spec_lines()
    }

    fn pos(&self) -> (r: usize) {
        self.lines
    }

    fn update(&mut self, string: &str, old_byte_pos: usize, new_byte_pos: usize) {
        let ghost s = string.spec_bytes();
        let ghost t0 = *self;
        let h = string.as_bytes();
        if new_byte_pos > old_byte_pos {
            let (count, last) = scan_newlines(h, old_byte_pos, new_byte_pos);
            proof {
                lemma_newline_count_split(s, 0, old_byte_pos as int, new_byte_pos as int);
                lemma_newline_count_bounds(s, 0, new_byte_pos as int);
            }
            self.lines = self.lines + count;
            if let Some(w) = last {
                self.line_byte_pos = w;
            }
        } else if new_byte_pos < old_byte_pos {
            let diff = old_byte_pos - new_byte_pos;
            let half_len_to_root = old_byte_pos / 2;
            if diff > half_len_to_root {
                let (count, last) = scan_newlines(h, 0, new_byte_pos);
                self.lines = count;
                if let Some(w) = last {
                    self.line_byte_pos = w;
                }
            } else {
                let (count, last) = scan_newlines(h, new_byte_pos, old_byte_pos);
                proof {
                    lemma_newline_count_split(s, 0, new_byte_pos as int, old_byte_pos as int);
                    lemma_newline_count_bounds(s, 0, new_byte_pos as int);
                }
                self.lines = self.lines - count;
                if let Some(w) = last {
                    self.line_byte_pos = w;
                }
            }
        }
        proof {
            assert(*self == t0.track(s, old_byte_pos as int, new_byte_pos as int));
        }
    }
}

/// What the line tracker's transition does, in terms of newline counts: the
/// public reading of [`Tracker::track`] for [`LineTracker`].
pub proof fn lemma_line_track(t: LineTracker, s: Seq<u8>, o: int, n: int)
    requires
        0 <= o <= s.len(),
        0 <= n <= s.len(),
        o <= usize::MAX,
        n <= usize::MAX,
        t.inv(s, o),
    ensures
        ({
            let (lines, lbp) = line_track(
                t.spec_lines() as int,
                t.spec_line_byte_pos() as int,
                s,
                o,
                n,
            );
            &&& t.track(s, o, n).spec_lines() as int == lines
            &&& t.track(s, o, n).spec_line_byte_pos() as int == lbp
        }),
{
    lemma_newline_count_bounds(s, 0, n);
    lemma_newline_count_bounds(s, 0, o);
    if n > o {
        lemma_newline_count_split(s, 0, o, n);
        lemma_last_newline_bounds(s, o, n);
    } else if n < o {
        lemma_newline_count_split(s, 0, n, o);
        lemma_last_newline_bounds(s, 0, n);
        lemma_last_newline_bounds(s, n, o);
    }
}

} // verus!
