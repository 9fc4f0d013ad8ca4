//! The cursor engine: a position-tracking scanner over a borrowed string.
//!
//! A [`StrSlicer`] owns a reference to an immutable text and a byte offset
//! into it. The offset always lies on a character boundary; it only ever
//! changes through the single internal position-setting operation
//! ([`StrSlicer::jump_to_unchecked`]), which is also the one point where the
//! attached [`Tracker`] observes the move. Substrings handed out borrow from
//! the text, not from the cursor, so they outlive any later cursor movement.

use vstd::prelude::*;

verus! {

use vstd::utf8::{valid_utf8, is_char_boundary, encode_utf8};
use vstd::string::StringSliceAdditionalSpecFns;
use crate::pattern::{Pattern, NonWhitespacePattern, WhitespacePattern, first_match_in,
    lemma_first_match_in};
use crate::diag;
use crate::diag::{oob_message, char_boundary_message};
use crate::scan;
use crate::scan::{advance_chars, line_trim, lemma_str_bytes_valid, lemma_line_trim};

/// A type that observes the cursor's moves and derives auxiliary position
/// information from them.
///
/// `inv` is the tracker's consistency with a position in the text; `track`
/// is its exact transition on an observed move. The cursor keeps `inv` as
/// part of its own well-formedness, so the tracker's derived position stays
/// meaningful across any sequence of cursor operations.
pub trait Tracker: Sized {
    /// The type of the derived position returned by [`Tracker::pos`].
    type Pos;

    /// Consistency of the tracker's state with byte offset `pos` into the
    /// text bytes `s`.
    spec fn inv(&self, s: Seq<u8>, pos: int) -> bool;

    /// The tracker's state after observing a move from `old_pos` to
    /// `new_pos` over the text bytes `s`.
    spec fn track(&self, s: Seq<u8>, old_pos: int, new_pos: int) -> Self;

    /// The derived position returned by [`Tracker::pos`].
    spec fn spec_pos(&self) -> Self::Pos;

    /// Returns the derived position information.
    fn pos(&self) -> (r: Self::Pos)
        ensures
            r == self.spec_pos(),
    ;

    /// Observes a move of the cursor from `old_byte_pos` to `new_byte_pos`.
    fn update(&mut self, string: &str, old_byte_pos: usize, new_byte_pos: usize)
        requires
            old_byte_pos <= string.spec_bytes().len(),
            new_byte_pos <= string.spec_bytes().len(),
            old(self).inv(string.spec_bytes(), old_byte_pos as int),
        ensures
            *final(self) == old(self).track(
                string.spec_bytes(),
                old_byte_pos as int,
                new_byte_pos as int,
            ),
            final(self).inv(string.spec_bytes(), new_byte_pos as int),
    ;
}

/// The unit type is the default tracker: it observes nothing.
impl Tracker for () {
    type Pos = ();

    open spec fn inv(&self, s: Seq<u8>, pos: int) -> bool {
        true
    }

    open spec fn track(&self, s: Seq<u8>, old_pos: int, new_pos: int) -> Self {
        ()
    }

    open spec fn spec_pos(&self) -> Self::Pos {
        ()
    }

    fn pos(&self) -> (r: Self::Pos) {
        ()
    }

    fn update(&mut self, string: &str, old_byte_pos: usize, new_byte_pos: usize) {
    }
}

/// A string slicer.
///
/// Walks forward over a borrowed string slice, carving it into smaller
/// string slices. Slicing methods (those named `slice_…`) return `None` once
/// the cursor has reached the end, which makes consumption loops terminate
/// naturally.
#[derive(Debug, Clone, Copy)]
pub struct StrSlicer<'s, T: Tracker = ()> {
    string: &'s str,
    byte_pos: usize,
    tracker: T,
}

/// The byte contents of an optional borrowed substring.
pub open spec fn opt_bytes(r: Option<&str>) -> Option<Seq<u8>> {
    match r {
        Some(t) => Some(t.spec_bytes()),
        None => None,
    }
}

/// The offset the cursor lands on when skipping from `p` until a pattern:
/// the first match at or after `p`, the text length when there is no match,
/// and `p` itself when `p` is already at the end.
pub open spec fn until_pos<P: Pattern>(pat: P, s: Seq<u8>, p: int) -> int {
    if p >= s.len() {
        p
    } else {
        first_match_in(pat, s, p)
    }
}

/// The substring consumed by slicing from `p` until a pattern.
pub open spec fn until_result<P: Pattern>(pat: P, s: Seq<u8>, p: int) -> Option<Seq<u8>> {
    if p >= s.len() {
        None
    } else {
        Some(s.subrange(p, until_pos(pat, s, p)))
    }
}

/// The offset the cursor lands on when skipping from `p` until a pattern and
/// then over it: just past the first match when there is one, otherwise the
/// text length.
pub open spec fn until_after_pos<P: Pattern>(pat: P, s: Seq<u8>, p: int) -> int {
    if p >= s.len() {
        p
    } else {
        let k = first_match_in(pat, s, p);
        if k < s.len() {
            k + pat.skip_len(s, k)
        } else {
            k
        }
    }
}

/// The substring consumed by slicing from `p` until and over a pattern.
pub open spec fn until_after_result<P: Pattern>(pat: P, s: Seq<u8>, p: int) -> Option<Seq<u8>> {
    if p >= s.len() {
        None
    } else {
        Some(s.subrange(p, until_after_pos(pat, s, p)))
    }
}

/// The substring consumed by slicing from `p` to the end of the text.
pub open spec fn to_end_result(s: Seq<u8>, p: int) -> Option<Seq<u8>> {
    if p >= s.len() {
        None
    } else {
        Some(s.subrange(p, s.len() as int))
    }
}

/// The substring consumed by slicing `n` characters forward from `p`.
pub open spec fn chars_result(s: Seq<u8>, p: int, n: nat) -> Option<Seq<u8>> {
    if p >= s.len() {
        None
    } else {
        Some(s.subrange(p, advance_chars(s, p, n)))
    }
}

/// The substring returned by slicing one line from `p`: the text up to and
/// over the next newline, with trailing newline and carriage return
/// characters removed.
pub open spec fn line_result(s: Seq<u8>, p: int) -> Option<Seq<u8>> {
    if p >= s.len() {
        None
    } else {
        Some(s.subrange(p, line_trim(s, p, until_after_pos('\n', s, p))))
    }
}

impl<'s> StrSlicer<'s, ()> {
    /// Creates a slicer over the given string slice, positioned at its
    /// start, with the no-op tracker.
    pub fn new(string: &'s str) -> (r: Self)
        ensures
            r.wf(),
            r.bytes() == string.spec_bytes(),
            r.text() == string@,
            r.offset() == 0,
            r.trk() == (),
    {
        proof {
            lemma_str_bytes_valid(string);
        }
        StrSlicer { string, byte_pos: 0, tracker: () }
    }
}

impl<'s, T: Tracker> StrSlicer<'s, T> {
    /// The UTF-8 bytes of the text under the cursor; every offset in the
    /// contracts is an index into this sequence.
    pub closed spec fn bytes(&self) -> Seq<u8> {
        self.string.spec_bytes()
    }

    /// The characters of the text under the cursor.
    pub closed spec fn text(&self) -> Seq<char> {
        self.string@
    }

    /// The cursor's current byte offset.
    pub closed spec fn offset(&self) -> int {
        self.byte_pos as int
    }

    /// The attached tracker's state.
    pub closed spec fn trk(&self) -> T {
        self.tracker
    }

    /// Well-formedness: the offset is at most the text length and lies on a
    /// character boundary, and the tracker is consistent with it.
    pub closed spec fn wf(&self) -> bool {
        &&& self.byte_pos <= self.string.spec_bytes().len()
        &&& is_char_boundary(self.string.spec_bytes(), self.byte_pos as int)
        &&& self.tracker.inv(self.string.spec_bytes(), self.byte_pos as int)
    }

    /// What well-formedness gives about the abstract state: the bytes encode
    /// the text, and the offset is a boundary within them.
    pub proof fn lemma_view(&self)
        requires
            self.wf(),
        ensures
            valid_utf8(self.bytes()),
            self.bytes() == encode_utf8(self.text()),
            0 <= self.offset() <= self.bytes().len(),
            is_char_boundary(self.bytes(), self.offset()),
            self.trk().inv(self.bytes(), self.offset()),
    {
        lemma_str_bytes_valid(self.string);
    }

    /// Creates a slicer over the given string slice, positioned at its
    /// start, with the given tracker, whose state must be consistent with
    /// the start of the text.
    pub fn with_tracker(string: &'s str, tracker: T) -> (r: Self)
        requires
            tracker.inv(string.spec_bytes(), 0),
        ensures
            r.wf(),
            r.bytes() == string.spec_bytes(),
            r.text() == string@,
            r.offset() == 0,
            r.trk() == tracker,
    {
        proof {
            lemma_str_bytes_valid(string);
        }
        StrSlicer { string, byte_pos: 0, tracker }
    }

    /// Returns the whole string slice this slicer operates on, unaffected by
    /// the cursor's position.
    #[inline]
    pub fn as_str(&self) -> (r: &'s str)
        ensures
            r@ == self.text(),
            r.spec_bytes() == self.bytes(),
    {
        self.string
    }

    /// Returns the text from the current position to the end, without moving
    /// the cursor, or `None` when the cursor is at the end.
    pub fn cut_off(&self) -> (r: Option<&'s str>)
        requires
            self.wf(),
        ensures
            opt_bytes(r) == to_end_result(self.bytes(), self.offset()),
            r is Some <==> self.offset() < self.bytes().len(),
    {
        proof {
            lemma_str_bytes_valid(self.string);
        }
        if self.is_at_end() {
            None
        } else {
            let end_pos = self.string.as_bytes().len();
            Some(scan::substring(self.string, self.byte_pos, end_pos))
        }
    }

    /// The cursor's current position in the string, as a byte index.
    #[inline]
    pub fn byte_pos(&self) -> (r: usize)
        ensures
            r as int == self.offset(),
    {
        self.byte_pos
    }

    /// Moves the cursor to the given byte index, which must be at most the
    /// text length and fall on a character boundary.
    pub fn jump_to(&mut self, byte_pos: usize)
        requires
            old(self).wf(),
            byte_pos <= old(self).bytes().len(),
            is_char_boundary(old(self).bytes(), byte_pos as int),
        ensures
            final(self).wf(),
            final(self).bytes() == old(self).bytes(),
            final(self).text() == old(self).text(),
            final(self).offset() == byte_pos,
            final(self).trk() == old(self).trk().track(
                old(self).bytes(),
                old(self).offset(),
                byte_pos as int,
            ),
    {
        self.jump_to_unchecked(byte_pos);
    }

    /// Moves the cursor to the given byte index without an at-end check: an
    /// index beyond the end of the text is treated as a move to the end. An
    /// index within the text must fall on a character boundary; that is the
    /// caller's warranted precondition, not a run-time check.
    ///
    /// This is the single position-setting operation: every other cursor
    /// movement goes through it, and it is the one point where the tracker
    /// observes the move.
    pub fn jump_to_unchecked(&mut self, byte_pos: usize)
        requires
            old(self).wf(),
            byte_pos <= old(self).bytes().len() ==> is_char_boundary(
                old(self).bytes(),
                byte_pos as int,
            ),
        ensures
            final(self).wf(),
            final(self).bytes() == old(self).bytes(),
            final(self).text() == old(self).text(),
            final(self).offset() == if byte_pos <= old(self).bytes().len() {
                byte_pos as int
            } else {
                old(self).bytes().len() as int
            },
            final(self).trk() == old(self).trk().track(
                old(self).bytes(),
                old(self).offset(),
                final(self).offset(),
            ),
    {
        proof {
            lemma_str_bytes_valid(self.string);
        }
        let len = self.string.as_bytes().len();
        let target = if byte_pos > len {
            len
        } else {
            byte_pos
        };
        self.tracker.update(self.string, self.byte_pos, target);
        self.byte_pos = target;
    }

    /// Moves the cursor to the given byte index after validating it. An
    /// index beyond the end of the text, or inside a multi-byte character,
    /// leaves the cursor unmoved and is reported with the matching
    /// diagnostic message; the cursor never silently rounds the index.
    pub fn try_jump_to(&mut self, byte_pos: usize) -> (r: Result<(), String>)
        requires
            old(self).wf(),
        ensures
            final(self).wf(),
            final(self).bytes() == old(self).bytes(),
            final(self).text() == old(self).text(),
            byte_pos <= old(self).bytes().len() && is_char_boundary(
                old(self).bytes(),
                byte_pos as int,
            ) ==> {
                &&& r is Ok
                &&& final(self).offset() == byte_pos
                &&& final(self).trk() == old(self).trk().track(
                    old(self).bytes(),
                    old(self).offset(),
                    byte_pos as int,
                )
            },
            byte_pos > old(self).bytes().len() ==> {
                &&& *final(self) == *old(self)
                &&& r matches Err(m) && m@ == oob_message(old(self).bytes(), byte_pos as int)
            },
            byte_pos <= old(self).bytes().len() && !is_char_boundary(
                old(self).bytes(),
                byte_pos as int,
            ) ==> {
                &&& *final(self) == *old(self)
                &&& r matches Err(m) && m@ == char_boundary_message(
                    old(self).bytes(),
                    byte_pos as int,
                )
            },
    {
        let len = self.string.as_bytes().len();
        if byte_pos > len {
            Err(diag::jump_oob_fail(self.string, byte_pos))
        } else if self.string.is_char_boundary(byte_pos) {
            self.jump_to_unchecked(byte_pos);
            Ok(())
        } else {
            Err(diag::jump_char_boundary_fail(self.string, byte_pos))
        }
    }

    /// Returns a reference to this slicer's tracker.
    pub fn tracker(&self) -> (r: &T)
        ensures
            *r == self.trk(),
    {
        &self.tracker
    }

    /// Returns a mutable reference to this slicer's tracker. The cursor
    /// stays well-formed exactly when the state the caller leaves behind is
    /// consistent with the current position.
    pub fn tracker_mut(&mut self) -> (r: &mut T)
        requires
            old(self).wf(),
        ensures
            *r == old(self).trk(),
            final(self).bytes() == old(self).bytes(),
            final(self).text() == old(self).text(),
            final(self).offset() == old(self).offset(),
            final(self).trk() == *final(r),
            final(self).wf() == (*final(r)).inv(old(self).bytes(), old(self).offset()),
    {
        &mut self.tracker
    }

    /// The derived position the attached tracker reports.
    #[inline]
    pub fn tracker_pos(&self) -> (r: T::Pos)
        ensures
            r == self.trk().spec_pos(),
    {
        self.tracker.pos()
    }

    /// Whether the cursor sits at the end of the string.
    pub fn is_at_end(&self) -> (r: bool)
        ensures
            r == (self.offset() >= self.bytes().len()),
    {
        self.byte_pos >= self.string.as_bytes().len()
    }

    /// Moves the cursor forward over up to `num` characters, stopping early
    /// at the end of the string.
    pub fn skip_num_chars(&mut self, num: usize)
        requires
            old(self).wf(),
        ensures
            final(self).wf(),
            final(self).bytes() == old(self).bytes(),
            final(self).text() == old(self).text(),
            old(self).offset() <= final(self).offset(),
            final(self).offset() == advance_chars(
                old(self).bytes(),
                old(self).offset(),
                num as nat,
            ),
            num == 0 ==> *final(self) == *old(self),
            num > 0 ==> final(self).trk() == old(self).trk().track(
                old(self).bytes(),
                old(self).offset(),
                final(self).offset(),
            ),
    {
        if num == 0 {
            return ;
        }
        proof {
            lemma_str_bytes_valid(self.string);
        }
        let target = scan::chars_target(self.string, self.byte_pos, num);
        self.jump_to_unchecked(target);
    }

    /// Moves the cursor forward over up to `num` characters and returns the
    /// consumed substring, or `None` when the cursor was already at the end.
    pub fn slice_num_chars(&mut self, num: usize) -> (r: Option<&'s str>)
        requires
            old(self).wf(),
        ensures
            final(self).wf(),
            final(self).bytes() == old(self).bytes(),
            final(self).text() == old(self).text(),
            opt_bytes(r) == chars_result(old(self).bytes(), old(self).offset(), num as nat),
            old(self).offset() >= old(self).bytes().len() ==> *final(self) == *old(self),
            old(self).offset() < old(self).bytes().len() ==> final(self).offset() == advance_chars(
                old(self).bytes(),
                old(self).offset(),
                num as nat,
            ),
            old(self).offset() < old(self).bytes().len() && num == 0 ==> *final(self) == *old(
                self,
            ),
            old(self).offset() < old(self).bytes().len() && num > 0 ==> final(self).trk() == old(
                self,
            ).trk().track(old(self).bytes(), old(self).offset(), final(self).offset()),
    {
        let start_pos = self.byte_pos;
        let len = self.string.as_bytes().len();
        if start_pos >= len {
            None
        } else {
            self.skip_num_chars(num);
            let end_pos = self.byte_pos;
            Some(scan::substring(self.string, start_pos, end_pos))
        }
    }

    /// Whether the given pattern is next, that is, matches at the cursor's
    /// current position.
    pub fn is_next<P: Pattern>(&self, pattern: P) -> (r: bool)
        requires
            self.wf(),
        ensures
            r == pattern.match_at(self.bytes(), self.offset()),
    {
        pattern.is_next(self.string, self.byte_pos)
    }

    /// If the pattern is next, steps over it and reports true; otherwise
    /// reports false and leaves the cursor unmoved.
    pub fn skip_over<P: Pattern>(&mut self, pattern: P) -> (r: bool)
        requires
            old(self).wf(),
        ensures
            final(self).wf(),
            final(self).bytes() == old(self).bytes(),
            final(self).text() == old(self).text(),
            r == pattern.match_at(old(self).bytes(), old(self).offset()),
            !r ==> *final(self) == *old(self),
            r ==> final(self).offset() == old(self).offset() + pattern.skip_len(
                old(self).bytes(),
                old(self).offset(),
            ),
            r ==> final(self).trk() == old(self).trk().track(
                old(self).bytes(),
                old(self).offset(),
                final(self).offset(),
            ),
    {
        if pattern.is_next(self.string, self.byte_pos) {
            proof {
                lemma_str_bytes_valid(self.string);
                pattern.lemma_match(self.bytes(), self.offset());
                pattern.lemma_skip(self.bytes(), self.offset());
            }
            let target = pattern.skip_over_unchecked(self.string, self.byte_pos);
            self.jump_to_unchecked(target);
            true
        } else {
            false
        }
    }

    /// Steps over the pattern without checking that it is next; the caller
    /// warrants the pattern's presence.
    pub fn skip_over_unchecked<P: Pattern>(&mut self, pattern: P)
        requires
            old(self).wf(),
            pattern.skip_ok(old(self).bytes(), old(self).offset()),
        ensures
            final(self).wf(),
            final(self).bytes() == old(self).bytes(),
            final(self).text() == old(self).text(),
            final(self).offset() == old(self).offset() + pattern.skip_len(
                old(self).bytes(),
                old(self).offset(),
            ),
            final(self).trk() == old(self).trk().track(
                old(self).bytes(),
                old(self).offset(),
                final(self).offset(),
            ),
    {
        proof {
            lemma_str_bytes_valid(self.string);
            pattern.lemma_skip(self.bytes(), self.offset());
        }
        let target = pattern.skip_over_unchecked(self.string, self.byte_pos);
        self.jump_to_unchecked(target);
    }

    /// Moves the cursor forward until the pattern is next, or to the end of
    /// the string when the pattern does not occur again.
    pub fn skip_until<P: Pattern>(&mut self, pattern: P)
        requires
            old(self).wf(),
        ensures
            final(self).wf(),
            final(self).bytes() == old(self).bytes(),
            final(self).text() == old(self).text(),
            old(self).offset() <= final(self).offset(),
            final(self).offset() == until_pos(pattern, old(self).bytes(), old(self).offset()),
            old(self).offset() >= old(self).bytes().len() ==> *final(self) == *old(self),
            old(self).offset() < old(self).bytes().len() ==> final(self).trk() == old(
                self,
            ).trk().track(old(self).bytes(), old(self).offset(), final(self).offset()),
    {
        let len = self.string.as_bytes().len();
        if self.byte_pos >= len {
            return ;
        }
        let target = pattern.skip_until(self.string, self.byte_pos);
        proof {
            lemma_first_match_in(pattern, self.bytes(), self.offset(), target as int);
        }
        self.jump_to_unchecked(target);
    }

    /// Moves the cursor forward until the pattern is next and returns the
    /// consumed substring, or `None` when the cursor was already at the end.
    pub fn slice_until<P: Pattern>(&mut self, pattern: P) -> (r: Option<&'s str>)
        requires
            old(self).wf(),
        ensures
            final(self).wf(),
            final(self).bytes() == old(self).bytes(),
            final(self).text() == old(self).text(),
            final(self).offset() == until_pos(pattern, old(self).bytes(), old(self).offset()),
            opt_bytes(r) == until_result(pattern, old(self).bytes(), old(self).offset()),
            old(self).offset() >= old(self).bytes().len() ==> *final(self) == *old(self),
            old(self).offset() < old(self).bytes().len() ==> final(self).trk() == old(
                self,
            ).trk().track(old(self).bytes(), old(self).offset(), final(self).offset()),
    {
        let start_pos = self.byte_pos;
        let len = self.string.as_bytes().len();
        if start_pos >= len {
            None
        } else {
            self.skip_until(pattern);
            let end_pos = self.byte_pos;
            Some(scan::substring(self.string, start_pos, end_pos))
        }
    }

    /// Moves the cursor forward until the pattern is next, then steps over
    /// it; the cursor ends at the end of the string when the pattern does
    /// not occur again.
    pub fn skip_until_after<P: Pattern>(&mut self, pattern: P)
        requires
            old(self).wf(),
        ensures
            final(self).wf(),
            final(self).bytes() == old(self).bytes(),
            final(self).text() == old(self).text(),
            old(self).offset() <= final(self).offset(),
            final(self).offset() == until_after_pos(
                pattern,
                old(self).bytes(),
                old(self).offset(),
            ),
            old(self).offset() >= old(self).bytes().len() ==> *final(self) == *old(self),
            old(self).offset() < old(self).bytes().len() ==> final(self).trk() == old(
                self,
            ).trk().track(old(self).bytes(), old(self).offset(), final(self).offset()),
    {
        let len = self.string.as_bytes().len();
        if self.byte_pos >= len {
            return ;
        }
        let found = pattern.skip_until(self.string, self.byte_pos);
        proof {
            lemma_first_match_in(pattern, self.bytes(), self.offset(), found as int);
            lemma_str_bytes_valid(self.string);
        }
        let target = if found < len {
            proof {
                pattern.lemma_match(self.bytes(), found as int);
                pattern.lemma_skip(self.bytes(), found as int);
            }
            pattern.skip_over_unchecked(self.string, found)
        } else {
            found
        };
        self.jump_to_unchecked(target);
    }

    /// Moves the cursor forward until the pattern is next, steps over it,
    /// and returns the consumed substring including the pattern itself, or
    /// `None` when the cursor was already at the end.
    pub fn slice_until_after<P: Pattern>(&mut self, pattern: P) -> (r: Option<&'s str>)
        requires
            old(self).wf(),
        ensures
            final(self).wf(),
            final(self).bytes() == old(self).bytes(),
            final(self).text() == old(self).text(),
            final(self).offset() == until_after_pos(
                pattern,
                old(self).bytes(),
                old(self).offset(),
            ),
            opt_bytes(r) == until_after_result(pattern, old(self).bytes(), old(self).offset()),
            old(self).offset() >= old(self).bytes().len() ==> *final(self) == *old(self),
            old(self).offset() < old(self).bytes().len() ==> final(self).trk() == old(
                self,
            ).trk().track(old(self).bytes(), old(self).offset(), final(self).offset()),
    {
        let start_pos = self.byte_pos;
        let len = self.string.as_bytes().len();
        if start_pos >= len {
            None
        } else {
            self.skip_until_after(pattern);
            let end_pos = self.byte_pos;
            Some(scan::substring(self.string, start_pos, end_pos))
        }
    }

    /// Moves the cursor forward until a non-whitespace character is next; a
    /// cursor already on a non-whitespace character does not move.
    pub fn skip_whitespace(&mut self)
        requires
            old(self).wf(),
        ensures
            final(self).wf(),
            final(self).bytes() == old(self).bytes(),
            final(self).text() == old(self).text(),
            final(self).offset() == until_pos(
                NonWhitespacePattern,
                old(self).bytes(),
                old(self).offset(),
            ),
            old(self).offset() >= old(self).bytes().len() ==> *final(self) == *old(self),
            old(self).offset() < old(self).bytes().len() ==> final(self).trk() == old(
                self,
            ).trk().track(old(self).bytes(), old(self).offset(), final(self).offset()),
    {
        self.skip_until(NonWhitespacePattern);
    }

    /// Moves the cursor forward until a non-whitespace character is next and
    /// returns the consumed whitespace, or `None` when the cursor was
    /// already at the end.
    pub fn slice_whitespace(&mut self) -> (r: Option<&'s str>)
        requires
            old(self).wf(),
        ensures
            final(self).wf(),
            final(self).bytes() == old(self).bytes(),
            final(self).text() == old(self).text(),
            final(self).offset() == until_pos(
                NonWhitespacePattern,
                old(self).bytes(),
                old(self).offset(),
            ),
            opt_bytes(r) == until_result(
                NonWhitespacePattern,
                old(self).bytes(),
                old(self).offset(),
            ),
            old(self).offset() >= old(self).bytes().len() ==> *final(self) == *old(self),
            old(self).offset() < old(self).bytes().len() ==> final(self).trk() == old(
                self,
            ).trk().track(old(self).bytes(), old(self).offset(), final(self).offset()),
    {
        self.slice_until(NonWhitespacePattern)
    }

    /// Moves the cursor forward until a whitespace character is next; a
    /// cursor already on a whitespace character does not move.
    pub fn skip_non_whitespace(&mut self)
        requires
            old(self).wf(),
        ensures
            final(self).wf(),
            final(self).bytes() == old(self).bytes(),
            final(self).text() == old(self).text(),
            final(self).offset() == until_pos(
                WhitespacePattern,
                old(self).bytes(),
                old(self).offset(),
            ),
            old(self).offset() >= old(self).bytes().len() ==> *final(self) == *old(self),
            old(self).offset() < old(self).bytes().len() ==> final(self).trk() == old(
                self,
            ).trk().track(old(self).bytes(), old(self).offset(), final(self).offset()),
    {
        self.skip_until(WhitespacePattern);
    }

    /// Moves the cursor forward until a whitespace character is next and
    /// returns the consumed non-whitespace, or `None` when the cursor was
    /// already at the end.
    pub fn slice_non_whitespace(&mut self) -> (r: Option<&'s str>)
        requires
            old(self).wf(),
        ensures
            final(self).wf(),
            final(self).bytes() == old(self).bytes(),
            final(self).text() == old(self).text(),
            final(self).offset() == until_pos(
                WhitespacePattern,
                old(self).bytes(),
                old(self).offset(),
            ),
            opt_bytes(r) == until_result(WhitespacePattern, old(self).bytes(), old(self).offset()),
            old(self).offset() >= old(self).bytes().len() ==> *final(self) == *old(self),
            old(self).offset() < old(self).bytes().len() ==> final(self).trk() == old(
                self,
            ).trk().track(old(self).bytes(), old(self).offset(), final(self).offset()),
    {
        self.slice_until(WhitespacePattern)
    }

    /// Skips past the rest of the line: moves the cursor just past the next
    /// newline character, or to the end of the string when none remains.
    pub fn skip_line(&mut self)
        requires
            old(self).wf(),
        ensures
            final(self).wf(),
            final(self).bytes() == old(self).bytes(),
            final(self).text() == old(self).text(),
            final(self).offset() == until_after_pos('\n', old(self).bytes(), old(self).offset()),
            old(self).offset() >= old(self).bytes().len() ==> *final(self) == *old(self),
            old(self).offset() < old(self).bytes().len() ==> final(self).trk() == old(
                self,
            ).trk().track(old(self).bytes(), old(self).offset(), final(self).offset()),
    {
        self.skip_until_after('\n');
    }

    /// Skips past the rest of the line and returns it with trailing newline
    /// and carriage return characters removed, or `None` when the cursor was
    /// already at the end.
    pub fn slice_line(&mut self) -> (r: Option<&'s str>)
        requires
            old(self).wf(),
        ensures
            final(self).wf(),
            final(self).bytes() == old(self).bytes(),
            final(self).text() == old(self).text(),
            final(self).offset() == until_after_pos('\n', old(self).bytes(), old(self).offset()),
            opt_bytes(r) == line_result(old(self).bytes(), old(self).offset()),
            old(self).offset() >= old(self).bytes().len() ==> *final(self) == *old(self),
            old(self).offset() < old(self).bytes().len() ==> final(self).trk() == old(
                self,
            ).trk().track(old(self).bytes(), old(self).offset(), final(self).offset()),
    {
        let start_pos = self.byte_pos;
        let len = self.string.as_bytes().len();
        if start_pos >= len {
            None
        } else {
            self.skip_until_after('\n');
            let end_pos = self.byte_pos;
            let trimmed = scan::line_trim_end(self.string, start_pos, end_pos);
            proof {
                lemma_str_bytes_valid(self.string);
                lemma_line_trim(self.bytes(), start_pos as int, end_pos as int);
            }
            Some(scan::substring(self.string, start_pos, trimmed))
        }
    }

    /// Moves the cursor to the end of the string.
    pub fn skip_to_end(&mut self)
        requires
            old(self).wf(),
        ensures
            final(self).wf(),
            final(self).bytes() == old(self).bytes(),
            final(self).text() == old(self).text(),
            final(self).offset() == old(self).bytes().len(),
            final(self).trk() == old(self).trk().track(
                old(self).bytes(),
                old(self).offset(),
                old(self).bytes().len() as int,
            ),
    {
        proof {
            lemma_str_bytes_valid(self.string);
        }
        let len = self.string.as_bytes().len();
        self.jump_to_unchecked(len);
    }

    /// Moves the cursor to the end of the string and returns the consumed
    /// tail, or `None` when the cursor was already at the end.
    pub fn slice_to_end(&mut self) -> (r: Option<&'s str>)
        requires
            old(self).wf(),
        ensures
            final(self).wf(),
            final(self).bytes() == old(self).bytes(),
            final(self).text() == old(self).text(),
            opt_bytes(r) == to_end_result(old(self).bytes(), old(self).offset()),
            old(self).offset() >= old(self).bytes().len() ==> *final(self) == *old(self),
            old(self).offset() < old(self).bytes().len() ==> {
                &&& final(self).offset() == old(self).bytes().len()
                &&& final(self).trk() == old(self).trk().track(
                    old(self).bytes(),
                    old(self).offset(),
                    old(self).bytes().len() as int,
                )
            },
    {
        let start_pos = self.byte_pos;
        let len = self.string.as_bytes().len();
        if start_pos >= len {
            None
        } else {
            self.skip_to_end();
            let end_pos = self.byte_pos;
            Some(scan::substring(self.string, start_pos, end_pos))
        }
    }
}

/// A type that can be cheaply turned into a [`StrSlicer`] over its text.
pub trait AsSlicer<'s> {
    /// The UTF-8 bytes of the text the slicer will scan.
    spec fn src_bytes(&self) -> Seq<u8>;

    /// The characters of the text the slicer will scan.
    spec fn src_text(&self) -> Seq<char>;

    /// A slicer over the text, positioned at its start, with the no-op
    /// tracker.
    fn as_slicer(&self) -> (r: StrSlicer<'s, ()>)
        ensures
            r.wf(),
            r.bytes() == self.src_bytes(),
            r.text() == self.src_text(),
            r.offset() == 0,
            r.trk() == (),
    ;

    /// A slicer over the text, positioned at its start, with the given
    /// tracker.
    fn as_slicer_with_tracker<T: Tracker>(&'s self, tracker: T) -> (r: StrSlicer<'s, T>)
        requires
            tracker.inv(self.src_bytes(), 0),
        ensures
            r.wf(),
            r.bytes() == self.src_bytes(),
            r.text() == self.src_text(),
            r.offset() == 0,
            r.trk() == tracker,
    ;
}

impl<'s> AsSlicer<'s> for &'s str {
    open spec fn src_bytes(&self) -> Seq<u8> {
        (*self).spec_bytes()
    }

    open spec fn src_text(&self) -> Seq<char> {
        (*self)@
    }

    fn as_slicer(&self) -> (r: StrSlicer<'s, ()>) {
        StrSlicer::new(*self)
    }

    fn as_slicer_with_tracker<T: Tracker>(&'s self, tracker: T) -> (r: StrSlicer<'s, T>) {
        StrSlicer::with_tracker(*self, tracker)
    }
}

} // verus!
