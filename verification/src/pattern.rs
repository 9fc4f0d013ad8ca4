//! The pattern capability that drives the cursor.
//!
//! A [`Pattern`] decides three things about a position in the text: whether
//! it matches right there ([`Pattern::is_next`]), where its first occurrence
//! at or after the position lies ([`Pattern::skip_until`]), and how far the
//! cursor moves when stepping over it ([`Pattern::skip_over_unchecked`]).
//! The built-in patterns are literal text (`&str`), a single character
//! (`char`), and the two character-class patterns [`WhitespacePattern`] and
//! [`NonWhitespacePattern`].

use vstd::prelude::*;

verus! {

use vstd::utf8::{valid_utf8, is_char_boundary, encode_utf8, encode_scalar, length_of_first_scalar,
    encode_utf8_valid_utf8, is_char_boundary_start_end_of_seq,
    is_char_boundary_iff_not_is_continuation_byte};
use vstd::string::StringSliceAdditionalSpecFns;
use crate::scan;
use crate::scan::{bytes_match_at, class_match_at, lemma_str_bytes_valid, lemma_scalar_span};

/// A type usable as an input to the matching methods of the cursor.
///
/// `match_at`, `skip_len` and `skip_ok` give the pattern's meaning over the
/// UTF-8 bytes of the text; the executable methods are each pinned to those
/// spec functions by their contracts. A pattern only answers where the
/// cursor should move; the cursor itself performs the move and notifies its
/// tracker.
pub trait Pattern: Sized {
    /// True when the pattern matches the text bytes `s` at byte offset `i`.
    spec fn match_at(&self, s: Seq<u8>, i: int) -> bool;

    /// The number of bytes that stepping over the pattern at offset `i`
    /// advances the cursor.
    spec fn skip_len(&self, s: Seq<u8>, i: int) -> int;

    /// What a caller of the unchecked skip warrants about offset `i`.
    spec fn skip_ok(&self, s: Seq<u8>, i: int) -> bool;

    /// A match sits on a character boundary before the end of the text, and
    /// a matched pattern may always be stepped over.
    proof fn lemma_match(&self, s: Seq<u8>, i: int)
        requires
            valid_utf8(s),
            self.match_at(s, i),
        ensures
            0 <= i < s.len(),
            is_char_boundary(s, i),
            self.skip_ok(s, i),
    ;

    /// Stepping over the pattern from a boundary lands on a boundary at or
    /// before the end of the text.
    proof fn lemma_skip(&self, s: Seq<u8>, i: int)
        requires
            valid_utf8(s),
            is_char_boundary(s, i),
            0 <= i <= s.len(),
            self.skip_ok(s, i),
        ensures
            0 <= self.skip_len(s, i),
            i + self.skip_len(s, i) <= s.len(),
            is_char_boundary(s, i + self.skip_len(s, i)),
    ;

    /// Whether the pattern matches `string` at byte offset `pos`.
    fn is_next(&self, string: &str, pos: usize) -> (r: bool)
        requires
            pos <= string.spec_bytes().len(),
            is_char_boundary(string.spec_bytes(), pos as int),
        ensures
            r == self.match_at(string.spec_bytes(), pos as int),
    ;

    /// The first offset at or after `pos` where the pattern matches, or the
    /// text length when it matches nowhere in the remaining text.
    fn skip_until(&self, string: &str, pos: usize) -> (r: usize)
        requires
            pos <= string.spec_bytes().len(),
            is_char_boundary(string.spec_bytes(), pos as int),
        ensures
            pos <= r <= string.spec_bytes().len(),
            is_char_boundary(string.spec_bytes(), r as int),
            forall|j: int| pos <= j < r ==> !self.match_at(string.spec_bytes(), j),
            r < string.spec_bytes().len() ==> self.match_at(string.spec_bytes(), r as int),
    ;

    /// The offset just past the pattern taken to sit at offset `pos`; the
    /// caller warrants `skip_ok` and the pattern's presence is not checked.
    fn skip_over_unchecked(&self, string: &str, pos: usize) -> (r: usize)
        requires
            pos <= string.spec_bytes().len(),
            is_char_boundary(string.spec_bytes(), pos as int),
            self.skip_ok(string.spec_bytes(), pos as int),
        ensures
            r as int == pos + self.skip_len(string.spec_bytes(), pos as int),
    ;
}

/// The least offset at or after `i` where the pattern matches, or the text
/// length when it matches nowhere at or after `i`.
pub open spec fn first_match_in<P: Pattern>(pat: P, s: Seq<u8>, i: int) -> int
    decreases s.len() - i, when 0 <= i <= s.len()
{
    if i >= s.len() {
        s.len() as int
    } else if pat.match_at(s, i) {
        i
    } else {
        first_match_in(pat, s, i + 1)
    }
}

/// `first_match_in` lies between `i` and the text length, nothing matches
/// before it, and it matches unless it is the text length.
pub proof fn lemma_first_match_props<P: Pattern>(pat: P, s: Seq<u8>, i: int)
    requires
        0 <= i <= s.len(),
    ensures
        ({
            let m = first_match_in(pat, s, i);
            &&& i <= m <= s.len()
            &&& (forall|j: int| i <= j < m ==> !pat.match_at(s, j))
            &&& (m < s.len() ==> pat.match_at(s, m))
        }),
    decreases s.len() - i,
{
    if i < s.len() && !pat.match_at(s, i) {
        lemma_first_match_props(pat, s, i + 1);
    }
}

/// An offset `k` with no match in `[i, k)` that either matches or is the end
/// of the text is exactly `first_match_in`.
pub proof fn lemma_first_match_in<P: Pattern>(pat: P, s: Seq<u8>, i: int, k: int)
    requires
        0 <= i <= k <= s.len(),
        forall|j: int| i <= j < k ==> !pat.match_at(s, j),
        k < s.len() ==> pat.match_at(s, k),
    ensures
        first_match_in(pat, s, i) == k,
    decreases k - i,
{
    if i < k {
        lemma_first_match_in(pat, s, i + 1, k);
    }
}

impl<'a> Pattern for &'a str {
    /// A literal matches where text remains and the remaining text starts
    /// with the literal's bytes.
    open spec fn match_at(&self, s: Seq<u8>, i: int) -> bool {
        bytes_match_at((*self).spec_bytes(), s, i)
    }

    /// Stepping over a literal advances by its byte length.
    open spec fn skip_len(&self, s: Seq<u8>, i: int) -> int {
        (*self).spec_bytes().len() as int
    }

    open spec fn skip_ok(&self, s: Seq<u8>, i: int) -> bool {
        &&& i + (*self).spec_bytes().len() <= s.len()
        &&& is_char_boundary(s, i + (*self).spec_bytes().len())
    }

    proof fn lemma_match(&self, s: Seq<u8>, i: int) {
        let p = (*self).spec_bytes();
        if p.len() > 0 {
            lemma_str_bytes_valid(*self);
            assert(s[i] == p[0]) by {
                assert(s.subrange(i, i + p.len())[0] == s[i]);
            }
            is_char_boundary_start_end_of_seq(p);
            is_char_boundary_iff_not_is_continuation_byte(p, 0);
            is_char_boundary_iff_not_is_continuation_byte(s, i);
        }
    }

    proof fn lemma_skip(&self, s: Seq<u8>, i: int) {
    }

    fn is_next(&self, string: &str, pos: usize) -> (r: bool) {
        scan::bytes_is_next(string, self.as_bytes(), pos)
    }

    fn skip_until(&self, string: &str, pos: usize) -> (r: usize) {
        proof {
            lemma_str_bytes_valid(*self);
        }
        scan::bytes_find_from(string, self.as_bytes(), pos)
    }

    fn skip_over_unchecked(&self, string: &str, pos: usize) -> (r: usize) {
        // the text's byte length bounds the skip target, so the sum fits
        let _text_len: usize = string.as_bytes().len();
        pos + self.as_bytes().len()
    }
}

impl Pattern for char {
    /// A character matches where the remaining text starts with its UTF-8
    /// encoding.
    open spec fn match_at(&self, s: Seq<u8>, i: int) -> bool {
        bytes_match_at(encode_utf8(seq![*self]), s, i)
    }

    /// Stepping over a character advances by its UTF-8 byte length.
    open spec fn skip_len(&self, s: Seq<u8>, i: int) -> int {
        encode_utf8(seq![*self]).len() as int
    }

    open spec fn skip_ok(&self, s: Seq<u8>, i: int) -> bool {
        &&& i + encode_utf8(seq![*self]).len() <= s.len()
        &&& is_char_boundary(s, i + encode_utf8(seq![*self]).len())
    }

    proof fn lemma_match(&self, s: Seq<u8>, i: int) {
        let cs = seq![*self];
        let p = encode_utf8(cs);
        assert(p == encode_scalar(cs[0] as u32) + encode_utf8(cs.drop_first()));
        assert(p.len() > 0);
        encode_utf8_valid_utf8(cs);
        assert(s[i] == p[0]) by {
            assert(s.subrange(i, i + p.len())[0] == s[i]);
        }
        is_char_boundary_start_end_of_seq(p);
        is_char_boundary_iff_not_is_continuation_byte(p, 0);
        is_char_boundary_iff_not_is_continuation_byte(s, i);
    }

    proof fn lemma_skip(&self, s: Seq<u8>, i: int) {
    }

    fn is_next(&self, string: &str, pos: usize) -> (r: bool) {
        let buf = scan::char_utf8(*self);
        scan::bytes_is_next(string, buf.as_slice(), pos)
    }

    fn skip_until(&self, string: &str, pos: usize) -> (r: usize) {
        let buf = scan::char_utf8(*self);
        scan::bytes_find_from(string, buf.as_slice(), pos)
    }

    fn skip_over_unchecked(&self, string: &str, pos: usize) -> (r: usize) {
        // the text's byte length bounds the skip target, so the sum fits
        let _text_len: usize = string.as_bytes().len();
        let buf = scan::char_utf8(*self);
        pos + buf.len()
    }
}

/// A character-class pattern that matches wherever the next character is a
/// whitespace character.
pub struct WhitespacePattern;

/// A character-class pattern that matches wherever the next character is not
/// a whitespace character.
pub struct NonWhitespacePattern;

impl Pattern for WhitespacePattern {
    open spec fn match_at(&self, s: Seq<u8>, i: int) -> bool {
        class_match_at(true, s, i)
    }

    /// Stepping over a class pattern advances by one character, whatever its
    /// byte length and whether or not it satisfies the class test.
    open spec fn skip_len(&self, s: Seq<u8>, i: int) -> int {
        if i < s.len() {
            length_of_first_scalar(s.subrange(i, s.len() as int))
        } else {
            0
        }
    }

    open spec fn skip_ok(&self, s: Seq<u8>, i: int) -> bool {
        true
    }

    proof fn lemma_match(&self, s: Seq<u8>, i: int) {
    }

    proof fn lemma_skip(&self, s: Seq<u8>, i: int) {
        if i < s.len() {
            lemma_scalar_span(s, i);
        }
    }

    fn is_next(&self, string: &str, pos: usize) -> (r: bool) {
        scan::class_is_next(string, true, pos)
    }

    fn skip_until(&self, string: &str, pos: usize) -> (r: usize) {
        scan::class_find_from(string, true, pos)
    }

    fn skip_over_unchecked(&self, string: &str, pos: usize) -> (r: usize) {
        class_skip_one(string, pos)
    }
}

impl Pattern for NonWhitespacePattern {
    open spec fn match_at(&self, s: Seq<u8>, i: int) -> bool {
        class_match_at(false, s, i)
    }

    /// Stepping over a class pattern advances by one character, whatever its
    /// byte length and whether or not it satisfies the class test.
    open spec fn skip_len(&self, s: Seq<u8>, i: int) -> int {
        if i < s.len() {
            length_of_first_scalar(s.subrange(i, s.len() as int))
        } else {
            0
        }
    }

    open spec fn skip_ok(&self, s: Seq<u8>, i: int) -> bool {
        true
    }

    proof fn lemma_match(&self, s: Seq<u8>, i: int) {
    }

    proof fn lemma_skip(&self, s: Seq<u8>, i: int) {
        if i < s.len() {
            lemma_scalar_span(s, i);
        }
    }

    fn is_next(&self, string: &str, pos: usize) -> (r: bool) {
        scan::class_is_next(string, false, pos)
    }

    fn skip_until(&self, string: &str, pos: usize) -> (r: usize) {
        scan::class_find_from(string, false, pos)
    }

    fn skip_over_unchecked(&self, string: &str, pos: usize) -> (r: usize) {
        class_skip_one(string, pos)
    }
}

/// The offset just past the single character at boundary `pos`, or `pos`
/// itself at the end of the text.
fn class_skip_one(string: &str, pos: usize) -> (r: usize)
    requires
        pos <= string.spec_bytes().len(),
        is_char_boundary(string.spec_bytes(), pos as int),
    ensures
        r as int == pos + if pos < string.spec_bytes().len() {
            length_of_first_scalar(
                string.spec_bytes().subrange(pos as int, string.spec_bytes().len() as int),
            )
        } else {
            0
        },
{
    proof {
        lemma_str_bytes_valid(string);
    }
    let h = string.as_bytes();
    if pos >= h.len() {
        pos
    } else {
        let (_, w) = scan::decode_at(h, pos);
        pos + w
    }
}

} // verus!
