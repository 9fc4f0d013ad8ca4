//! Byte-level positions, character boundaries, and scanning over UTF-8 text.
//!
//! Every position in this crate is a byte offset into the UTF-8 encoding of
//! the text. This module defines the spec-level notions of stepping over one
//! character, matching a byte pattern at an offset, and character classes,
//! together with the verified scanning routines the cursor is built from.

use vstd::prelude::*;

verus! {

use vstd::utf8::*;
use vstd::string::StringSliceAdditionalSpecFns;

broadcast use vstd::utf8::group_utf8_lib;

/// The character boundary reached by stepping over the character that starts
/// at boundary `i`; the text length when `i` is at or past the end.
pub open spec fn next_boundary(s: Seq<u8>, i: int) -> int
    recommends
        valid_utf8(s),
        is_char_boundary(s, i),
{
    if 0 <= i < s.len() {
        i + length_of_first_scalar(s.subrange(i, s.len() as int))
    } else {
        s.len() as int
    }
}

/// The byte offset reached by stepping forward over up to `n` characters,
/// stopping early at the end of the text.
pub open spec fn advance_chars(s: Seq<u8>, i: int, n: nat) -> int
    recommends
        valid_utf8(s),
        is_char_boundary(s, i),
    decreases n,
{
    if n == 0 || i >= s.len() {
        i
    } else {
        advance_chars(s, next_boundary(s, i), (n - 1) as nat)
    }
}

/// True when the byte sequence `p` occurs in `s` at offset `i` with text
/// remaining at `i`, and the end of the occurrence falls on a character
/// boundary.
pub open spec fn bytes_match_at(p: Seq<u8>, s: Seq<u8>, i: int) -> bool {
    &&& 0 <= i < s.len()
    &&& i + p.len() <= s.len()
    &&& s.subrange(i, i + p.len()) == p
    &&& is_char_boundary(s, i + p.len())
}

/// The Unicode scalar values with the White_Space property.
pub open spec fn is_whitespace_scalar(v: u32) -> bool {
    ||| v == 0x09
    ||| v == 0x0A
    ||| v == 0x0B
    ||| v == 0x0C
    ||| v == 0x0D
    ||| v == 0x20
    ||| v == 0x85
    ||| v == 0xA0
    ||| v == 0x1680
    ||| (0x2000 <= v <= 0x200A)
    ||| v == 0x2028
    ||| v == 0x2029
    ||| v == 0x202F
    ||| v == 0x205F
    ||| v == 0x3000
}

/// True when a character starts at offset `i` and its whitespace test equals
/// `want`: a whitespace character for `true`, any other character for `false`.
pub open spec fn class_match_at(want: bool, s: Seq<u8>, i: int) -> bool {
    &&& 0 <= i < s.len()
    &&& is_char_boundary(s, i)
    &&& is_whitespace_scalar(decode_first_scalar(s.subrange(i, s.len() as int))) == want
}

/// The offset obtained from `b` by dropping trailing newline and carriage
/// return bytes of `s.subrange(a, b)`, but never dropping below `a`.
pub open spec fn line_trim(s: Seq<u8>, a: int, b: int) -> int
    recommends
        0 <= a <= b <= s.len(),
    decreases b - a, when a <= b
{
    if b <= a {
        b
    } else if s[b - 1] == 0x0Au8 || s[b - 1] == 0x0Du8 {
        line_trim(s, a, b - 1)
    } else {
        b
    }
}

/// Trimming drops only trailing newline and carriage return bytes, and the
/// trim point is a character boundary whenever `b` is one.
pub proof fn lemma_line_trim(s: Seq<u8>, a: int, b: int)
    requires
        0 <= a <= b <= s.len(),
        valid_utf8(s),
        is_char_boundary(s, b),
    ensures
        a <= line_trim(s, a, b) <= b,
        is_char_boundary(s, line_trim(s, a, b)),
    decreases b - a,
{
    let e = line_trim(s, a, b);
    if b <= a || !(s[b - 1] == 0x0Au8 || s[b - 1] == 0x0Du8) {
    } else {
        assert(!is_continuation_byte(s[b - 1]));
        assert(is_char_boundary(s, b - 1)) by {
            is_char_boundary_iff_not_is_continuation_byte(s, b - 1);
        }
        lemma_line_trim(s, a, b - 1);
    }
}

/// The character that starts at boundary `i` spans the bytes up to the next
/// boundary: its length is between 1 and 4, the bytes strictly inside the
/// span are continuation bytes and not boundaries, and the span ends on a
/// boundary.
pub proof fn lemma_scalar_span(s: Seq<u8>, i: int)
    requires
        valid_utf8(s),
        is_char_boundary(s, i),
        0 <= i < s.len(),
    ensures
        ({
            let w = length_of_first_scalar(s.subrange(i, s.len() as int));
            &&& 1 <= w <= 4
            &&& i + w <= s.len()
            &&& valid_first_scalar(s.subrange(i, s.len() as int))
            &&& (forall|j: int| i < j < i + w ==> is_continuation_byte(s[j]))
            &&& (forall|j: int| i < j < i + w ==> !is_char_boundary(s, j))
            &&& is_char_boundary(s, i + w)
        }),
{
    let tail = s.subrange(i, s.len() as int);
    assert(valid_utf8(tail) && valid_utf8(s.subrange(0, i))) by {
        valid_utf8_split(s, i);
    }
    assert(tail.len() > 0);
    assert(valid_first_scalar(tail));
    let w = length_of_first_scalar(tail);
    assert(1 <= w <= 4 && w <= tail.len() && (forall|j: int| 0 < j < w ==> is_continuation_byte(
        tail[j],
    ))) by {
        // the leading-byte classes are disjoint ranges, so exactly the
        // branch chosen by the length matches the valid disjunct
        assert(valid_leading_and_continuation_bytes_first_codepoint(tail));
    }
    assert forall|j: int| i < j < i + w implies is_continuation_byte(s[j]) by {
        assert(s[j] == tail[j - i]);
    }
    assert forall|j: int| i < j < i + w implies !is_char_boundary(s, j) by {
        is_char_boundary_iff_not_is_continuation_byte(s, j);
    }
    if i + w == s.len() {
        is_char_boundary_start_end_of_seq(s);
    } else {
        assert(is_char_boundary(tail, w)) by {
            reveal_with_fuel(is_char_boundary, 2);
            assert(pop_first_scalar(tail) == tail.subrange(w, tail.len() as int));
            is_char_boundary_start_end_of_seq(pop_first_scalar(tail));
        }
        assert(!is_continuation_byte(tail[w])) by {
            is_char_boundary_iff_not_is_continuation_byte(tail, w);
        }
        assert(s[i + w] == tail[w]);
        assert(is_char_boundary(s, i + w)) by {
            is_char_boundary_iff_not_is_continuation_byte(s, i + w);
        }
    }
}

/// A boundary of the prefix that ends at boundary `b` is exactly a boundary
/// of the whole text.
pub proof fn lemma_boundary_in_prefix(s: Seq<u8>, b: int, k: int)
    requires
        valid_utf8(s),
        is_char_boundary(s, b),
        0 <= k <= b <= s.len(),
    ensures
        is_char_boundary(s.subrange(0, b), k) == is_char_boundary(s, k),
{
    let pre = s.subrange(0, b);
    assert(valid_utf8(pre)) by {
        valid_utf8_split(s, b);
    }
    if k == b {
        is_char_boundary_start_end_of_seq(pre);
    } else {
        assert(pre[k] == s[k]);
        is_char_boundary_iff_not_is_continuation_byte(pre, k);
        is_char_boundary_iff_not_is_continuation_byte(s, k);
    }
}

/// The bytes of any `&str` are a valid UTF-8 encoding.
pub proof fn lemma_str_bytes_valid(string: &str)
    ensures
        valid_utf8(string.spec_bytes()),
        is_char_boundary(string.spec_bytes(), 0),
        is_char_boundary(string.spec_bytes(), string.spec_bytes().len() as int),
{
    encode_utf8_valid_utf8(string@);
    is_char_boundary_start_end_of_seq(string.spec_bytes());
}

/// The UTF-8 encoding of a single character.
pub fn char_utf8(c: char) -> (r: Vec<u8>)
    ensures
        r@ == encode_utf8(seq![c]),
        valid_utf8(r@),
        1 <= r@.len() <= 4,
{
    let v = c as u32;
    proof {
        char_is_scalar(c);
    }
    let mut r: Vec<u8> = Vec::new();
    if v < 0x80 {
        r.push((v & 0x7F) as u8);
    } else if v < 0x800 {
        r.push(0xC0 | (((v >> 6u32) & 0x1F) as u8));
        r.push(0x80 | ((v & 0x3F) as u8));
    } else if v < 0x10000 {
        r.push(0xE0 | (((v >> 12u32) & 0x0F) as u8));
        r.push(0x80 | (((v >> 6u32) & 0x3F) as u8));
        r.push(0x80 | ((v & 0x3F) as u8));
    } else {
        r.push(0xF0 | (((v >> 18u32) & 0x7) as u8));
        r.push(0x80 | (((v >> 12u32) & 0x3F) as u8));
        r.push(0x80 | (((v >> 6u32) & 0x3F) as u8));
        r.push(0x80 | ((v & 0x3F) as u8));
    }
    proof {
        assert(r@ =~= encode_scalar(v));
        let cs = seq![c];
        assert(encode_utf8(cs) == encode_scalar(cs[0] as u32) + encode_utf8(cs.drop_first()));
        assert(cs.drop_first() =~= Seq::<char>::empty());
        assert(encode_utf8(Seq::<char>::empty()) =~= Seq::<u8>::empty());
        assert(encode_scalar(c as u32) + Seq::<u8>::empty() =~= encode_scalar(c as u32));
        encode_utf8_valid_utf8(cs);
    }
    r
}

/// Reads the Unicode scalar of the character that starts at boundary `i`,
/// returning the scalar value and the character's byte length.
pub fn decode_at(s: &[u8], i: usize) -> (r: (u32, usize))
    requires
        valid_utf8(s@),
        is_char_boundary(s@, i as int),
        i < s@.len(),
    ensures
        r.0 == decode_first_scalar(s@.subrange(i as int, s@.len() as int)),
        r.1 as int == length_of_first_scalar(s@.subrange(i as int, s@.len() as int)),
        1 <= r.1 <= 4,
        i + r.1 <= s@.len(),
        is_char_boundary(s@, i + r.1),
{
    proof {
        lemma_scalar_span(s@, i as int);
        is_char_boundary_iff_not_is_continuation_byte(s@, i as int);
    }
    let ghost tail = s@.subrange(i as int, s@.len() as int);
    proof {
        assert(tail[0] == s@[i as int]);
        assert(valid_leading_and_continuation_bytes_first_codepoint(tail));
    }
    let b0 = s[i];
    if b0 < 0x80 {
        ((b0 & 0x7F) as u32, 1)
    } else if b0 < 0xE0 {
        let b1 = s[i + 1];
        proof {
            assert(tail[1] == s@[i + 1]);
        }
        ((((b0 & 0x1F) as u32) << 6u32) | ((b1 & 0x3F) as u32), 2)
    } else if b0 < 0xF0 {
        let b1 = s[i + 1];
        let b2 = s[i + 2];
        proof {
            assert(tail[1] == s@[i + 1] && tail[2] == s@[i + 2]);
        }
        ((((b0 & 0x0F) as u32) << 12u32) | (((b1 & 0x3F) as u32) << 6u32) | ((b2 & 0x3F) as u32), 3)
    } else {
        let b1 = s[i + 1];
        let b2 = s[i + 2];
        let b3 = s[i + 3];
        proof {
            assert(tail[1] == s@[i + 1] && tail[2] == s@[i + 2] && tail[3] == s@[i + 3]);
        }
        (
            (((b0 & 0x07) as u32) << 18u32) | (((b1 & 0x3F) as u32) << 12u32) | (((b2
                & 0x3F) as u32) << 6u32) | ((b3 & 0x3F) as u32),
            4,
        )
    }
}

/// Decides the whitespace test for a Unicode scalar value.
pub fn is_whitespace_value(v: u32) -> (r: bool)
    ensures
        r == is_whitespace_scalar(v),
{
    v == 0x09 || v == 0x0A || v == 0x0B || v == 0x0C || v == 0x0D || v == 0x20 || v == 0x85 || v
        == 0xA0 || v == 0x1680 || (0x2000 <= v && v <= 0x200A) || v == 0x2028 || v == 0x2029 || v
        == 0x202F || v == 0x205F || v == 0x3000
}

/// Compares the bytes of `h` starting at `at` against all of `p`.
pub fn bytes_equal_at(h: &[u8], p: &[u8], at: usize) -> (r: bool)
    requires
        at + p@.len() <= h@.len(),
    ensures
        r == (h@.subrange(at as int, at + p@.len()) == p@),
{
    let ghost win = h@.subrange(at as int, at + p@.len());
    let hlen = h.len();
    let plen = p.len();
    let mut j: usize = 0;
    while j < plen
        invariant
            j <= p@.len(),
            plen == p@.len(),
            hlen == h@.len(),
            at + p@.len() <= h@.len(),
            win == h@.subrange(at as int, at + p@.len()),
            forall|t: int| 0 <= t < j ==> h@[at + t] == p@[t],
        decreases p@.len() - j,
    {
        if h[at + j] != p[j] {
            proof {
                assert(win[j as int] == h@[at + j]);
            }
            return false;
        }
        j += 1;
    }
    proof {
        assert(win =~= p@);
    }
    true
}

/// Tests whether the byte pattern `p` matches the text at offset `pos`.
pub fn bytes_is_next(string: &str, p: &[u8], pos: usize) -> (r: bool)
    requires
        pos <= string.spec_bytes().len(),
    ensures
        r == bytes_match_at(p@, string.spec_bytes(), pos as int),
{
    let ghost s = string.spec_bytes();
    let h = string.as_bytes();
    let len = h.len();
    if pos >= len {
        return false;
    }
    if p.len() > len - pos {
        return false;
    }
    let e = pos + p.len();
    if !string.is_char_boundary(e) {
        return false;
    }
    bytes_equal_at(h, p, pos)
}

/// Finds the first offset at or after `pos` where the byte pattern `p`
/// matches, returning the text length when there is no match.
pub fn bytes_find_from(string: &str, p: &[u8], pos: usize) -> (r: usize)
    requires
        pos <= string.spec_bytes().len(),
        is_char_boundary(string.spec_bytes(), pos as int),
        valid_utf8(p@),
    ensures
        pos <= r <= string.spec_bytes().len(),
        forall|j: int| pos <= j < r ==> !bytes_match_at(p@, string.spec_bytes(), j),
        r < string.spec_bytes().len() ==> bytes_match_at(p@, string.spec_bytes(), r as int),
        is_char_boundary(string.spec_bytes(), r as int),
{
    let ghost s = string.spec_bytes();
    proof {
        lemma_str_bytes_valid(string);
    }
    let len = string.as_bytes().len();
    let mut k = pos;
    while k < len
        invariant
            pos <= k <= len,
            len == s.len(),
            s == string.spec_bytes(),
            pos <= s.len(),
            valid_utf8(s),
            valid_utf8(p@),
            is_char_boundary(s, pos as int),
            forall|j: int| pos <= j < k ==> !bytes_match_at(p@, s, j),
        decreases len - k,
    {
        if bytes_is_next(string, p, k) {
            proof {
                if p@.len() == 0 {
                    assert(is_char_boundary(s, k as int));
                } else {
                    assert(s[k as int] == p@[0]) by {
                        assert(s.subrange(k as int, k + p@.len())[0] == s[k as int]);
                    }
                    assert(!is_continuation_byte(p@[0])) by {
                        is_char_boundary_start_end_of_seq(p@);
                        is_char_boundary_iff_not_is_continuation_byte(p@, 0);
                    }
                    is_char_boundary_iff_not_is_continuation_byte(s, k as int);
                }
            }
            return k;
        }
        k += 1;
    }
    proof {
        is_char_boundary_start_end_of_seq(s);
    }
    k
}

/// Tests whether the character at offset `pos` satisfies the whitespace
/// class test `want`; false at the end of the text.
pub fn class_is_next(string: &str, want: bool, pos: usize) -> (r: bool)
    requires
        pos <= string.spec_bytes().len(),
        is_char_boundary(string.spec_bytes(), pos as int),
    ensures
        r == class_match_at(want, string.spec_bytes(), pos as int),
{
    proof {
        lemma_str_bytes_valid(string);
    }
    let h = string.as_bytes();
    if pos >= h.len() {
        return false;
    }
    let (v, _) = decode_at(h, pos);
    is_whitespace_value(v) == want
}

/// Finds the first boundary at or after `pos` whose character satisfies the
/// whitespace class test `want`, returning the text length when none does.
pub fn class_find_from(string: &str, want: bool, pos: usize) -> (r: usize)
    requires
        pos <= string.spec_bytes().len(),
        is_char_boundary(string.spec_bytes(), pos as int),
    ensures
        pos <= r <= string.spec_bytes().len(),
        forall|j: int| pos <= j < r ==> !class_match_at(want, string.spec_bytes(), j),
        r < string.spec_bytes().len() ==> class_match_at(want, string.spec_bytes(), r as int),
        is_char_boundary(string.spec_bytes(), r as int),
{
    let ghost s = string.spec_bytes();
    proof {
        lemma_str_bytes_valid(string);
    }
    let h = string.as_bytes();
    let len = h.len();
    let mut k = pos;
    while k < len
        invariant
            pos <= k <= len,
            len == s.len(),
            s == string.spec_bytes(),
            h@ == s,
            valid_utf8(s),
            is_char_boundary(s, k as int),
            forall|j: int| pos <= j < k ==> !class_match_at(want, s, j),
        decreases len - k,
    {
        let (v, w) = decode_at(h, k);
        if is_whitespace_value(v) == want {
            return k;
        }
        proof {
            lemma_scalar_span(s, k as int);
            assert forall|j: int| k < j < k + w implies !class_match_at(want, s, j) by {
                assert(!is_char_boundary(s, j));
            }
        }
        k += w;
    }
    k
}

/// The next character boundary strictly after `byte_pos`, or nothing when no
/// boundary lies strictly between `byte_pos` and the end of the text.
pub fn next_char_boundary(string: &str, byte_pos: usize) -> (r: Option<usize>)
    requires
        byte_pos <= string.spec_bytes().len(),
        is_char_boundary(string.spec_bytes(), byte_pos as int),
    ensures
        ({
            let nb = next_boundary(string.spec_bytes(), byte_pos as int);
            match r {
                Some(j) => j as int == nb && nb < string.spec_bytes().len(),
                None => nb == string.spec_bytes().len(),
            }
        }),
{
    let ghost s = string.spec_bytes();
    proof {
        lemma_str_bytes_valid(string);
    }
    let len = string.as_bytes().len();
    if byte_pos >= len {
        return None;
    }
    proof {
        lemma_scalar_span(s, byte_pos as int);
    }
    let ghost nb = next_boundary(s, byte_pos as int);
    let mut next = byte_pos + 1;
    while next < len && !string.is_char_boundary(next)
        invariant
            byte_pos < next <= nb <= len,
            len == s.len(),
            s == string.spec_bytes(),
            valid_utf8(s),
            nb == next_boundary(s, byte_pos as int),
            is_char_boundary(s, nb),
            forall|j: int| byte_pos < j < nb ==> !is_char_boundary(s, j),
        decreases len - next,
    {
        next += 1;
    }
    if next >= len {
        None
    } else {
        Some(next)
    }
}

/// The byte offset reached by stepping over up to `num` characters starting
/// from boundary `pos`.
pub fn chars_target(string: &str, pos: usize, num: usize) -> (r: usize)
    requires
        pos <= string.spec_bytes().len(),
        is_char_boundary(string.spec_bytes(), pos as int),
    ensures
        r as int == advance_chars(string.spec_bytes(), pos as int, num as nat),
        is_char_boundary(string.spec_bytes(), r as int),
        pos <= r <= string.spec_bytes().len(),
{
    let ghost s = string.spec_bytes();
    proof {
        lemma_str_bytes_valid(string);
    }
    let len = string.as_bytes().len();
    let mut q = pos;
    let mut k = num;
    while k > 0 && q < len
        invariant
            pos <= q <= len,
            len == s.len(),
            s == string.spec_bytes(),
            valid_utf8(s),
            is_char_boundary(s, q as int),
            advance_chars(s, pos as int, num as nat) == advance_chars(s, q as int, k as nat),
        decreases k,
    {
        proof {
            lemma_scalar_span(s, q as int);
        }
        q = match next_char_boundary(string, q) {
            Some(j) => j,
            None => len,
        };
        k -= 1;
    }
    q
}

/// The offset obtained from `b` by dropping trailing newline and carriage
/// return bytes, but never dropping below `a`.
pub fn line_trim_end(string: &str, a: usize, b: usize) -> (r: usize)
    requires
        a <= b <= string.spec_bytes().len(),
    ensures
        r as int == line_trim(string.spec_bytes(), a as int, b as int),
        a <= r <= b,
{
    let ghost s = string.spec_bytes();
    let h = string.as_bytes();
    let mut e = b;
    while e > a && (h[e - 1] == 0x0A || h[e - 1] == 0x0D)
        invariant
            a <= e <= b <= s.len(),
            h@ == s,
            line_trim(s, a as int, b as int) == line_trim(s, a as int, e as int),
        decreases e,
    {
        e -= 1;
    }
    e
}

/// Borrows the substring of `string` between byte offsets `a` and `b`, both
/// of which must lie on character boundaries.
pub fn substring<'a>(string: &'a str, a: usize, b: usize) -> (r: &'a str)
    requires
        a <= b,
        b <= string.spec_bytes().len(),
        is_char_boundary(string.spec_bytes(), a as int),
        is_char_boundary(string.spec_bytes(), b as int),
    ensures
        r.spec_bytes() == string.spec_bytes().subrange(a as int, b as int),
        r@ == decode_utf8(string.spec_bytes().subrange(a as int, b as int)),
{
    let ghost s = string.spec_bytes();
    proof {
        lemma_str_bytes_valid(string);
    }
    let (pre, _) = string.split_at(b);
    proof {
        lemma_boundary_in_prefix(s, b as int, a as int);
        assert(pre.spec_bytes() =~= s.subrange(0, b as int));
    }
    let (_, r) = pre.split_at(a);
    proof {
        assert(r.spec_bytes() =~= s.subrange(a as int, b as int));
        assert(valid_utf8(r.spec_bytes())) by {
            lemma_str_bytes_valid(r);
        }
        assert(r@ == decode_utf8(s.subrange(a as int, b as int))) by {
            encode_utf8_decode_utf8(r@);
        }
    }
    r
}

} // verus!
