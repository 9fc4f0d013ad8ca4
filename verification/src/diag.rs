//! Diagnostics for invalid explicit cursor positions.
//!
//! A checked jump that names an offset beyond the text, or inside a
//! multi-byte character, is a caller error; it is reported with a
//! human-readable message naming the offending index and the text, truncated
//! for display at a character boundary. The spec functions here pin the
//! message contents down exactly.

use vstd::prelude::*;

verus! {

use vstd::utf8::{valid_utf8, is_char_boundary, decode_utf8, encode_utf8_decode_utf8,
    is_char_boundary_start_end_of_seq};
use vstd::string::{StringSliceAdditionalSpecFns, StringExecFns};
use crate::scan;
use crate::scan::{next_boundary, lemma_str_bytes_valid, lemma_scalar_span};

/// The most bytes of the scanned text that a diagnostic displays.
pub const MAX_DISPLAY_LENGTH: usize = 256;

/// The decimal digit character for `d`.
pub open spec fn digit_char(d: int) -> char {
    if d == 0 {
        '0'
    } else if d == 1 {
        '1'
    } else if d == 2 {
        '2'
    } else if d == 3 {
        '3'
    } else if d == 4 {
        '4'
    } else if d == 5 {
        '5'
    } else if d == 6 {
        '6'
    } else if d == 7 {
        '7'
    } else if d == 8 {
        '8'
    } else {
        '9'
    }
}

/// The decimal digits of `n`, most significant first.
pub open spec fn dec_chars(n: nat) -> Seq<char>
    decreases n,
{
    if n < 10 {
        seq![digit_char(n as int)]
    } else {
        dec_chars(n / 10) + seq![digit_char((n % 10) as int)]
    }
}

/// The greatest character boundary at or below `i`.
pub open spec fn prev_boundary(s: Seq<u8>, i: int) -> int
    recommends
        valid_utf8(s),
    decreases i, when 0 <= i
{
    if i <= 0 {
        0
    } else if is_char_boundary(s, i) {
        i
    } else {
        prev_boundary(s, i - 1)
    }
}

/// `prev_boundary` is a boundary at or below `i`, with no boundary strictly
/// between the two.
pub proof fn lemma_prev_boundary(s: Seq<u8>, i: int)
    requires
        valid_utf8(s),
        0 <= i <= s.len(),
    ensures
        ({
            let b = prev_boundary(s, i);
            &&& 0 <= b <= i
            &&& is_char_boundary(s, b)
            &&& forall|j: int| b < j <= i ==> !is_char_boundary(s, j)
        }),
    decreases i,
{
    is_char_boundary_start_end_of_seq(s);
    if i > 0 && !is_char_boundary(s, i) {
        lemma_prev_boundary(s, i - 1);
    }
}

/// The prefix of the text that a diagnostic displays: the whole text when it
/// is short enough, otherwise its longest prefix of at most
/// [`MAX_DISPLAY_LENGTH`] bytes that ends on a character boundary.
pub open spec fn display_prefix(s: Seq<u8>) -> Seq<u8> {
    if s.len() <= MAX_DISPLAY_LENGTH {
        s
    } else {
        s.subrange(0, prev_boundary(s, MAX_DISPLAY_LENGTH as int))
    }
}

/// The suffix marking a truncated display: present exactly when the text was
/// cut.
pub open spec fn display_ellipsis(s: Seq<u8>) -> Seq<char> {
    if s.len() <= MAX_DISPLAY_LENGTH {
        Seq::empty()
    } else {
        "[...]"@
    }
}

/// The diagnostic for a jump beyond the end of the text.
pub open spec fn oob_message(s: Seq<u8>, byte_pos: int) -> Seq<char> {
    "byte index "@ + dec_chars(byte_pos as nat) + " is out of bounds of `"@ + decode_utf8(
        display_prefix(s),
    ) + "`"@ + display_ellipsis(s)
}

/// The diagnostic for a jump into the interior of a multi-byte character: it
/// names the character, quoted, and the byte range the character spans.
pub open spec fn char_boundary_message(s: Seq<u8>, byte_pos: int) -> Seq<char> {
    let cs = prev_boundary(s, byte_pos);
    let ce = next_boundary(s, cs);
    "byte index "@ + dec_chars(byte_pos as nat) + " is not a char boundary; it is inside '"@
        + decode_utf8(s.subrange(cs, ce)) + "' (bytes "@ + dec_chars(cs as nat) + ".."@ + dec_chars(
        ce as nat,
    ) + ") of `"@ + decode_utf8(display_prefix(s)) + "`"@ + display_ellipsis(s)
}

/// The one-character string for the decimal digit `d`.
fn digit_str(d: usize) -> (r: &'static str)
    requires
        d < 10,
    ensures
        r@ == seq![digit_char(d as int)],
{
    let r: &'static str = if d == 0 {
        "0"
    } else if d == 1 {
        "1"
    } else if d == 2 {
        "2"
    } else if d == 3 {
        "3"
    } else if d == 4 {
        "4"
    } else if d == 5 {
        "5"
    } else if d == 6 {
        "6"
    } else if d == 7 {
        "7"
    } else if d == 8 {
        "8"
    } else {
        "9"
    };
    proof {
        reveal_strlit("0");
        reveal_strlit("1");
        reveal_strlit("2");
        reveal_strlit("3");
        reveal_strlit("4");
        reveal_strlit("5");
        reveal_strlit("6");
        reveal_strlit("7");
        reveal_strlit("8");
        reveal_strlit("9");
        assert(r@ =~= seq![digit_char(d as int)]);
    }
    r
}

/// The decimal rendering of `n`.
fn dec_string(n: usize) -> (r: String)
    ensures
        r@ == dec_chars(n as nat),
    decreases n,
{
    if n < 10 {
        String::from_str(digit_str(n))
    } else {
        let mut r = dec_string(n / 10);
        r.append(digit_str(n % 10));
        proof {
            assert(r@ =~= dec_chars(n as nat));
        }
        r
    }
}

/// Truncates the text for display to at most `max` bytes, backing up to a
/// character boundary, and reports whether anything was cut.
pub fn truncate_to_char_boundary<'a>(s: &'a str, max: usize) -> (r: (bool, &'a str))
    ensures
        r.0 == (max < s.spec_bytes().len()),
        !r.0 ==> r.1@ == s@ && r.1.spec_bytes() == s.spec_bytes(),
        r.0 ==> r.1.spec_bytes() == s.spec_bytes().subrange(
            0,
            prev_boundary(s.spec_bytes(), max as int),
        ),
        r.0 ==> r.1@ == decode_utf8(
            s.spec_bytes().subrange(0, prev_boundary(s.spec_bytes(), max as int)),
        ),
{
    let ghost sb = s.spec_bytes();
    proof {
        lemma_str_bytes_valid(s);
    }
    let len = s.as_bytes().len();
    if max >= len {
        (false, s)
    } else {
        let mut m = max;
        while !s.is_char_boundary(m)
            invariant
                m <= max < sb.len(),
                sb == s.spec_bytes(),
                valid_utf8(sb),
                is_char_boundary(sb, 0),
                prev_boundary(sb, max as int) == prev_boundary(sb, m as int),
            decreases m,
        {
            m -= 1;
        }
        proof {
            assert(prev_boundary(sb, m as int) == m);
        }
        (true, scan::substring(s, 0, m))
    }
}

/// Builds the diagnostic for a jump beyond the end of the text.
pub fn jump_oob_fail(string: &str, byte_pos: usize) -> (r: String)
    ensures
        r@ == oob_message(string.spec_bytes(), byte_pos as int),
{
    let (truncated, s_trunc) = truncate_to_char_boundary(string, MAX_DISPLAY_LENGTH);
    let ellipsis: &'static str = if truncated {
        "[...]"
    } else {
        ""
    };
    let num = dec_string(byte_pos);
    let mut r = String::from_str("byte index ");
    r.append(num.as_str());
    r.append(" is out of bounds of `");
    r.append(s_trunc);
    r.append("`");
    r.append(ellipsis);
    proof {
        lemma_str_bytes_valid(string);
        encode_utf8_decode_utf8(string@);
        reveal_strlit("");
        assert(r@ =~= oob_message(string.spec_bytes(), byte_pos as int));
    }
    r
}

/// Builds the diagnostic for a jump into the interior of a multi-byte
/// character.
pub fn jump_char_boundary_fail(string: &str, byte_pos: usize) -> (r: String)
    requires
        byte_pos <= string.spec_bytes().len(),
        !is_char_boundary(string.spec_bytes(), byte_pos as int),
    ensures
        r@ == char_boundary_message(string.spec_bytes(), byte_pos as int),
{
    let ghost sb = string.spec_bytes();
    proof {
        lemma_str_bytes_valid(string);
    }
    let (truncated, s_trunc) = truncate_to_char_boundary(string, MAX_DISPLAY_LENGTH);
    let ellipsis: &'static str = if truncated {
        "[...]"
    } else {
        ""
    };
    // back up to the start of the character that byte_pos sits inside
    let mut char_start = byte_pos;
    while !string.is_char_boundary(char_start)
        invariant
            char_start <= byte_pos <= sb.len(),
            sb == string.spec_bytes(),
            valid_utf8(sb),
            is_char_boundary(sb, 0),
            prev_boundary(sb, byte_pos as int) == prev_boundary(sb, char_start as int),
        decreases char_start,
    {
        char_start -= 1;
    }
    proof {
        assert(prev_boundary(sb, char_start as int) == char_start);
        is_char_boundary_start_end_of_seq(sb);
        assert(byte_pos < sb.len());
        lemma_scalar_span(sb, char_start as int);
    }
    let char_end = match scan::next_char_boundary(string, char_start) {
        Some(j) => j,
        None => string.as_bytes().len(),
    };
    let char_sub = scan::substring(string, char_start, char_end);
    let num = dec_string(byte_pos);
    let start_num = dec_string(char_start);
    let end_num = dec_string(char_end);
    let mut r = String::from_str("byte index ");
    r.append(num.as_str());
    r.append(" is not a char boundary; it is inside '");
    r.append(char_sub);
    r.append("' (bytes ");
    r.append(start_num.as_str());
    r.append("..");
    r.append(end_num.as_str());
    r.append(") of `");
    r.append(s_trunc);
    r.append("`");
    r.append(ellipsis);
    proof {
        encode_utf8_decode_utf8(string@);
        reveal_strlit("");
        assert(r@ =~= char_boundary_message(sb, byte_pos as int));
    }
    r
}

} // verus!
