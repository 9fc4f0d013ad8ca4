use slicer::AsSlicer;
use slicer::trackers::LineTracker;

#[test]
fn path_components() {
    let path = "images/cat.jpeg";
    let mut s = path.as_slicer();

    assert_eq!(s.slice_until("/"), Some("images"));
    assert_eq!(s.skip_over("/"), true);
    assert_eq!(s.slice_until("."), Some("cat"));
    assert_eq!(s.skip_over("."), true);
    assert_eq!(s.slice_to_end(), Some("jpeg"));
}

#[test]
fn line_tracker_counts_two_skipped_lines() {
    let mut s = "Line 1\nLine 2\nLine 3".as_slicer_with_tracker(LineTracker::new());
    s.skip_line();
    s.skip_line();
    assert_eq!(s.tracker_pos(), 2);
    assert!(s.is_next("Line 3"));
}

#[test]
fn skip_over_literal_or_stay_put() {
    let mut s = "123456".as_slicer();
    assert_eq!(s.skip_over("123"), true);
    assert_eq!(s.is_next("456"), true);

    let mut t = "123456".as_slicer();
    assert_eq!(t.skip_over("999"), false);
    assert_eq!(t.byte_pos(), 0);
    assert_eq!(t.is_next("123"), true);
}

#[test]
fn slice_line_strips_newlines_and_ends_with_none() {
    let mut s = "Line 1\nLine 2\nLine 3".as_slicer();
    assert_eq!(s.slice_line(), Some("Line 1"));
    assert_eq!(s.slice_line(), Some("Line 2"));
    assert_eq!(s.slice_line(), Some("Line 3"));
    assert_eq!(s.slice_line(), None);
}

#[test]
fn slice_line_strips_carriage_returns() {
    let mut s = "alpha\r\nbeta\nlast".as_slicer();
    assert_eq!(s.slice_line(), Some("alpha"));
    assert_eq!(s.slice_line(), Some("beta"));
    assert_eq!(s.slice_line(), Some("last"));
    assert_eq!(s.slice_line(), None);
}

#[test]
fn jump_then_read_byte_pos() {
    let mut s = "Violets are the best flower.".as_slicer();
    s.jump_to(5);
    assert_eq!(s.byte_pos(), 5);
    s.jump_to(0);
    assert_eq!(s.byte_pos(), 0);
}

#[test]
fn slice_to_end_returns_tail_once() {
    let mut s = "This is a very long string that we just want to skip over entirely.".as_slicer();
    s.skip_until_after("skip over");
    assert_eq!(s.slice_to_end(), Some(" entirely."));
    assert_eq!(s.slice_to_end(), None);
    assert!(s.is_at_end());
}

#[test]
fn slice_until_returns_prefix_and_pattern_is_next() {
    let mut s = "This is a sentence.".as_slicer();
    assert_eq!(s.slice_until("sentence"), Some("This is a "));
    assert!(s.is_next("sentence"));
}

#[test]
fn slice_until_after_is_longer_by_the_pattern() {
    let mut a = "This is a sentence.".as_slicer();
    let until = a.slice_until("sentence").unwrap();

    let mut b = "This is a sentence.".as_slicer();
    let until_after = b.slice_until_after("sentence").unwrap();

    assert_eq!(until_after.len(), until.len() + "sentence".len());
    assert!(b.is_next("."));
    assert_eq!(b.byte_pos(), until.len() + "sentence".len());
}

#[test]
fn slice_num_chars_stops_at_end_without_error() {
    let mut s = "ab\u{1F337}".as_slicer();
    assert_eq!(s.slice_num_chars(10), Some("ab\u{1F337}"));
    assert!(s.is_at_end());
    assert_eq!(s.slice_num_chars(1), None);
}

#[test]
fn jump_inside_multibyte_char_fails_with_diagnostic() {
    // the hibiscus emoji is 4 bytes long, so offset 2 is inside it
    let text = "\u{1F33A} is a hibiscus.";
    let mut s = text.as_slicer();
    let err = s.try_jump_to(2).unwrap_err();
    assert_eq!(
        err,
        "byte index 2 is not a char boundary; it is inside '\u{1F33A}' (bytes 0..4) of `\u{1F33A} is a hibiscus.`"
    );
    assert_eq!(s.byte_pos(), 0);

    // a boundary offset succeeds and never rounds
    assert_eq!(s.try_jump_to(4), Ok(()));
    assert_eq!(s.byte_pos(), 4);
}

#[test]
fn jump_out_of_bounds_fails_with_diagnostic() {
    let mut s = "beep".as_slicer();
    let err = s.try_jump_to(99).unwrap_err();
    assert_eq!(err, "byte index 99 is out of bounds of `beep`");
    assert_eq!(s.byte_pos(), 0);
    assert_eq!(s.try_jump_to(4), Ok(()));
    assert!(s.is_at_end());
}

#[test]
fn long_text_diagnostic_is_truncated() {
    let text: String = std::iter::repeat('a').take(300).collect();
    let mut s = text.as_str().as_slicer();
    let err = s.try_jump_to(301).unwrap_err();
    let mut expected = String::from("byte index 301 is out of bounds of `");
    for _ in 0..256 {
        expected.push('a');
    }
    expected.push('`');
    expected.push_str("[...]");
    assert_eq!(err, expected);
}

#[test]
fn truncation_backs_up_to_a_char_boundary() {
    // 100 three-byte characters: 300 bytes; byte 256 is interior, the
    // nearest boundary below is 255
    let text: String = std::iter::repeat('\u{3042}').take(100).collect();
    let (truncated, shown) = slicer::diag::truncate_to_char_boundary(text.as_str(), 256);
    assert!(truncated);
    assert_eq!(shown.len(), 255);
    assert_eq!(shown.chars().count(), 85);
}
