use slicer::{AsSlicer, NonWhitespacePattern, StrSlicer, Tracker, WhitespacePattern};
use slicer::trackers::LineTracker;

#[test]
fn new_starts_at_zero() {
    let s = StrSlicer::new("This string is being turned into a string slicer.");
    assert_eq!(s.byte_pos(), 0);
    assert!(!s.is_at_end());
    assert_eq!(s.as_str(), "This string is being turned into a string slicer.");
}

#[test]
fn empty_text_is_at_end_immediately() {
    let mut s = "".as_slicer();
    assert!(s.is_at_end());
    assert_eq!(s.cut_off(), None);
    assert_eq!(s.slice_to_end(), None);
    assert_eq!(s.slice_until("x"), None);
    assert_eq!(s.slice_num_chars(0), None);
    assert_eq!(s.slice_line(), None);
}

#[test]
fn cut_off_does_not_move_the_cursor() {
    let mut s = "beepboop".as_slicer();
    s.jump_to(4);
    assert_eq!(s.cut_off(), Some("boop"));
    assert_eq!(s.byte_pos(), 4);
    assert_eq!(s.cut_off(), Some("boop"));
}

#[test]
fn skip_num_chars_steps_over_multibyte_chars() {
    let mut s = "\u{1F337} Tulip!".as_slicer();
    s.skip_num_chars(1);
    assert_eq!(s.cut_off(), Some(" Tulip!"));
    assert_eq!(s.byte_pos(), 4);
}

#[test]
fn slice_num_chars_returns_consumed_chars() {
    let mut s = "\u{1F337} For a period in 1636-1637, tulips were considered extremely valuable."
        .as_slicer();
    assert_eq!(s.slice_num_chars(1), Some("\u{1F337}"));
}

#[test]
fn slice_num_chars_zero_is_empty_but_present() {
    let mut s = "abc".as_slicer();
    assert_eq!(s.slice_num_chars(0), Some(""));
    assert_eq!(s.byte_pos(), 0);
}

#[test]
fn empty_literal_matches_where_text_remains() {
    let mut s = "ab".as_slicer();
    assert!(s.is_next(""));
    assert_eq!(s.skip_over(""), true);
    assert_eq!(s.byte_pos(), 0);
    s.skip_to_end();
    assert!(!s.is_next(""));
}

#[test]
fn skip_until_lands_before_the_pattern() {
    let mut s = "This is a sentence.".as_slicer();
    s.skip_until("sentence");
    assert_eq!(s.byte_pos(), 10);
    assert!(s.is_next("sentence"));
}

#[test]
fn skip_until_missing_pattern_consumes_everything() {
    let mut s = "This is a sentence.".as_slicer();
    s.skip_until("nowhere");
    assert!(s.is_at_end());
}

#[test]
fn skip_until_after_steps_past_the_pattern() {
    let mut s = "This is a sentence.".as_slicer();
    s.skip_until_after("sentence");
    assert!(s.is_next("."));
}

#[test]
fn char_patterns_match_and_skip() {
    let mut s = "a.b".as_slicer();
    assert_eq!(s.slice_until('.'), Some("a"));
    assert!(s.is_next('.'));
    assert_eq!(s.skip_over('.'), true);
    assert_eq!(s.slice_to_end(), Some("b"));
}

#[test]
fn multibyte_char_pattern() {
    let mut s = "one\u{00E9}two".as_slicer();
    s.skip_until('\u{00E9}');
    assert_eq!(s.byte_pos(), 3);
    assert_eq!(s.skip_over('\u{00E9}'), true);
    assert_eq!(s.byte_pos(), 5);
    assert!(s.is_next("two"));
}

#[test]
fn whitespace_skip_and_slice() {
    let mut s = "This is a flower \u{1F339}.".as_slicer();
    s.skip_over("This");
    assert_eq!(s.slice_whitespace(), Some(" "));
    assert!(s.is_next("is"));

    let mut t = "This is a sentence.".as_slicer();
    assert_eq!(t.slice_non_whitespace(), Some("This"));
    t.skip_whitespace();
    assert!(t.is_next("is"));
}

#[test]
fn non_whitespace_skip_stops_at_whitespace() {
    let mut s = "This is a sentence.".as_slicer();
    s.skip_non_whitespace();
    assert!(s.is_next(" is"));
}

#[test]
fn whitespace_pattern_values_match_char_classes() {
    let s = " x".as_slicer();
    assert!(s.is_next(WhitespacePattern));
    assert!(!s.is_next(NonWhitespacePattern));
    let mut t = " x".as_slicer();
    t.skip_until(NonWhitespacePattern);
    assert_eq!(t.byte_pos(), 1);
}

#[test]
fn unicode_whitespace_is_recognized() {
    // U+2003 EM SPACE is three bytes of whitespace
    let mut s = "a\u{2003}b".as_slicer();
    s.skip_non_whitespace();
    assert_eq!(s.byte_pos(), 1);
    assert_eq!(s.slice_whitespace(), Some("\u{2003}"));
    assert!(s.is_next("b"));
}

#[test]
fn jump_to_unchecked_beyond_end_moves_to_end() {
    let mut s = "abc".as_slicer();
    s.jump_to_unchecked(100);
    assert_eq!(s.byte_pos(), 3);
    assert!(s.is_at_end());
}

#[test]
fn skip_over_unchecked_advances_by_the_pattern() {
    let mut s = "123456".as_slicer();
    s.skip_over_unchecked("123");
    assert!(s.is_next("456"));
}

#[test]
fn tracker_accessors_on_line_tracker() {
    let mut s = "Line 1\nLine 2\nLine 3".as_slicer_with_tracker(LineTracker::new());
    s.skip_line();
    assert_eq!(s.tracker().lines(), 1);
    assert_eq!(s.tracker().line_byte_pos(), 6);
    s.skip_line();
    assert_eq!(s.tracker().lines(), 2);
    assert_eq!(s.tracker().line_byte_pos(), 13);
    assert_eq!(s.tracker_pos(), 2);
}

#[test]
fn line_tracker_skip_to_end_counts_all_lines() {
    let mut s = "Line 1\nLine 2\nLine 3".as_slicer_with_tracker(LineTracker::new());
    s.skip_to_end();
    assert_eq!(s.tracker_pos(), 2);
}

#[test]
fn line_tracker_backward_jumps_recount() {
    let mut s = "Line 1\nLine 2\nLine 3".as_slicer_with_tracker(LineTracker::new());
    s.skip_to_end();
    assert_eq!(s.tracker_pos(), 2);
    // short hop back: the tracker subtracts the newlines of the rescanned range
    s.jump_to(14);
    assert_eq!(s.tracker_pos(), 2);
    s.jump_to(7);
    assert_eq!(s.tracker_pos(), 1);
    assert_eq!(s.tracker().line_byte_pos(), 13);
    // long jump back: the tracker recounts from the start of the text
    s.jump_to(0);
    assert_eq!(s.tracker_pos(), 0);
}

#[test]
fn line_tracker_update_called_directly() {
    let mut t = LineTracker::new();
    t.update("a\nb\nc", 0, 4);
    assert_eq!(t.lines(), 2);
    assert_eq!(t.line_byte_pos(), 3);
    assert_eq!(t.pos(), 2);
}

#[test]
fn default_line_tracker_matches_new() {
    let t = LineTracker::default();
    assert_eq!(t.lines(), 0);
    assert_eq!(t.line_byte_pos(), 0);
}

#[test]
fn unit_tracker_reports_unit() {
    let mut s = "ab".as_slicer();
    assert_eq!(s.tracker_pos(), ());
    let _t: &mut () = s.tracker_mut();
    assert_eq!(*s.tracker(), ());
}

#[test]
fn with_tracker_constructor() {
    let mut s = StrSlicer::with_tracker("x\ny", LineTracker::new());
    s.skip_to_end();
    assert_eq!(s.tracker_pos(), 1);
}

#[test]
fn pattern_matching_the_entire_remaining_tail_is_found() {
    // a literal as long as the whole remaining text still matches
    let mut s = "abc".as_slicer();
    assert!(s.is_next("abc"));
    assert_eq!(s.skip_over("abc"), true);
    assert!(s.is_at_end());

    let mut t = "xabc".as_slicer();
    t.jump_to(1);
    assert!(t.is_next("abc"));
    assert_eq!(t.slice_until("abc"), Some(""));
}

#[test]
fn skip_until_after_pattern_at_the_very_end() {
    let mut s = "ab#".as_slicer();
    s.skip_until_after("#");
    assert!(s.is_at_end());
    let mut t = "ab#".as_slicer();
    assert_eq!(t.slice_until_after("#"), Some("ab#"));
}

#[test]
fn consumption_loop_terminates_on_none() {
    let mut s = "a,b,c".as_slicer();
    let mut parts: Vec<&str> = Vec::new();
    while let Some(part) = s.slice_until(",") {
        parts.push(part);
        s.skip_over(",");
    }
    assert_eq!(parts, vec!["a", "b", "c"]);
}
