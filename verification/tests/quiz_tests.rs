use md_rep::bytes::split_lines;
use md_rep::matcher::find_blank;
use md_rep::quiz::{is_yes, render_context, score_delta};

#[test]
fn blank_extraction() {
    let b = find_blank(b"Answer is ?[42] units.").expect("one blank on the line");
    assert_eq!(b.prefix, b"Answer is ".to_vec());
    assert_eq!(b.answer, b"42".to_vec());
    assert_eq!(b.suffix, b" units.".to_vec());
}

#[test]
fn escape_stays_inside_the_answer() {
    let b = find_blank(b"x ?[a\\[\\]b] y").expect("one blank on the line");
    assert_eq!(b.answer, b"a\\[\\]b".to_vec());
    assert_eq!(b.prefix, b"x ".to_vec());
    assert_eq!(b.suffix, b" y".to_vec());
}

#[test]
fn only_the_first_blank_is_recognized() {
    let b = find_blank(b"?[one] then ?[two]").expect("a blank on the line");
    assert_eq!(b.answer, b"one".to_vec());
    assert_eq!(b.suffix, b" then ?[two]".to_vec());
}

#[test]
fn unclosed_or_bracketed_blanks_are_ignored() {
    assert!(find_blank(b"no blank here").is_none());
    assert!(find_blank(b"?[never closed").is_none());
    assert!(find_blank(b"?[bad[bracket]").is_none());
    assert!(find_blank(b"").is_none());
}

#[test]
fn failed_open_does_not_hide_a_later_blank() {
    let b = find_blank(b"?[x ?[y]").expect("the second opening closes");
    assert_eq!(b.answer, b"y".to_vec());
}

#[test]
fn yes_no_parsing() {
    assert!(is_yes(b"Y"));
    assert!(is_yes(b" yes \n"));
    assert!(is_yes(b"YES"));
    assert!(!is_yes(b"yeah"));
    assert!(!is_yes(b""));
    assert!(!is_yes(b"no"));
}

#[test]
fn score_aggregation() {
    let grades = vec![true, true, false];
    assert_eq!(score_delta(&grades), 1);
    let none: Vec<bool> = Vec::new();
    assert_eq!(score_delta(&none), 0);
    assert_eq!(score_delta(&vec![false, false]), -2);
}

#[test]
fn split_lines_edges() {
    let lines = split_lines(b"a\r\nb\n");
    assert_eq!(lines, vec![b"a".to_vec(), b"b".to_vec()]);
    assert_eq!(split_lines(b"").len(), 0);
    let lines = split_lines(b"a\n\nb");
    assert_eq!(lines, vec![b"a".to_vec(), b"".to_vec(), b"b".to_vec()]);
}

#[test]
fn context_window_in_the_middle() {
    let lines = split_lines(b"l1\nl2\na ?[x] b\nl4\nl5\nl6");
    let b = find_blank(&lines[2]).expect("blank on the third line");
    let ctx = render_context(&lines, 2, &b);
    assert_eq!(ctx.before, b"  l1  l2".to_vec());
    assert_eq!(ctx.blanked, b"  a ____ b".to_vec());
    assert_eq!(ctx.after, b"  l4  l5".to_vec());
}

#[test]
fn context_window_clamped_at_the_edges() {
    let lines = split_lines(b"?[x]\nl2");
    let b = find_blank(&lines[0]).expect("blank on the first line");
    let ctx = render_context(&lines, 0, &b);
    assert_eq!(ctx.before, b"".to_vec());
    assert_eq!(ctx.blanked, b"  ____".to_vec());
    assert_eq!(ctx.after, b"  l2".to_vec());
    let lines = split_lines(b"l1\n?[x]");
    let b = find_blank(&lines[1]).expect("blank on the last line");
    let ctx = render_context(&lines, 1, &b);
    assert_eq!(ctx.before, b"  l1".to_vec());
    assert_eq!(ctx.after, b"".to_vec());
}

#[test]
fn yes_with_vertical_tab_or_form_feed_padding() {
    assert!(is_yes(b"yes\x0b"));
    assert!(is_yes(b"\x0cY\x0c"));
    assert!(!is_yes(b"y es"));
}

#[test]
fn yes_with_unicode_whitespace_padding() {
    // no-break space, thin space, and ideographic space all trim away
    assert!(is_yes(b"yes\xc2\xa0"));
    assert!(is_yes("\u{2009}Y\u{3000}".as_bytes()));
    assert!(is_yes("\u{0085}yes".as_bytes()));
    assert!(!is_yes("y\u{00a0}es".as_bytes()));
}
