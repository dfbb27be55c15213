use md_rep::dates::{is_due, Stamp};
use md_rep::index::{parse_line, process_line, render_entry, reschedule, Entry, LineStep, ParsedLine};

fn stamp(secs: i64) -> Stamp {
    Stamp { secs, nanos: 0, offset_secs: 0 }
}

#[test]
fn parse_well_formed_entry() {
    let line = b"2024-01-15T00:00:00+00:00 @ 3 @ notes/chapter1.md";
    match parse_line(line) {
        ParsedLine::Entry(e) => {
            assert_eq!(e.stamp.secs, 1705276800);
            assert_eq!(e.stamp.nanos, 0);
            assert_eq!(e.stamp.offset_secs, 0);
            assert_eq!(e.interval_offset, 3);
            assert_eq!(e.path, b"notes/chapter1.md".to_vec());
        }
        _ => panic!("expected a well-formed entry"),
    }
}

#[test]
fn parse_nonzero_offset_date() {
    let line = b"1996-12-19T16:39:57-08:00 @ -2 @ a.md";
    match parse_line(line) {
        ParsedLine::Entry(e) => {
            assert_eq!(e.stamp.secs, 851042397);
            assert_eq!(e.stamp.offset_secs, -8 * 3600);
            assert_eq!(e.interval_offset, -2);
        }
        _ => panic!("expected a well-formed entry"),
    }
}

#[test]
fn round_trip_serialize_parse_serialize() {
    let line = b"2024-01-15T00:00:00+00:00 @ 3 @ notes/chapter1.md";
    let e = match parse_line(line) {
        ParsedLine::Entry(e) => e,
        _ => panic!("expected a well-formed entry"),
    };
    let once = render_entry(&e).expect("entry must render");
    assert_eq!(once, line.to_vec());
    let e2 = match parse_line(&once) {
        ParsedLine::Entry(e2) => e2,
        _ => panic!("rendered entry must reparse"),
    };
    let twice = render_entry(&e2).expect("reparsed entry must render");
    assert_eq!(twice, once);
}

#[test]
fn round_trip_with_at_sign_in_path() {
    let line = b"2024-01-15T00:00:00+00:00 @ 0 @ notes/a@b.md";
    let e = match parse_line(line) {
        ParsedLine::Entry(e) => e,
        _ => panic!("expected a well-formed entry"),
    };
    assert_eq!(e.path, b"notes/a@b.md".to_vec());
    let once = render_entry(&e).expect("entry must render");
    assert_eq!(once, line.to_vec());
}

#[test]
fn malformed_line_is_kept_verbatim() {
    let now = stamp(1705276800);
    let line = b"no separators on this line";
    match process_line(line, &now) {
        LineStep::KeepMalformed(v) => assert_eq!(v, line.to_vec()),
        _ => panic!("expected the malformed line kept"),
    }
    let one_at = b"2024-01-15T00:00:00+00:00 @ 3";
    match process_line(one_at, &now) {
        LineStep::KeepMalformed(v) => assert_eq!(v, one_at.to_vec()),
        _ => panic!("expected the two-field line kept"),
    }
}

#[test]
fn bad_date_is_kept_verbatim() {
    let now = stamp(1705276800);
    let line = b"yesterday @ 3 @ notes/chapter1.md";
    match process_line(line, &now) {
        LineStep::KeepBadDate(v) => assert_eq!(v, line.to_vec()),
        _ => panic!("expected the bad-date line kept"),
    }
}

#[test]
fn bad_offset_is_fatal() {
    let now = stamp(1705276800);
    let line = b"2024-01-15T00:00:00+00:00 @ 3.5 @ notes/chapter1.md";
    assert!(matches!(process_line(line, &now), LineStep::FatalOffset));
    let too_big = b"2024-01-15T00:00:00+00:00 @ 99999999999999999999 @ a.md";
    assert!(matches!(process_line(too_big, &now), LineStep::FatalOffset));
}

#[test]
fn not_due_entry_is_kept_byte_identical() {
    // last reviewed 2024-01-15, interval 30 days, looking one day later
    let now = stamp(1705276800 + 86400);
    let line = b"2024-01-15T00:00:00+00:00 @ 30 @ notes/chapter1.md";
    match process_line(line, &now) {
        LineStep::KeepNotDue(v) => assert_eq!(v, line.to_vec()),
        _ => panic!("expected the not-due line kept"),
    }
}

#[test]
fn due_entry_is_quizzed() {
    let now = stamp(1705276800 + 3 * 86400);
    let line = b"2024-01-15T00:00:00+00:00 @ 3 @ notes/chapter1.md";
    match process_line(line, &now) {
        LineStep::Quiz(e) => assert_eq!(e.path, b"notes/chapter1.md".to_vec()),
        _ => panic!("expected the due entry quizzed"),
    }
}

#[test]
fn due_exactly_on_the_boundary() {
    let interval: i64 = 5;
    let now = stamp(1700000000);
    let exact = stamp(1700000000 - interval * 86400);
    let one_day_later = stamp(1700000000 - interval * 86400 + 86400);
    assert!(is_due(&now, &exact, interval));
    assert!(!is_due(&now, &one_day_later, interval));
}

#[test]
fn negative_interval_is_immediately_due() {
    let now = stamp(1700000000);
    let last = stamp(1700000000);
    assert!(is_due(&now, &last, 0));
    assert!(is_due(&now, &last, -7));
    assert!(!is_due(&now, &last, 1));
}

#[test]
fn reschedule_adds_delta_and_resets_stamp() {
    let e = Entry { stamp: stamp(1705276800), interval_offset: 3, path: b"a.md".to_vec() };
    let today = stamp(1705536000);
    let n = reschedule(e, 2, &today).expect("no overflow here");
    assert_eq!(n.interval_offset, 5);
    assert_eq!(n.stamp.secs, 1705536000);
    assert_eq!(n.path, b"a.md".to_vec());
}

#[test]
fn reschedule_overflow_is_refused() {
    let e = Entry { stamp: stamp(0), interval_offset: i64::MAX, path: b"a.md".to_vec() };
    let today = stamp(0);
    assert!(reschedule(e, 1, &today).is_none());
}

#[test]
fn render_refuses_out_of_range_stamp() {
    let e = Entry {
        stamp: Stamp { secs: i64::MAX, nanos: 0, offset_secs: 0 },
        interval_offset: 0,
        path: b"a.md".to_vec(),
    };
    assert!(render_entry(&e).is_none());
}

#[test]
fn leap_second_entry_parses_and_rerenders() {
    let line = b"1970-01-01T00:00:60.5+00:00 @ 0 @ a.md";
    let e = match parse_line(line) {
        ParsedLine::Entry(e) => e,
        _ => panic!("a leap-second date is a valid RFC 3339 date"),
    };
    assert_eq!(e.stamp.secs, 59);
    assert_eq!(e.stamp.nanos, 1_500_000_000);
    let rendered = render_entry(&e).expect("a parsed leap second renders");
    match parse_line(&rendered) {
        ParsedLine::Entry(e2) => {
            assert_eq!(e2.stamp.secs, e.stamp.secs);
            assert_eq!(e2.stamp.nanos, e.stamp.nanos);
        }
        _ => panic!("the rendered leap second must reparse"),
    }
}

#[test]
fn render_refuses_leap_nanoseconds_off_a_minute_end() {
    let e = Entry {
        stamp: Stamp { secs: 0, nanos: 1_000_000_000, offset_secs: 0 },
        interval_offset: 0,
        path: b"a.md".to_vec(),
    };
    assert!(render_entry(&e).is_none());
    let on_the_minute_end = Entry {
        stamp: Stamp { secs: 59, nanos: 1_100_000_000, offset_secs: 0 },
        interval_offset: 0,
        path: b"a.md".to_vec(),
    };
    assert!(render_entry(&on_the_minute_end).is_some());
}

#[test]
fn fields_padded_with_any_ascii_whitespace_parse() {
    let line = b"2024-01-15T00:00:00+00:00 @ \x0c3\x0b @ a.md";
    match parse_line(line) {
        ParsedLine::Entry(e) => {
            assert_eq!(e.interval_offset, 3);
            assert_eq!(e.path, b"a.md".to_vec());
        }
        _ => panic!("form-feed and vertical-tab padding trims away"),
    }
}

#[test]
fn fields_padded_with_unicode_whitespace_parse() {
    let line = "2024-01-15T00:00:00+00:00 @\u{00a0}3\u{2003} @\u{3000}a.md".as_bytes();
    match parse_line(line) {
        ParsedLine::Entry(e) => {
            assert_eq!(e.interval_offset, 3);
            assert_eq!(e.path, b"a.md".to_vec());
        }
        _ => panic!("unicode space padding trims away"),
    }
}
