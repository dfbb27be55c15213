use md_rep::numbers::{format_i64, parse_i64};

#[test]
fn format_decimal() {
    assert_eq!(format_i64(0), b"0".to_vec());
    assert_eq!(format_i64(3), b"3".to_vec());
    assert_eq!(format_i64(-5), b"-5".to_vec());
    assert_eq!(format_i64(1204), b"1204".to_vec());
    assert_eq!(format_i64(i64::MAX), b"9223372036854775807".to_vec());
    assert_eq!(format_i64(i64::MIN), b"-9223372036854775808".to_vec());
}

#[test]
fn parse_decimal() {
    assert_eq!(parse_i64(b"0"), Some(0));
    assert_eq!(parse_i64(b"+5"), Some(5));
    assert_eq!(parse_i64(b"-12"), Some(-12));
    assert_eq!(parse_i64(b"007"), Some(7));
    assert_eq!(parse_i64(b"9223372036854775807"), Some(i64::MAX));
    assert_eq!(parse_i64(b"-9223372036854775808"), Some(i64::MIN));
}

#[test]
fn parse_rejects_what_is_no_literal() {
    assert_eq!(parse_i64(b""), None);
    assert_eq!(parse_i64(b"-"), None);
    assert_eq!(parse_i64(b"+"), None);
    assert_eq!(parse_i64(b"12a"), None);
    assert_eq!(parse_i64(b" 3"), None);
    assert_eq!(parse_i64(b"3.5"), None);
}

#[test]
fn parse_rejects_out_of_range() {
    assert_eq!(parse_i64(b"9223372036854775808"), None);
    assert_eq!(parse_i64(b"-9223372036854775809"), None);
    assert_eq!(parse_i64(b"99999999999999999999999999"), None);
}
