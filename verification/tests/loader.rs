use nn_classifier::parse::{parse_i64, parse_record, MalformedRecordError};

#[test]
fn parse_i64_plain_and_signed() {
    assert_eq!(parse_i64(b"0"), Some(0));
    assert_eq!(parse_i64(b"42"), Some(42));
    assert_eq!(parse_i64(b"-17"), Some(-17));
    assert_eq!(parse_i64(b"+42"), Some(42));
    assert_eq!(parse_i64(b"007"), Some(7));
}

#[test]
fn parse_i64_rejects_malformed_fields() {
    assert_eq!(parse_i64(b""), None);
    assert_eq!(parse_i64(b"-"), None);
    assert_eq!(parse_i64(b"+"), None);
    assert_eq!(parse_i64(b"1x2"), None);
    assert_eq!(parse_i64(b" 1"), None);
    assert_eq!(parse_i64(b"1 "), None);
    assert_eq!(parse_i64(b"--1"), None);
}

#[test]
fn parse_i64_handles_the_ends_of_the_range() {
    assert_eq!(parse_i64(b"9223372036854775807"), Some(i64::MAX));
    assert_eq!(parse_i64(b"-9223372036854775808"), Some(i64::MIN));
    assert_eq!(parse_i64(b"9223372036854775808"), None);
    assert_eq!(parse_i64(b"-9223372036854775809"), None);
    assert_eq!(parse_i64(b"1000000000000000000000000"), None);
}

#[test]
fn parse_record_splits_label_and_pixels() {
    let rec = parse_record(b"5,1,2,3").unwrap();
    assert_eq!(rec.label, 5);
    assert_eq!(rec.pixels, vec![1, 2, 3]);
}

#[test]
fn parse_record_accepts_negative_fields_and_lone_label() {
    let rec = parse_record(b"-1,-2,30").unwrap();
    assert_eq!(rec.label, -1);
    assert_eq!(rec.pixels, vec![-2, 30]);
    let lone = parse_record(b"8").unwrap();
    assert_eq!(lone.label, 8);
    assert!(lone.pixels.is_empty());
}

#[test]
fn parse_record_rejects_malformed_lines() {
    assert!(matches!(parse_record(b""), Err(MalformedRecordError)));
    assert!(matches!(parse_record(b"1,a,3"), Err(MalformedRecordError)));
    assert!(matches!(parse_record(b"1,,3"), Err(MalformedRecordError)));
    assert!(matches!(parse_record(b"1,2,"), Err(MalformedRecordError)));
    assert!(matches!(parse_record(b",1"), Err(MalformedRecordError)));
    assert!(matches!(parse_record(b"1, 2"), Err(MalformedRecordError)));
}
