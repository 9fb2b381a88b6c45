use restcli::generate::{join_parts, random_boolean, random_password, random_sentences};
use restcli::timestamp::{parse_format, parse_zone, TimestampFormat, Zone};
use restcli::RequestError;

#[test]
fn join_parts_places_separator_between_parts() {
    let parts = vec!["a".to_string(), "b\nc".to_string(), "d".to_string()];
    assert_eq!(join_parts(&parts, ", ", false), "a, b\nc, d");
    assert_eq!(join_parts(&parts, "|", true), "a|b|c|d");
    assert_eq!(join_parts(&vec![], "|", true), "");
    assert_eq!(join_parts(&vec!["one".to_string()], "|", false), "one");
}

#[test]
fn random_boolean_extremes_and_bad_ratio() {
    assert_eq!(random_boolean(0).unwrap(), false);
    assert_eq!(random_boolean(100).unwrap(), true);
    assert!(random_boolean(50).is_ok());
    assert!(matches!(random_boolean(101), Err(RequestError::Template(_, _))));
}

#[test]
fn random_password_length_within_bounds() {
    let p = random_password(16, 32).unwrap();
    assert!((16..=32).contains(&p.chars().count()));
    assert_eq!(random_password(5, 5).unwrap().chars().count(), 5);
    assert!(matches!(random_password(8, 4), Err(RequestError::Template(_, _))));
}

#[test]
fn random_sentences_count_and_bad_bounds() {
    let text = random_sentences(2, 0, 0, "|").unwrap();
    assert_eq!(text.split('|').count(), 2);
    assert!(matches!(random_sentences(1, 3, 2, " "), Err(RequestError::Template(_, _))));
}

#[test]
fn timestamp_formats_are_read() {
    assert_eq!(parse_format("unix"), TimestampFormat::UnixSeconds);
    assert_eq!(parse_format("unix_millis"), TimestampFormat::UnixMillis);
    assert_eq!(parse_format("unix_micros"), TimestampFormat::UnixMicros);
    assert_eq!(parse_format("rfc2822"), TimestampFormat::Rfc2822);
    assert_eq!(parse_format("iso8601"), TimestampFormat::Rfc3339Seconds);
    assert_eq!(parse_format("rfc3339_millis"), TimestampFormat::Rfc3339Millis);
    assert_eq!(parse_format("iso8601_nanos"), TimestampFormat::Rfc3339Nanos);
    assert_eq!(parse_format("%Y-%m-%d"), TimestampFormat::Pattern("%Y-%m-%d".to_string()));
}

#[test]
fn timestamp_zones_are_read() {
    assert!(matches!(parse_zone("utc"), Ok(Zone::Utc)));
    assert!(matches!(parse_zone("local"), Ok(Zone::Local)));
    match parse_zone("+02:00") {
        Ok(Zone::Fixed(z)) => assert_eq!(z.local_minus_utc(), 7200),
        _ => panic!("expected a fixed offset"),
    }
    assert!(matches!(parse_zone("bogus"), Err(RequestError::Template(_, _))));
}
