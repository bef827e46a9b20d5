use counter_service::json::{parse_count_body, render_count_body, render_error_body};

#[test]
fn renders_positive_count() {
    assert_eq!(render_count_body(42), b"{\"count\":42}".to_vec());
}

#[test]
fn renders_zero_and_negative_counts() {
    assert_eq!(render_count_body(0), b"{\"count\":0}".to_vec());
    assert_eq!(render_count_body(-7), b"{\"count\":-7}".to_vec());
}

#[test]
fn renders_extreme_counts() {
    assert_eq!(
        render_count_body(i64::MAX),
        b"{\"count\":9223372036854775807}".to_vec()
    );
    assert_eq!(
        render_count_body(i64::MIN),
        b"{\"count\":-9223372036854775808}".to_vec()
    );
}

#[test]
fn parses_plain_body() {
    assert_eq!(parse_count_body(b"{\"count\":42}"), Some(42));
}

#[test]
fn parses_body_with_whitespace() {
    assert_eq!(parse_count_body(b"  {\n\t\"count\" :\r 42 }  "), Some(42));
}

#[test]
fn parses_negative_and_zero() {
    assert_eq!(parse_count_body(b"{\"count\": -7}"), Some(-7));
    assert_eq!(parse_count_body(b"{\"count\": 0}"), Some(0));
    assert_eq!(parse_count_body(b"{\"count\": -0}"), Some(0));
}

#[test]
fn parses_extreme_counts() {
    assert_eq!(
        parse_count_body(b"{\"count\":9223372036854775807}"),
        Some(i64::MAX)
    );
    assert_eq!(
        parse_count_body(b"{\"count\":-9223372036854775808}"),
        Some(i64::MIN)
    );
}

#[test]
fn rejects_counts_outside_range() {
    assert_eq!(parse_count_body(b"{\"count\":9223372036854775808}"), None);
    assert_eq!(parse_count_body(b"{\"count\":-9223372036854775809}"), None);
    assert_eq!(parse_count_body(b"{\"count\":99999999999999999999999}"), None);
}

#[test]
fn rejects_malformed_bodies() {
    assert_eq!(parse_count_body(b""), None);
    assert_eq!(parse_count_body(b"{}"), None);
    assert_eq!(parse_count_body(b"42"), None);
    assert_eq!(parse_count_body(b"{\"count\"}"), None);
    assert_eq!(parse_count_body(b"{\"count\":}"), None);
    assert_eq!(parse_count_body(b"{\"count\":42"), None);
    assert_eq!(parse_count_body(b"{\"count\":42}}"), None);
    assert_eq!(parse_count_body(b"{\"count\":42} x"), None);
    assert_eq!(parse_count_body(b"{\"count\":\"42\"}"), None);
    assert_eq!(parse_count_body(b"{\"count\":4.2}"), None);
    assert_eq!(parse_count_body(b"{\"count\":-}"), None);
}

#[test]
fn rejects_wrong_or_extra_members() {
    assert_eq!(parse_count_body(b"{\"Count\":1}"), None);
    assert_eq!(parse_count_body(b"{\"counts\":1}"), None);
    assert_eq!(parse_count_body(b"{\"count\":1,\"other\":2}"), None);
}

#[test]
fn rejects_leading_zeros() {
    assert_eq!(parse_count_body(b"{\"count\":042}"), None);
    assert_eq!(parse_count_body(b"{\"count\":-01}"), None);
    assert_eq!(parse_count_body(b"{\"count\":00}"), None);
}

#[test]
fn renders_plain_error_body() {
    assert_eq!(
        render_error_body(b"connection refused"),
        b"{\"error\":\"connection refused\"}".to_vec()
    );
}

#[test]
fn escapes_error_messages() {
    assert_eq!(
        render_error_body(b"a \"quoted\" word"),
        b"{\"error\":\"a \\\"quoted\\\" word\"}".to_vec()
    );
    assert_eq!(
        render_error_body(b"back\\slash"),
        b"{\"error\":\"back\\\\slash\"}".to_vec()
    );
    assert_eq!(
        render_error_body(b"line\nbreak\ttab"),
        b"{\"error\":\"line\\u000abreak\\u0009tab\"}".to_vec()
    );
}
