//! The token record's wire form: canonical text, round trips, and agreement
//! with an independent JSON reader.

use humus_terra::wire::emit_token_record;
use humus_terra::wire::parse_token_record;

#[test]
fn emit_parse_round_trip() {
    let text = emit_token_record("alice", 12345, -7);
    let parsed = parse_token_record(&text).expect("canonical text must parse");
    assert_eq!(parsed.0, "alice");
    assert_eq!(parsed.1, 12345);
    assert_eq!(parsed.2, -7);
}

#[test]
fn emit_parse_round_trip_extremes() {
    let text = emit_token_record("", i64::MIN, i64::MAX);
    let parsed = parse_token_record(&text).expect("canonical text must parse");
    assert_eq!(parsed.0, "");
    assert_eq!(parsed.1, i64::MIN);
    assert_eq!(parsed.2, i64::MAX);
}

#[test]
fn emit_canonical_text() {
    let text = emit_token_record("ab", 5, 0);
    let text = String::from_utf8(text).expect("the record text is ASCII");
    assert_eq!(text, "{\"who\":\"\\u0061\\u0062\",\"timestamp\":5,\"nonce\":0}");
}

#[test]
fn emitted_text_is_json() {
    let text = emit_token_record("caf\u{e9} \u{1F980}/\"\\", -3, 99);
    let text = String::from_utf8(text).expect("the record text is ASCII");
    let value: serde_json::Value = serde_json::from_str(&text).expect("the record text is JSON");
    assert_eq!(
        value.get("who").and_then(|v| v.as_str()),
        Some("caf\u{e9} \u{1F980}/\"\\")
    );
    assert_eq!(value.get("timestamp").and_then(|v| v.as_i64()), Some(-3));
    assert_eq!(value.get("nonce").and_then(|v| v.as_i64()), Some(99));
}

#[test]
fn parse_accepts_unescaped_subject() {
    let text = b"{\"who\":\"a\",\"timestamp\":5,\"nonce\":0}".to_vec();
    let parsed = parse_token_record(&text).expect("plain JSON spelling is accepted");
    assert_eq!(parsed.0, "a");
    assert_eq!(parsed.1, 5);
    assert_eq!(parsed.2, 0);
}

#[test]
fn parse_accepts_raw_utf8_subject() {
    let text = format!(
        "{{\"who\":\"{}\",\"timestamp\":{},\"nonce\":{}}}",
        "caf\u{e9} \u{1F980}", -3, 99
    );
    let parsed = parse_token_record(&text.into_bytes()).expect("raw UTF-8 is accepted");
    assert_eq!(parsed.0, "caf\u{e9} \u{1F980}");
    assert_eq!(parsed.1, -3);
    assert_eq!(parsed.2, 99);
}

#[test]
fn parse_accepts_standard_escapes() {
    let text = b"{\"who\":\"a\\\"b\\\\c\\/d\\n\\t\\u0041\",\"timestamp\":0,\"nonce\":0}".to_vec();
    let parsed = parse_token_record(&text).expect("standard escapes are accepted");
    assert_eq!(parsed.0, "a\"b\\c/d\n\tA");
}

#[test]
fn parse_accepts_whitespace() {
    let text = b" { \"who\" : \"x\" , \"timestamp\" : 1 , \"nonce\" : 2 } ".to_vec();
    let parsed = parse_token_record(&text).expect("JSON whitespace is accepted");
    assert_eq!(parsed.0, "x");
    assert_eq!(parsed.1, 1);
    assert_eq!(parsed.2, 2);
}

#[test]
fn parse_rejects_lone_surrogate() {
    let text = b"{\"who\":\"\\ud800\",\"timestamp\":0,\"nonce\":0}".to_vec();
    assert!(parse_token_record(&text).is_none());
}

#[test]
fn parse_rejects_invalid_utf8() {
    let mut text = b"{\"who\":\"".to_vec();
    text.push(0xC0);
    text.push(0xAF);
    text.extend_from_slice(b"\",\"timestamp\":0,\"nonce\":0}");
    assert!(parse_token_record(&text).is_none());
}

#[test]
fn parse_rejects_unescaped_control_byte() {
    let mut text = b"{\"who\":\"".to_vec();
    text.push(0x07);
    text.extend_from_slice(b"\",\"timestamp\":0,\"nonce\":0}");
    assert!(parse_token_record(&text).is_none());
}

#[test]
fn parse_rejects_leading_zero() {
    let text = b"{\"who\":\"\",\"timestamp\":05,\"nonce\":0}".to_vec();
    assert!(parse_token_record(&text).is_none());
}

#[test]
fn parse_accepts_negative_zero() {
    let text = b"{\"who\":\"\",\"timestamp\":-0,\"nonce\":0}".to_vec();
    let parsed = parse_token_record(&text).expect("-0 is valid JSON");
    assert_eq!(parsed.1, 0);
}

#[test]
fn parse_rejects_trailing_bytes() {
    let mut text = emit_token_record("a", 1, 2);
    text.push(b'x');
    assert!(parse_token_record(&text).is_none());
    let mut text = emit_token_record("a", 1, 2);
    text.push(b' ');
    assert!(parse_token_record(&text).is_some());
}

#[test]
fn parse_requires_record_key_order() {
    let text = b"{\"timestamp\":5,\"who\":\"\",\"nonce\":0}".to_vec();
    assert!(parse_token_record(&text).is_none());
}

#[test]
fn parse_rejects_out_of_range_timestamp() {
    let text = b"{\"who\":\"\",\"timestamp\":9223372036854775808,\"nonce\":0}".to_vec();
    assert!(parse_token_record(&text).is_none());
}

#[test]
fn parse_accepts_boundary_timestamps() {
    let text = emit_token_record("x", -9223372036854775808, 9223372036854775807);
    let parsed = parse_token_record(&text).expect("canonical text must parse");
    assert_eq!(parsed.1, i64::MIN);
    assert_eq!(parsed.2, i64::MAX);
}
