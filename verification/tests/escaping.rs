use kvjson::classify::classify;
use kvjson::classify::Brace;
use kvjson::classify::ParsedLine;
use kvjson::escape::escape_string;

#[test]
fn clean_content_is_unchanged() {
    // Escaping is idempotent on clean ASCII: no backslash, quote or slash
    // means the token comes back as it went in.
    assert_eq!(escape_string(b"\"abc def 123\""), b"\"abc def 123\"".to_vec());
    assert_eq!(escape_string(b"\"\""), b"\"\"".to_vec());
}

#[test]
fn quotes_and_backslashes_are_escaped() {
    // Raw token content a"b\c gains a backslash before the quote and the
    // backslash.
    assert_eq!(
        escape_string(b"\"a\"b\\c\""),
        b"\"a\\\"b\\\\c\"".to_vec()
    );
}

#[test]
fn forward_slash_is_escaped() {
    assert_eq!(escape_string(b"\"a/b\""), b"\"a\\/b\"".to_vec());
}

#[test]
fn escaped_output_decodes_back_to_original() {
    // Round trip through a standard JSON string decoder.
    let escaped = escape_string(b"\"a\"b\\c/d\"");
    let literal = String::from_utf8(escaped).expect("escaped output is UTF-8");
    let decoded: String = serde_json::from_str(&literal).expect("must be a valid JSON string");
    assert_eq!(decoded, "a\"b\\c/d");
}

#[test]
fn pipeline_round_trips_embedded_quotes() {
    let text = "\"k\" \"a\"b\\c\"";
    let out = kvjson::aggregate::convert_single(text.as_bytes(), false)
        .expect("conversion should succeed");
    let out = String::from_utf8(out).expect("output is UTF-8");
    let parsed: serde_json::Value = serde_json::from_str(&out).expect("output must parse");
    assert_eq!(parsed["k"], "a\"b\\c");
}

#[test]
fn classify_key_value_line() {
    let r = classify(b"\t\"key\" \"value with spaces\"");
    assert!(matches!(
        r,
        ParsedLine::KeyValue(k, v) if k == b"\"key\"".to_vec() && v == b"\"value with spaces\"".to_vec()
    ));
}

#[test]
fn classify_empty_value() {
    let r = classify(b"\"key\" \"\"");
    assert!(matches!(
        r,
        ParsedLine::KeyValue(k, v) if k == b"\"key\"".to_vec() && v == b"\"\"".to_vec()
    ));
}

#[test]
fn classify_topic_candidate() {
    let r = classify(b"Some Topic Header");
    assert!(matches!(r, ParsedLine::Topic(t) if t == b"Some Topic Header".to_vec()));
}

#[test]
fn classify_lone_key() {
    let r = classify(b"\t\"Tokens\"");
    assert!(matches!(r, ParsedLine::KeyOnly(k) if k == b"\"Tokens\"".to_vec()));
}

#[test]
fn classify_braces() {
    assert!(matches!(classify(b"{"), ParsedLine::BraceTok(Brace::OpenObj)));
    assert!(matches!(classify(b"\t}"), ParsedLine::BraceTok(Brace::CloseObj)));
    assert!(matches!(classify(b"["), ParsedLine::BraceTok(Brace::OpenArr)));
    assert!(matches!(classify(b"]"), ParsedLine::BraceTok(Brace::CloseArr)));
}

#[test]
fn classify_comment_and_noise() {
    assert!(matches!(classify(b"  // comment"), ParsedLine::Ignored));
    assert!(matches!(classify(b"\"unclosed"), ParsedLine::Ignored));
    assert!(matches!(classify(b""), ParsedLine::Ignored));
}

#[test]
fn key_value_wins_over_topic() {
    // Precedence: a line that could read as plain content is a key/value
    // pair when the pair pattern matches first.
    let r = classify(b"\"a\" \"b\"");
    assert!(matches!(r, ParsedLine::KeyValue(_, _)));
}
