use chrono::DateTime;
use ficus::event_log::standard_lifecycle::XesStandardLifecycle;
use ficus::event_log::xes::xes_event_log::EventPayloadValue;
use ficus::utils::decimal::parse_i64;
use ficus::event_log::xes::reader::utils::{
    extract_payload_value, extract_key_value, key_value_of, payload_tag_descriptor, read_attr_value, read_payload_like_tag, tag_name_len,
};

#[test]
fn test_extract_key_value_from_tag() {
    let pair = extract_key_value(r#"string key="concept:name" value="a b""#);
    assert_eq!(pair.key, Some("concept:name".to_string()));
    assert_eq!(pair.value, Some("a b".to_string()));
}

#[test]
fn test_extract_key_value_missing_value() {
    let pair = extract_key_value(r#"date key="time:timestamp""#);
    assert_eq!(pair.key, Some("time:timestamp".to_string()));
    assert_eq!(pair.value, None);
}

#[test]
fn test_extract_key_value_no_attributes() {
    let pair = extract_key_value("trace");
    assert_eq!(pair.key, None);
    assert_eq!(pair.value, None);
}

#[test]
fn test_tag_name_len_stops_at_whitespace() {
    assert_eq!(tag_name_len("string\tkey=\"a\""), 6);
    assert_eq!(tag_name_len("log"), 3);
    assert_eq!(tag_name_len(""), 0);
}

#[test]
fn test_key_value_of_skips_bad_entries_and_keeps_the_last() {
    let attributes = vec![
        Some((b"key".to_vec(), b"first".to_vec())),
        None,
        Some((b"value".to_vec(), vec![0xff, 0xfe])),
        Some((b"other".to_vec(), b"x".to_vec())),
        Some((b"key".to_vec(), b"second".to_vec())),
    ];
    let pair = key_value_of(attributes);
    assert_eq!(pair.key, Some("second".to_string()));
    assert_eq!(pair.value, None);
}

#[test]
fn test_read_payload_like_tag_unescapes() {
    let descriptor = read_payload_like_tag(r#"string key="org:resource" value="a &amp; b &lt;c&gt;""#).unwrap();
    assert_eq!(descriptor.payload_type, "string");
    assert_eq!(descriptor.key, "org:resource");
    assert_eq!(descriptor.value, "a & b <c>");
}

#[test]
fn test_read_payload_like_tag_needs_key_and_value() {
    assert!(read_payload_like_tag(r#"int key="cost""#).is_none());
    assert!(read_payload_like_tag(r#"int value="3""#).is_none());
}

#[test]
fn test_read_payload_like_tag_bad_escape() {
    assert!(read_payload_like_tag(r#"string key="k" value="a &bogus; b""#).is_none());
}

#[test]
fn test_payload_tag_descriptor_from_parts() {
    let attributes = vec![Some((b"key".to_vec(), b"cost".to_vec())), Some((b"value".to_vec(), b"42".to_vec()))];
    let descriptor = payload_tag_descriptor(b"int".to_vec(), attributes).unwrap();
    assert_eq!(descriptor.payload_type, "int");
    assert_eq!(descriptor.key, "cost");
    assert_eq!(descriptor.value, "42");
}

#[test]
fn test_payload_tag_descriptor_bad_name() {
    let attributes = vec![Some((b"key".to_vec(), b"cost".to_vec())), Some((b"value".to_vec(), b"42".to_vec()))];
    assert!(payload_tag_descriptor(vec![0xff], attributes).is_none());
}

#[test]
fn test_read_attr_value() {
    let mut var: Option<String> = Some("old".to_string());
    assert!(!read_attr_value(vec![0xc3], &mut var));
    assert_eq!(var, Some("old".to_string()));
    assert!(read_attr_value(b"new".to_vec(), &mut var));
    assert_eq!(var, Some("new".to_string()));
}

#[test]
fn test_parse_i64() {
    assert_eq!(parse_i64("-42"), Some(-42));
    assert_eq!(parse_i64("+7"), Some(7));
    assert_eq!(parse_i64("007"), Some(7));
    assert_eq!(parse_i64("9223372036854775807"), Some(i64::MAX));
    assert_eq!(parse_i64("-9223372036854775808"), Some(i64::MIN));
    assert_eq!(parse_i64("9223372036854775808"), None);
    assert_eq!(parse_i64("99999999999999999999999"), None);
    assert_eq!(parse_i64(""), None);
    assert_eq!(parse_i64("-"), None);
    assert_eq!(parse_i64("12a"), None);
    assert_eq!(parse_i64(" 1"), None);
    for text in ["0", "-0", "+0", "123", "-5", "x", "+", "1_0", "١"] {
        assert_eq!(parse_i64(text), text.parse::<i64>().ok());
    }
}

#[test]
fn test_extract_payload_value_kinds() {
    assert_eq!(extract_payload_value(b"int", "cost", "-42"), Some(EventPayloadValue::Int64(-42)));
    assert_eq!(extract_payload_value(b"int", "cost", "4.2"), None);
    assert_eq!(extract_payload_value(b"boolean", "ok", "true"), Some(EventPayloadValue::Boolean(true)));
    assert_eq!(extract_payload_value(b"boolean", "ok", "false"), Some(EventPayloadValue::Boolean(false)));
    assert_eq!(extract_payload_value(b"boolean", "ok", "True"), None);
    assert_eq!(extract_payload_value(b"string", "org:resource", "Ann"), Some(EventPayloadValue::String("Ann".to_string())));
    assert_eq!(
        extract_payload_value(b"string", "lifecycle:transition", "complete"),
        Some(EventPayloadValue::Lifecycle(XesStandardLifecycle::Complete))
    );
    assert_eq!(extract_payload_value(b"string", "lifecycle:transition", "nonsense"), None);
    assert_eq!(extract_payload_value(b"float", "w", "1.5"), None);
    assert_eq!(extract_payload_value(b"id", "i", "67e55044-10b1-426f-9247-bb680e5fe0c8"), None);
    assert_eq!(extract_payload_value(b"list", "l", "x"), None);
}

#[test]
fn test_extract_payload_value_date() {
    let text = "2020-01-02T03:04:05.5+01:00";
    let expected = DateTime::parse_from_rfc3339(text).unwrap().to_utc();
    assert_eq!(
        extract_payload_value(b"date", "time:timestamp", text),
        Some(EventPayloadValue::Date(expected.timestamp(), 500_000_000))
    );
    assert_eq!(expected.timestamp(), 1577930645);
    assert_eq!(extract_payload_value(b"date", "time:timestamp", "yesterday"), None);
}
