use chrono::{DateTime, Utc};
use ficus::event_log::simple_event_log::MIN_TIMESTAMP;
use ficus::event_log::standard_lifecycle::XesStandardLifecycle;
use ficus::event_log::xes::simple::create_simple_event_log;
use ficus::event_log::xes::xes_event_log::{
    EventPayloadValue, XesClassifier, XesEvent, XesEventLogExtension, XesEventLogImpl, XesTrace,
};
use ficus::event_log::xes::xes_event_log_writer::{serialize_event_log, write_xes_log_to_bytes};
use ficus::utils::decimal::{signed_text, unsigned_text};

fn small_log() -> XesEventLogImpl {
    let mut log = XesEventLogImpl::empty();
    let mut trace = XesTrace::empty();
    trace.push(XesEvent::new("A".to_string(), 0));
    trace.push(XesEvent::new("B".to_string(), 86400));
    log.push(trace);
    log.push(XesTrace::empty());
    log
}

fn full_log() -> XesEventLogImpl {
    let mut log = XesEventLogImpl::empty();
    log.extensions.push(XesEventLogExtension {
        name: "Concept".to_string(),
        prefix: "concept".to_string(),
        uri: "http://www.xes-standard.org/concept.xesext".to_string(),
    });
    log.classifiers.push(XesClassifier {
        name: "Activity".to_string(),
        keys: vec!["concept:name".to_string(), "lifecycle:transition".to_string()],
    });
    log.properties.push(("source".to_string(), EventPayloadValue::String("a & b".to_string())));
    log.properties.push(("nothing".to_string(), EventPayloadValue::Null));
    log.globals.push((
        "event".to_string(),
        vec![("concept:name".to_string(), EventPayloadValue::String("__INVALID__".to_string()))],
    ));
    let mut event = XesEvent::new("A".to_string(), 0);
    event.payload.push(("cost".to_string(), EventPayloadValue::Int32(-42)));
    event.payload.push(("ok".to_string(), EventPayloadValue::Boolean(true)));
    event.payload.push(("skipped".to_string(), EventPayloadValue::Null));
    event.payload.push(("lifecycle:transition".to_string(), EventPayloadValue::Lifecycle(XesStandardLifecycle::Complete)));
    event.payload.push(("weight".to_string(), EventPayloadValue::Float64(1.5f64.to_string())));
    event.payload.push(("big".to_string(), EventPayloadValue::Uint64(u64::MAX)));
    event.payload.push(("at".to_string(), EventPayloadValue::Date(86400, 0)));
    event.payload.push(("stamp".to_string(), EventPayloadValue::Timestamp(123)));
    event.payload.push(("small".to_string(), EventPayloadValue::Int64(i64::MIN)));
    event.payload.push(("count".to_string(), EventPayloadValue::Uint32(7)));
    event.payload.push(("f".to_string(), EventPayloadValue::Float32(0.25f32.to_string())));
    event.payload.push(("id".to_string(), EventPayloadValue::Guid("67e55044-10b1-426f-9247-bb680e5fe0c8".to_string())));
    let mut trace = XesTrace::empty();
    trace.push(event);
    log.push(trace);
    log
}

#[test]
fn serialize_full_log() {
    let text = match serialize_event_log(&full_log()) {
        Ok(text) => text,
        Err(_) => panic!("serialization failed"),
    };
    let expected = [
        "<log>",
        "  <extension name=\"Concept\" uri=\"http://www.xes-standard.org/concept.xesext\" prefix=\"concept\"/>",
        "  <classifier name=\"Activity\" keys=\"concept:name lifecycle:transition\"/>",
        "  <string key=\"source\" value=\"a &amp; b\"/>",
        "  <global scope=\"event\">",
        "    <string key=\"concept:name\" value=\"__INVALID__\"/>",
        "  </global>",
        "  <trace>",
        "    <event>",
        "      <string key=\"concept:name\" value=\"A\"/>",
        "      <date key=\"time:timestamp\" value=\"1970-01-01T00:00:00+00:00\"/>",
        "      <int key=\"cost\" value=\"-42\"/>",
        "      <boolean key=\"ok\" value=\"true\"/>",
        "      <string key=\"lifecycle:transition\" value=\"complete\"/>",
        "      <float key=\"weight\" value=\"1.5\"/>",
        "      <int key=\"big\" value=\"18446744073709551615\"/>",
        "      <date key=\"at\" value=\"1970-01-02T00:00:00+00:00\"/>",
        "      <date key=\"stamp\" value=\"123\"/>",
        "      <int key=\"small\" value=\"-9223372036854775808\"/>",
        "      <int key=\"count\" value=\"7\"/>",
        "      <float key=\"f\" value=\"0.25\"/>",
        "      <id key=\"id\" value=\"67e55044-10b1-426f-9247-bb680e5fe0c8\"/>",
        "    </event>",
        "  </trace>",
        "</log>",
    ]
    .join("\n");
    assert_eq!(text, expected);
}

#[test]
fn classifier_without_keys_and_one_key() {
    let mut log = XesEventLogImpl::empty();
    log.classifiers.push(XesClassifier { name: "None".to_string(), keys: vec![] });
    log.classifiers.push(XesClassifier { name: "One".to_string(), keys: vec!["k".to_string()] });
    let text = match serialize_event_log(&log) {
        Ok(text) => text,
        Err(_) => panic!("serialization failed"),
    };
    assert_eq!(
        text,
        "<log>\n  <classifier name=\"None\" keys=\"\"/>\n  <classifier name=\"One\" keys=\"k\"/>\n</log>"
    );
}

#[test]
fn decimal_texts() {
    assert_eq!(signed_text(0), "0");
    assert_eq!(signed_text(-7), "-7");
    assert_eq!(signed_text(i64::MAX), i64::MAX.to_string());
    assert_eq!(signed_text(i64::MIN), i64::MIN.to_string());
    assert_eq!(unsigned_text(1000), "1000");
    assert_eq!(unsigned_text(u64::MAX), u64::MAX.to_string());
}

#[test]
fn serialize_small_log() {
    let text = match serialize_event_log(&small_log()) {
        Ok(text) => text,
        Err(_) => panic!("serialization failed"),
    };
    assert_eq!(
        text,
        "<log>\n  <trace>\n    <event>\n      <string key=\"concept:name\" value=\"A\"/>\n      <date key=\"time:timestamp\" value=\"1970-01-01T00:00:00+00:00\"/>\n    </event>\n    <event>\n      <string key=\"concept:name\" value=\"B\"/>\n      <date key=\"time:timestamp\" value=\"1970-01-02T00:00:00+00:00\"/>\n    </event>\n  </trace>\n</log>"
    );
}

#[test]
fn bytes_of_serialized_log() {
    let bytes = match write_xes_log_to_bytes(&small_log()) {
        Ok(bytes) => bytes,
        Err(_) => panic!("serialization failed"),
    };
    let text = match serialize_event_log(&small_log()) {
        Ok(text) => text,
        Err(_) => panic!("serialization failed"),
    };
    assert_eq!(bytes, text.into_bytes());
}

#[test]
fn earliest_date_is_written_by_chrono() {
    let log = create_simple_event_log(&vec![vec!["X"]]);
    let text = match serialize_event_log(&log) {
        Ok(text) => text,
        Err(_) => panic!("serialization failed"),
    };
    let expected = DateTime::<Utc>::from_timestamp(MIN_TIMESTAMP, 0).unwrap().to_rfc3339();
    assert!(text.contains(&format!("value=\"{}\"", expected)));
    assert_eq!(DateTime::<Utc>::MIN_UTC.timestamp(), MIN_TIMESTAMP);
}

#[test]
fn simple_log_from_names() {
    let log = create_simple_event_log(&vec![vec!["A", "B"], vec![], vec!["C"]]);
    assert_eq!(log.traces().len(), 3);
    assert_eq!(log.traces()[0].events().len(), 2);
    assert_eq!(log.extensions().len(), 0);
    assert_eq!(log.traces()[0].events()[1].name(), "B");
    assert_eq!(log.traces()[0].events()[1].timestamp(), MIN_TIMESTAMP);
    assert_eq!(log.traces()[1].events().len(), 0);
    assert_eq!(log.traces()[2].events()[0].name(), "C");
}

#[test]
fn payload_values_as_text() {
    assert_eq!(EventPayloadValue::Null.to_string(), "NULL");
    assert_eq!(EventPayloadValue::Int32(-5).to_string(), "-5");
    assert_eq!(EventPayloadValue::Uint32(5).to_string(), "5");
    assert_eq!(EventPayloadValue::Boolean(false).to_string(), "false");
    assert_eq!(EventPayloadValue::Date(0, 0).to_string(), "1970-01-01T00:00:00+00:00");
    assert_eq!(EventPayloadValue::Timestamp(-1).to_string(), "-1");
    assert_eq!(EventPayloadValue::Lifecycle(XesStandardLifecycle::Start).to_string(), "start");
    assert_eq!(EventPayloadValue::String("x".to_string()).to_string(), "x");
}

#[test]
fn dates_with_nanoseconds() {
    assert_eq!(EventPayloadValue::Date(0, 500_000_000).to_string(), "1970-01-01T00:00:00.500+00:00");
    let mut log = XesEventLogImpl::empty();
    let mut trace = XesTrace::empty();
    trace.push(XesEvent::new_with_max_date("Z".to_string()));
    log.push(trace);
    let text = match serialize_event_log(&log) {
        Ok(text) => text,
        Err(_) => panic!("serialization failed"),
    };
    let expected = DateTime::<Utc>::MAX_UTC.to_rfc3339();
    assert!(text.contains(&format!("value=\"{}\"", expected)));
    assert!(expected.ends_with(".999999999+00:00"));
}
