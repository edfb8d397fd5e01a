use vstd::prelude::*;

use chrono::{DateTime, Utc};
use vstd::string::StringExecFns;
use vstd::utf8::{decode_utf8, valid_utf8};

use crate::event_log::simple_event_log::valid_instant;
use crate::event_log::standard_lifecycle::lifecycle_name;
use crate::event_log::xes::xes_event_log::{
    entries_in_range, event_in_range, log_in_range, trace_in_range, value_in_range, EventPayloadValue, XesClassifier,
    XesEvent, XesEventLogExtension, XesEventLogImpl, XesTrace,
};
use crate::utils::decimal::{decimal_text, signed_text, unsigned_text};
use crate::utils::xml_utils::{
    attributes_view, concat_map, empty_view, end_view, events_view, lemma_concat_map_step, push_event, start_view, write_events,
    xml_document, XmlEvent, XmlEventView, XmlWriteError,
};

verus! {

pub const LOG_TAG_NAME_STR: &'static str = "log";
pub const TRACE_TAG_NAME_STR: &'static str = "trace";
pub const EVENT_TAG_NAME_STR: &'static str = "event";
pub const EXTENSION_TAG_NAME_STR: &'static str = "extension";
pub const CLASSIFIER_TAG_NAME_STR: &'static str = "classifier";
pub const GLOBAL_TAG_NAME_STR: &'static str = "global";
pub const STRING_TAG_NAME_STR: &'static str = "string";
pub const DATE_TAG_NAME_STR: &'static str = "date";
pub const BOOLEAN_TAG_NAME_STR: &'static str = "boolean";
pub const INT_TAG_NAME_STR: &'static str = "int";
pub const FLOAT_TAG_NAME_STR: &'static str = "float";
pub const ID_TAG_NAME_STR: &'static str = "id";
pub const KEY_ATTR_NAME_STR: &'static str = "key";
pub const VALUE_ATTR_NAME_STR: &'static str = "value";
pub const NAME_ATTR_NAME_STR: &'static str = "name";
pub const URI_ATTR_NAME_STR: &'static str = "uri";
pub const PREFIX_ATTR_NAME_STR: &'static str = "prefix";
pub const KEYS_ATTR_NAME_STR: &'static str = "keys";
pub const SCOPE_ATTR_NAME_STR: &'static str = "scope";
pub const CONCEPT_NAME_STR: &'static str = "concept:name";
pub const TIME_TIMESTAMP_STR: &'static str = "time:timestamp";
pub const TRUE_STR: &'static str = "true";
pub const FALSE_STR: &'static str = "false";
pub const NULL_STR: &'static str = "NULL";

/// The RFC 3339 text that chrono writes for the UTC instant `nanos`
/// nanoseconds into the second `seconds` seconds after the Unix epoch.
pub uninterp spec fn rfc3339_text(seconds: i64, nanos: u32) -> Seq<char>;

/// chrono's `DateTime::to_rfc3339` of the UTC instant made by
/// `DateTime::<Utc>::from_timestamp(seconds, nanos)`, which gives an instant
/// for every pair that `valid_instant` admits.
#[verifier::external_body]
fn rfc3339_of(seconds: i64, nanos: u32) -> (res: String)
    requires
        valid_instant(seconds, nanos),
    ensures
        res@ == rfc3339_text(seconds, nanos),
{
    DateTime::<Utc>::from_timestamp(seconds, nanos).unwrap().to_rfc3339()
}

/// The indices `0..n`.
pub open spec fn indices(n: nat) -> Seq<usize> {
    Seq::new(n, |i: int| i as usize)
}

/// The name of the tag that holds the value (nothing is written for `Null`).
pub open spec fn payload_tag_name(value: EventPayloadValue) -> Seq<char> {
    match value {
        EventPayloadValue::Null => Seq::empty(),
        EventPayloadValue::Date(_, _) => DATE_TAG_NAME_STR@,
        EventPayloadValue::String(_) => STRING_TAG_NAME_STR@,
        EventPayloadValue::Boolean(_) => BOOLEAN_TAG_NAME_STR@,
        EventPayloadValue::Int32(_) => INT_TAG_NAME_STR@,
        EventPayloadValue::Int64(_) => INT_TAG_NAME_STR@,
        EventPayloadValue::Float32(_) => FLOAT_TAG_NAME_STR@,
        EventPayloadValue::Float64(_) => FLOAT_TAG_NAME_STR@,
        EventPayloadValue::Uint32(_) => INT_TAG_NAME_STR@,
        EventPayloadValue::Uint64(_) => INT_TAG_NAME_STR@,
        EventPayloadValue::Guid(_) => ID_TAG_NAME_STR@,
        EventPayloadValue::Timestamp(_) => DATE_TAG_NAME_STR@,
        EventPayloadValue::Lifecycle(_) => STRING_TAG_NAME_STR@,
    }
}

/// The text of the value: the RFC 3339 text of a date, the string itself,
/// `true` or `false`, the decimal text of an integer or of a timestamp, the
/// held text of a float or an id, the name of a lifecycle transition.
pub open spec fn payload_text(value: EventPayloadValue) -> Seq<char> {
    match value {
        EventPayloadValue::Null => Seq::empty(),
        EventPayloadValue::Date(seconds, nanos) => rfc3339_text(seconds, nanos),
        EventPayloadValue::String(s) => s@,
        EventPayloadValue::Boolean(b) => if b { TRUE_STR@ } else { FALSE_STR@ },
        EventPayloadValue::Int32(n) => decimal_text(n as int),
        EventPayloadValue::Int64(n) => decimal_text(n as int),
        EventPayloadValue::Float32(text) => text@,
        EventPayloadValue::Float64(text) => text@,
        EventPayloadValue::Uint32(n) => decimal_text(n as int),
        EventPayloadValue::Uint64(n) => decimal_text(n as int),
        EventPayloadValue::Guid(text) => text@,
        EventPayloadValue::Timestamp(n) => decimal_text(n as int),
        EventPayloadValue::Lifecycle(l) => lifecycle_name(l),
    }
}

/// The text of a value as `to_string` gives it: `NULL` for `Null`, else the
/// text that the value's tag holds (see `payload_text`).
pub open spec fn payload_string(value: EventPayloadValue) -> Seq<char> {
    if value is Null {
        NULL_STR@
    } else {
        payload_text(value)
    }
}

/// The element of a payload entry: an empty tag named after the value's
/// type with the key and the value's text; nothing for `Null`.
pub open spec fn payload_elements(key: Seq<char>, value: EventPayloadValue) -> Seq<XmlEventView> {
    if value is Null {
        Seq::empty()
    } else {
        seq![empty_view(payload_tag_name(value), seq![(KEY_ATTR_NAME_STR@, key), (VALUE_ATTR_NAME_STR@, payload_text(value))])]
    }
}

pub open spec fn entry_elements(entries: Seq<(String, EventPayloadValue)>) -> spec_fn(usize) -> Seq<XmlEventView> {
    |i: usize| payload_elements(entries[i as int].0@, entries[i as int].1)
}

/// The elements of the payload entries, in order.
pub open spec fn payloads_elements(entries: Seq<(String, EventPayloadValue)>) -> Seq<XmlEventView> {
    concat_map(indices(entries.len()), entry_elements(entries))
}

/// The elements of an event: its name, its date, then its payload.
pub open spec fn event_elements(event: XesEvent) -> Seq<XmlEventView> {
    seq![
        start_view(EVENT_TAG_NAME_STR@, Seq::empty()),
        empty_view(STRING_TAG_NAME_STR@, seq![(KEY_ATTR_NAME_STR@, CONCEPT_NAME_STR@), (VALUE_ATTR_NAME_STR@, event.name@)]),
        empty_view(DATE_TAG_NAME_STR@, seq![(KEY_ATTR_NAME_STR@, TIME_TIMESTAMP_STR@), (VALUE_ATTR_NAME_STR@, rfc3339_text(event.timestamp, event.timestamp_nanos))]),
    ] + payloads_elements(event.payload@) + seq![end_view(EVENT_TAG_NAME_STR@)]
}

pub open spec fn events_elements(events: Seq<XesEvent>) -> spec_fn(usize) -> Seq<XmlEventView> {
    |i: usize| event_elements(events[i as int])
}

/// The element of a trace with its events; nothing for a trace without events.
pub open spec fn trace_elements(trace: XesTrace) -> Seq<XmlEventView> {
    if trace.events@.len() == 0 {
        Seq::empty()
    } else {
        seq![start_view(TRACE_TAG_NAME_STR@, Seq::empty())]
            + concat_map(indices(trace.events@.len()), events_elements(trace.events@))
            + seq![end_view(TRACE_TAG_NAME_STR@)]
    }
}

pub open spec fn traces_elements(traces: Seq<XesTrace>) -> spec_fn(usize) -> Seq<XmlEventView> {
    |t: usize| trace_elements(traces[t as int])
}

/// The element of an extension: an empty tag with its name, URI and prefix.
pub open spec fn extension_elements(extension: XesEventLogExtension) -> Seq<XmlEventView> {
    seq![empty_view(
        EXTENSION_TAG_NAME_STR@,
        seq![(NAME_ATTR_NAME_STR@, extension.name@), (URI_ATTR_NAME_STR@, extension.uri@), (PREFIX_ATTR_NAME_STR@, extension.prefix@)],
    )]
}

pub open spec fn extensions_elements(extensions: Seq<XesEventLogExtension>) -> spec_fn(usize) -> Seq<XmlEventView> {
    |i: usize| extension_elements(extensions[i as int])
}

/// The keys joined by single spaces.
pub open spec fn joined_keys(keys: Seq<String>) -> Seq<char>
    decreases keys.len(),
{
    if keys.len() == 0 {
        Seq::empty()
    } else if keys.len() == 1 {
        keys[0]@
    } else {
        joined_keys(keys.drop_last()) + seq![' '] + keys.last()@
    }
}

/// The element of a classifier: an empty tag with its name and its keys.
pub open spec fn classifier_elements(classifier: XesClassifier) -> Seq<XmlEventView> {
    seq![empty_view(
        CLASSIFIER_TAG_NAME_STR@,
        seq![(NAME_ATTR_NAME_STR@, classifier.name@), (KEYS_ATTR_NAME_STR@, joined_keys(classifier.keys@))],
    )]
}

pub open spec fn classifiers_elements(classifiers: Seq<XesClassifier>) -> spec_fn(usize) -> Seq<XmlEventView> {
    |i: usize| classifier_elements(classifiers[i as int])
}

/// The element of a global: the scope, then its default entries.
pub open spec fn global_elements(global: (String, Vec<(String, EventPayloadValue)>)) -> Seq<XmlEventView> {
    seq![start_view(GLOBAL_TAG_NAME_STR@, seq![(SCOPE_ATTR_NAME_STR@, global.0@)])]
        + payloads_elements(global.1@)
        + seq![end_view(GLOBAL_TAG_NAME_STR@)]
}

pub open spec fn globals_elements(globals: Seq<(String, Vec<(String, EventPayloadValue)>)>) -> spec_fn(usize) -> Seq<XmlEventView> {
    |i: usize| global_elements(globals[i as int])
}

/// The XES document of the log: in `<log>`, its extensions, classifiers,
/// properties, globals, then each trace with events, each event with its
/// name (`concept:name`), date (`time:timestamp`) and payload.
pub open spec fn xes_document(log: XesEventLogImpl) -> Seq<XmlEventView> {
    seq![start_view(LOG_TAG_NAME_STR@, Seq::empty())]
        + concat_map(indices(log.extensions@.len()), extensions_elements(log.extensions@))
        + concat_map(indices(log.classifiers@.len()), classifiers_elements(log.classifiers@))
        + payloads_elements(log.properties@)
        + concat_map(indices(log.globals@.len()), globals_elements(log.globals@))
        + concat_map(indices(log.traces@.len()), traces_elements(log.traces@))
        + seq![end_view(LOG_TAG_NAME_STR@)]
}

fn attribute(name: &str, value: String) -> (res: (String, String))
    ensures
        res.0@ == name@,
        res.1@ == value@,
{
    (name.to_owned(), value)
}

/// The tag's name and the text of a value; `None` for `Null`.
fn payload_parts(value: &EventPayloadValue) -> (res: Option<(&'static str, String)>)
    requires
        value_in_range(*value),
    ensures
        res is None == value is Null,
        res matches Some((tag, text)) ==> tag@ == payload_tag_name(*value) && text@ == payload_text(*value),
{
    match value {
        EventPayloadValue::Null => None,
        EventPayloadValue::Date(seconds, nanos) => Some((DATE_TAG_NAME_STR, rfc3339_of(*seconds, *nanos))),
        EventPayloadValue::String(s) => Some((STRING_TAG_NAME_STR, s.clone())),
        EventPayloadValue::Boolean(b) => Some((BOOLEAN_TAG_NAME_STR, if *b { TRUE_STR.to_owned() } else { FALSE_STR.to_owned() })),
        EventPayloadValue::Int32(n) => Some((INT_TAG_NAME_STR, signed_text(*n as i64))),
        EventPayloadValue::Int64(n) => Some((INT_TAG_NAME_STR, signed_text(*n))),
        EventPayloadValue::Float32(text) => Some((FLOAT_TAG_NAME_STR, text.clone())),
        EventPayloadValue::Float64(text) => Some((FLOAT_TAG_NAME_STR, text.clone())),
        EventPayloadValue::Uint32(n) => Some((INT_TAG_NAME_STR, unsigned_text(*n as u64))),
        EventPayloadValue::Uint64(n) => Some((INT_TAG_NAME_STR, unsigned_text(*n))),
        EventPayloadValue::Guid(text) => Some((ID_TAG_NAME_STR, text.clone())),
        EventPayloadValue::Timestamp(n) => Some((DATE_TAG_NAME_STR, signed_text(*n))),
        EventPayloadValue::Lifecycle(l) => Some((STRING_TAG_NAME_STR, l.to_string())),
    }
}

impl EventPayloadValue {
    /// The text of the value (see `payload_string`).
    pub fn to_string(&self) -> (res: String)
        requires
            value_in_range(*self),
        ensures
            res@ == payload_string(*self),
    {
        match payload_parts(self) {
            Some((_, text)) => text,
            None => NULL_STR.to_owned(),
        }
    }
}

/// The element of one payload entry.
fn write_payload(events: &mut Vec<XmlEvent>, key: &String, value: &EventPayloadValue)
    requires
        value_in_range(*value),
    ensures
        events_view(final(events)@) == events_view(old(events)@) + payload_elements(key@, *value),
{
    match payload_parts(value) {
        None => {
            assert(events_view(events@) =~= events_view(events@) + Seq::<XmlEventView>::empty());
        },
        Some((tag, text)) => {
            let mut attributes: Vec<(String, String)> = Vec::new();
            attributes.push(attribute(KEY_ATTR_NAME_STR, key.clone()));
            attributes.push(attribute(VALUE_ATTR_NAME_STR, text));
            proof {
                assert(attributes_view(attributes@) =~= seq![(KEY_ATTR_NAME_STR@, key@), (VALUE_ATTR_NAME_STR@, payload_text(*value))]);
            }
            let ghost before = events_view(events@);
            push_event(events, XmlEvent::Empty { name: tag.to_owned(), attributes });
            assert(events_view(events@) =~= before + payload_elements(key@, *value));
        },
    }
}

/// The elements of the payload entries, in order.
fn write_payloads(events: &mut Vec<XmlEvent>, entries: &Vec<(String, EventPayloadValue)>)
    requires
        entries_in_range(entries@),
    ensures
        events_view(final(events)@) == events_view(old(events)@) + payloads_elements(entries@),
{
    let ghost order = indices(entries@.len());
    let ghost f = entry_elements(entries@);
    let ghost start = events_view(events@);
    proof {
        assert(order.take(0) =~= Seq::<usize>::empty());
        assert(events_view(events@) =~= start + concat_map(order.take(0), f));
    }
    let mut i: usize = 0;
    while i < entries.len()
        invariant
            i <= entries@.len(),
            order == indices(entries@.len()),
            f == entry_elements(entries@),
            entries_in_range(entries@),
            events_view(events@) == start + concat_map(order.take(i as int), f),
        decreases entries@.len() - i,
    {
        let ghost before = events_view(events@);
        write_payload(events, &entries[i].0, &entries[i].1);
        proof {
            assert(order[i as int] == i);
            lemma_concat_map_step(order, f, i as int);
            assert(events_view(events@) =~= start + concat_map(order.take(i + 1), f));
        }
        i = i + 1;
    }
    proof {
        assert(order.take(i as int) =~= order);
    }
}

/// The elements of one event.
fn write_event(events: &mut Vec<XmlEvent>, event: &XesEvent)
    requires
        event_in_range(*event),
    ensures
        events_view(final(events)@) == events_view(old(events)@) + event_elements(*event),
{
    let ghost before = events_view(events@);
    push_event(events, XmlEvent::Start { name: EVENT_TAG_NAME_STR.to_owned(), attributes: Vec::new() });
    let mut name_attributes: Vec<(String, String)> = Vec::new();
    name_attributes.push(attribute(KEY_ATTR_NAME_STR, CONCEPT_NAME_STR.to_owned()));
    name_attributes.push(attribute(VALUE_ATTR_NAME_STR, event.name.clone()));
    proof {
        assert(attributes_view(name_attributes@) =~= seq![(KEY_ATTR_NAME_STR@, CONCEPT_NAME_STR@), (VALUE_ATTR_NAME_STR@, event.name@)]);
    }
    push_event(events, XmlEvent::Empty { name: STRING_TAG_NAME_STR.to_owned(), attributes: name_attributes });
    let mut date_attributes: Vec<(String, String)> = Vec::new();
    date_attributes.push(attribute(KEY_ATTR_NAME_STR, TIME_TIMESTAMP_STR.to_owned()));
    date_attributes.push(attribute(VALUE_ATTR_NAME_STR, rfc3339_of(event.timestamp, event.timestamp_nanos)));
    proof {
        assert(attributes_view(date_attributes@) =~= seq![(KEY_ATTR_NAME_STR@, TIME_TIMESTAMP_STR@), (VALUE_ATTR_NAME_STR@, rfc3339_text(event.timestamp, event.timestamp_nanos))]);
        assert(attributes_view(Seq::<(String, String)>::empty()) =~= Seq::empty());
    }
    push_event(events, XmlEvent::Empty { name: DATE_TAG_NAME_STR.to_owned(), attributes: date_attributes });
    let ghost head = events_view(events@);
    write_payloads(events, &event.payload);
    push_event(events, XmlEvent::End { name: EVENT_TAG_NAME_STR.to_owned() });
    proof {
        assert(events_view(events@) =~= before + event_elements(*event));
    }
}

/// The elements of the events of a trace.
fn write_trace_events(events: &mut Vec<XmlEvent>, trace: &XesTrace)
    requires
        trace_in_range(*trace),
    ensures
        events_view(final(events)@) == events_view(old(events)@) + concat_map(indices(trace.events@.len()), events_elements(trace.events@)),
{
    let ghost order = indices(trace.events@.len());
    let ghost f = events_elements(trace.events@);
    let ghost start = events_view(events@);
    proof {
        assert(order.take(0) =~= Seq::<usize>::empty());
        assert(events_view(events@) =~= start + concat_map(order.take(0), f));
    }
    let mut i: usize = 0;
    while i < trace.events.len()
        invariant
            i <= trace.events@.len(),
            order == indices(trace.events@.len()),
            f == events_elements(trace.events@),
            trace_in_range(*trace),
            events_view(events@) == start + concat_map(order.take(i as int), f),
        decreases trace.events@.len() - i,
    {
        write_event(events, &trace.events[i]);
        proof {
            assert(order[i as int] == i);
            lemma_concat_map_step(order, f, i as int);
            assert(events_view(events@) =~= start + concat_map(order.take(i + 1), f));
        }
        i = i + 1;
    }
    proof {
        assert(order.take(i as int) =~= order);
    }
}

/// The element of one trace.
fn write_trace(events: &mut Vec<XmlEvent>, trace: &XesTrace)
    requires
        trace_in_range(*trace),
    ensures
        events_view(final(events)@) == events_view(old(events)@) + trace_elements(*trace),
{
    let ghost before = events_view(events@);
    if trace.events.len() > 0 {
        push_event(events, XmlEvent::Start { name: TRACE_TAG_NAME_STR.to_owned(), attributes: Vec::new() });
        write_trace_events(events, trace);
        push_event(events, XmlEvent::End { name: TRACE_TAG_NAME_STR.to_owned() });
        proof {
            assert(attributes_view(Seq::<(String, String)>::empty()) =~= Seq::empty());
        }
    }
    assert(events_view(events@) =~= before + trace_elements(*trace));
}

/// The elements of the traces, in order.
fn write_traces(events: &mut Vec<XmlEvent>, traces: &Vec<XesTrace>)
    requires
        forall|t: int| 0 <= t < traces@.len() ==> trace_in_range(#[trigger] traces@[t]),
    ensures
        events_view(final(events)@) == events_view(old(events)@) + concat_map(indices(traces@.len()), traces_elements(traces@)),
{
    let ghost order = indices(traces@.len());
    let ghost f = traces_elements(traces@);
    let ghost start = events_view(events@);
    proof {
        assert(order.take(0) =~= Seq::<usize>::empty());
        assert(events_view(events@) =~= start + concat_map(order.take(0), f));
    }
    let mut t: usize = 0;
    while t < traces.len()
        invariant
            t <= traces@.len(),
            order == indices(traces@.len()),
            f == traces_elements(traces@),
            forall|k: int| 0 <= k < traces@.len() ==> trace_in_range(#[trigger] traces@[k]),
            events_view(events@) == start + concat_map(order.take(t as int), f),
        decreases traces@.len() - t,
    {
        write_trace(events, &traces[t]);
        proof {
            assert(order[t as int] == t);
            lemma_concat_map_step(order, f, t as int);
            assert(events_view(events@) =~= start + concat_map(order.take(t + 1), f));
        }
        t = t + 1;
    }
    proof {
        assert(order.take(t as int) =~= order);
    }
}

/// The elements of the extensions, in order.
fn write_extensions(events: &mut Vec<XmlEvent>, extensions: &Vec<XesEventLogExtension>)
    ensures
        events_view(final(events)@) == events_view(old(events)@) + concat_map(indices(extensions@.len()), extensions_elements(extensions@)),
{
    let ghost order = indices(extensions@.len());
    let ghost f = extensions_elements(extensions@);
    let ghost start = events_view(events@);
    proof {
        assert(order.take(0) =~= Seq::<usize>::empty());
        assert(events_view(events@) =~= start + concat_map(order.take(0), f));
    }
    let mut i: usize = 0;
    while i < extensions.len()
        invariant
            i <= extensions@.len(),
            order == indices(extensions@.len()),
            f == extensions_elements(extensions@),
            events_view(events@) == start + concat_map(order.take(i as int), f),
        decreases extensions@.len() - i,
    {
        let extension = &extensions[i];
        let mut attributes: Vec<(String, String)> = Vec::new();
        attributes.push(attribute(NAME_ATTR_NAME_STR, extension.name.clone()));
        attributes.push(attribute(URI_ATTR_NAME_STR, extension.uri.clone()));
        attributes.push(attribute(PREFIX_ATTR_NAME_STR, extension.prefix.clone()));
        proof {
            assert(attributes_view(attributes@) =~= seq![
                (NAME_ATTR_NAME_STR@, extension.name@),
                (URI_ATTR_NAME_STR@, extension.uri@),
                (PREFIX_ATTR_NAME_STR@, extension.prefix@),
            ]);
        }
        push_event(events, XmlEvent::Empty { name: EXTENSION_TAG_NAME_STR.to_owned(), attributes });
        proof {
            assert(order[i as int] == i);
            lemma_concat_map_step(order, f, i as int);
            assert(events_view(events@) =~= start + concat_map(order.take(i + 1), f));
        }
        i = i + 1;
    }
    proof {
        assert(order.take(i as int) =~= order);
    }
}

/// The keys joined by single spaces.
fn join_keys(keys: &Vec<String>) -> (res: String)
    ensures
        res@ == joined_keys(keys@),
{
    proof {
        reveal_strlit(" ");
    }
    let mut text = String::new();
    let mut i: usize = 0;
    while i < keys.len()
        invariant
            i <= keys@.len(),
            text@ == joined_keys(keys@.take(i as int)),
            " "@ == seq![' '],
        decreases keys@.len() - i,
    {
        proof {
            assert(keys@.take(i + 1).drop_last() =~= keys@.take(i as int));
            assert(keys@.take(i + 1).last() == keys@[i as int]);
        }
        if i > 0 {
            text.append(" ");
        } else {
            assert(keys@.take(1)[0] == keys@[0]);
        }
        text.append(keys[i].as_str());
        i = i + 1;
    }
    proof {
        assert(keys@.take(i as int) =~= keys@);
    }
    text
}

/// The elements of the classifiers, in order.
fn write_classifiers(events: &mut Vec<XmlEvent>, classifiers: &Vec<XesClassifier>)
    ensures
        events_view(final(events)@) == events_view(old(events)@) + concat_map(indices(classifiers@.len()), classifiers_elements(classifiers@)),
{
    let ghost order = indices(classifiers@.len());
    let ghost f = classifiers_elements(classifiers@);
    let ghost start = events_view(events@);
    proof {
        assert(order.take(0) =~= Seq::<usize>::empty());
        assert(events_view(events@) =~= start + concat_map(order.take(0), f));
    }
    let mut i: usize = 0;
    while i < classifiers.len()
        invariant
            i <= classifiers@.len(),
            order == indices(classifiers@.len()),
            f == classifiers_elements(classifiers@),
            events_view(events@) == start + concat_map(order.take(i as int), f),
        decreases classifiers@.len() - i,
    {
        let classifier = &classifiers[i];
        let mut attributes: Vec<(String, String)> = Vec::new();
        attributes.push(attribute(NAME_ATTR_NAME_STR, classifier.name.clone()));
        attributes.push(attribute(KEYS_ATTR_NAME_STR, join_keys(&classifier.keys)));
        proof {
            assert(attributes_view(attributes@) =~= seq![
                (NAME_ATTR_NAME_STR@, classifier.name@),
                (KEYS_ATTR_NAME_STR@, joined_keys(classifier.keys@)),
            ]);
        }
        push_event(events, XmlEvent::Empty { name: CLASSIFIER_TAG_NAME_STR.to_owned(), attributes });
        proof {
            assert(order[i as int] == i);
            lemma_concat_map_step(order, f, i as int);
            assert(events_view(events@) =~= start + concat_map(order.take(i + 1), f));
        }
        i = i + 1;
    }
    proof {
        assert(order.take(i as int) =~= order);
    }
}

/// The elements of the globals, in order.
fn write_globals(events: &mut Vec<XmlEvent>, globals: &Vec<(String, Vec<(String, EventPayloadValue)>)>)
    requires
        forall|g: int| 0 <= g < globals@.len() ==> entries_in_range(#[trigger] globals@[g].1@),
    ensures
        events_view(final(events)@) == events_view(old(events)@) + concat_map(indices(globals@.len()), globals_elements(globals@)),
{
    let ghost order = indices(globals@.len());
    let ghost f = globals_elements(globals@);
    let ghost start = events_view(events@);
    proof {
        assert(order.take(0) =~= Seq::<usize>::empty());
        assert(events_view(events@) =~= start + concat_map(order.take(0), f));
    }
    let mut i: usize = 0;
    while i < globals.len()
        invariant
            i <= globals@.len(),
            order == indices(globals@.len()),
            f == globals_elements(globals@),
            forall|g: int| 0 <= g < globals@.len() ==> entries_in_range(#[trigger] globals@[g].1@),
            events_view(events@) == start + concat_map(order.take(i as int), f),
        decreases globals@.len() - i,
    {
        let global = &globals[i];
        let ghost before = events_view(events@);
        let mut attributes: Vec<(String, String)> = Vec::new();
        attributes.push(attribute(SCOPE_ATTR_NAME_STR, global.0.clone()));
        proof {
            assert(attributes_view(attributes@) =~= seq![(SCOPE_ATTR_NAME_STR@, global.0@)]);
            assert(entries_in_range(globals@[i as int].1@));
        }
        push_event(events, XmlEvent::Start { name: GLOBAL_TAG_NAME_STR.to_owned(), attributes });
        write_payloads(events, &global.1);
        push_event(events, XmlEvent::End { name: GLOBAL_TAG_NAME_STR.to_owned() });
        proof {
            assert(events_view(events@) =~= before + global_elements(*global));
            assert(order[i as int] == i);
            lemma_concat_map_step(order, f, i as int);
            assert(events_view(events@) =~= start + concat_map(order.take(i + 1), f));
        }
        i = i + 1;
    }
    proof {
        assert(order.take(i as int) =~= order);
    }
}

/// The events of the log's XES document.
pub fn xes_events(log: &XesEventLogImpl) -> (res: Vec<XmlEvent>)
    requires
        log_in_range(*log),
    ensures
        events_view(res@) == xes_document(*log),
{
    let mut events: Vec<XmlEvent> = Vec::new();
    proof {
        assert(events_view(events@) =~= Seq::empty());
        assert(attributes_view(Seq::<(String, String)>::empty()) =~= Seq::empty());
    }
    push_event(&mut events, XmlEvent::Start { name: LOG_TAG_NAME_STR.to_owned(), attributes: Vec::new() });
    write_extensions(&mut events, &log.extensions);
    write_classifiers(&mut events, &log.classifiers);
    write_payloads(&mut events, &log.properties);
    write_globals(&mut events, &log.globals);
    write_traces(&mut events, &log.traces);
    push_event(&mut events, XmlEvent::End { name: LOG_TAG_NAME_STR.to_owned() });
    proof {
        assert(events_view(events@) =~= xes_document(*log));
    }
    events
}

/// The log as an XES document.
pub fn serialize_event_log(log: &XesEventLogImpl) -> (res: Result<String, XmlWriteError>)
    requires
        log_in_range(*log),
    ensures
        valid_utf8(xml_document(xes_document(*log))),
        res matches Ok(text) && text@ == decode_utf8(xml_document(xes_document(*log))),
{
    let events = xes_events(log);
    write_events(&events)
}

/// The XES document of the log as UTF-8 bytes: the bytes of the text that
/// `serialize_event_log` gives.
pub fn write_xes_log_to_bytes(log: &XesEventLogImpl) -> (res: Result<Vec<u8>, XmlWriteError>)
    requires
        log_in_range(*log),
    ensures
        res matches Ok(bytes) && bytes@ == xml_document(xes_document(*log)),
{
    match serialize_event_log(log) {
        Ok(content) => {
            let bytes = vstd::slice::slice_to_vec(content.as_str().as_bytes());
            proof {
                vstd::utf8::decode_utf8_encode_utf8(xml_document(xes_document(*log)));
            }
            Ok(bytes)
        },
        Err(error) => Err(error),
    }
}

} // verus!
