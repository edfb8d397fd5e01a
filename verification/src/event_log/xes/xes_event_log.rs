use vstd::prelude::*;

use crate::event_log::simple_event_log::{valid_instant, MAX_TIMESTAMP, MAX_TIMESTAMP_NANOS, MIN_TIMESTAMP};
use crate::event_log::standard_lifecycle::XesStandardLifecycle;

verus! {

/// A value in the payload of an event, of a log property or of a global
/// default. A date is the seconds after the Unix epoch (UTC) and the
/// nanoseconds within that second. A float is
/// held as the text that Rust's `to_string` writes for it, and an id as its
/// text, both made where the value is read.
#[derive(Debug, PartialEq)]
pub enum EventPayloadValue {
    Null,
    Date(i64, u32),
    String(String),
    Boolean(bool),
    Int32(i32),
    Int64(i64),
    Float32(String),
    Float64(String),
    Uint32(u32),
    Uint64(u64),
    Guid(String),
    Timestamp(i64),
    Lifecycle(XesStandardLifecycle),
}

/// An XES extension: its name, prefix and URI.
pub struct XesEventLogExtension {
    pub name: String,
    pub prefix: String,
    pub uri: String,
}

/// An XES classifier: its name and the keys that it classifies by.
pub struct XesClassifier {
    pub name: String,
    pub keys: Vec<String>,
}

/// An event: its name, its date (seconds after the Unix epoch, UTC, and the
/// nanoseconds within that second) and its payload entries in the order
/// they are written.
pub struct XesEvent {
    pub name: String,
    pub timestamp: i64,
    pub timestamp_nanos: u32,
    pub payload: Vec<(String, EventPayloadValue)>,
}

/// A trace: its events in order.
pub struct XesTrace {
    pub events: Vec<XesEvent>,
}

/// An XES log: its extensions, classifiers, properties, globals (each a
/// scope with its default entries) and traces, each in the order it is
/// written.
pub struct XesEventLogImpl {
    pub extensions: Vec<XesEventLogExtension>,
    pub classifiers: Vec<XesClassifier>,
    pub properties: Vec<(String, EventPayloadValue)>,
    pub globals: Vec<(String, Vec<(String, EventPayloadValue)>)>,
    pub traces: Vec<XesTrace>,
}

/// A date of the value, where it holds one, is an instant that chrono's UTC
/// dates can hold.
pub open spec fn value_in_range(value: EventPayloadValue) -> bool {
    match value {
        EventPayloadValue::Date(seconds, nanos) => valid_instant(seconds, nanos),
        _ => true,
    }
}

/// Every date among the entries lies in range.
pub open spec fn entries_in_range(entries: Seq<(String, EventPayloadValue)>) -> bool {
    forall|i: int| 0 <= i < entries.len() ==> value_in_range(#[trigger] entries[i].1)
}

/// The event's date and the dates in its payload lie in range.
pub open spec fn event_in_range(event: XesEvent) -> bool {
    &&& valid_instant(event.timestamp, event.timestamp_nanos)
    &&& entries_in_range(event.payload@)
}

/// Every date of the trace lies in range.
pub open spec fn trace_in_range(trace: XesTrace) -> bool {
    forall|i: int| 0 <= i < trace.events@.len() ==> event_in_range(#[trigger] trace.events@[i])
}

/// Every date of the log (events, payloads, properties and globals) lies in
/// range.
pub open spec fn log_in_range(log: XesEventLogImpl) -> bool {
    &&& entries_in_range(log.properties@)
    &&& forall|g: int| 0 <= g < log.globals@.len() ==> entries_in_range(#[trigger] log.globals@[g].1@)
    &&& forall|t: int| 0 <= t < log.traces@.len() ==> trace_in_range(#[trigger] log.traces@[t])
}

impl XesEventLogImpl {
    /// A log with nothing in it.
    pub fn empty() -> (res: Self)
        ensures
            res.extensions@.len() == 0,
            res.classifiers@.len() == 0,
            res.properties@.len() == 0,
            res.globals@.len() == 0,
            res.traces@.len() == 0,
    {
        XesEventLogImpl {
            extensions: Vec::new(),
            classifiers: Vec::new(),
            properties: Vec::new(),
            globals: Vec::new(),
            traces: Vec::new(),
        }
    }

    pub fn extensions(&self) -> (res: &Vec<XesEventLogExtension>)
        ensures
            res == &self.extensions,
    {
        &self.extensions
    }

    pub fn classifiers(&self) -> (res: &Vec<XesClassifier>)
        ensures
            res == &self.classifiers,
    {
        &self.classifiers
    }

    pub fn ordered_properties(&self) -> (res: &Vec<(String, EventPayloadValue)>)
        ensures
            res == &self.properties,
    {
        &self.properties
    }

    pub fn ordered_globals(&self) -> (res: &Vec<(String, Vec<(String, EventPayloadValue)>)>)
        ensures
            res == &self.globals,
    {
        &self.globals
    }

    pub fn traces(&self) -> (res: &Vec<XesTrace>)
        ensures
            res == &self.traces,
    {
        &self.traces
    }
}

impl XesEvent {
    /// An event with the name, dated at the start of the second
    /// `timestamp`, and no payload.
    pub fn new(name: String, timestamp: i64) -> (res: Self)
        ensures
            res.name@ == name@,
            res.timestamp == timestamp,
            res.timestamp_nanos == 0,
            res.payload@.len() == 0,
    {
        XesEvent { name, timestamp, timestamp_nanos: 0, payload: Vec::new() }
    }

    /// An event with the name, dated at the latest instant, and no payload.
    pub fn new_with_max_date(name: String) -> (res: Self)
        ensures
            res.name@ == name@,
            res.timestamp == MAX_TIMESTAMP,
            res.timestamp_nanos == MAX_TIMESTAMP_NANOS,
            res.payload@.len() == 0,
    {
        XesEvent { name, timestamp: MAX_TIMESTAMP, timestamp_nanos: MAX_TIMESTAMP_NANOS, payload: Vec::new() }
    }

    /// An event with the name, dated at the earliest instant.
    pub fn new_with_min_date(name: String) -> (res: Self)
        ensures
            res.name@ == name@,
            res.timestamp == MIN_TIMESTAMP,
            res.timestamp_nanos == 0,
            res.payload@.len() == 0,
    {
        Self::new(name, MIN_TIMESTAMP)
    }

    pub fn name(&self) -> (res: &String)
        ensures
            res == &self.name,
    {
        &self.name
    }

    pub fn timestamp(&self) -> (res: i64)
        ensures
            res == self.timestamp,
    {
        self.timestamp
    }

    pub fn timestamp_nanos(&self) -> (res: u32)
        ensures
            res == self.timestamp_nanos,
    {
        self.timestamp_nanos
    }

    pub fn ordered_payload(&self) -> (res: &Vec<(String, EventPayloadValue)>)
        ensures
            res == &self.payload,
    {
        &self.payload
    }
}

impl XesTrace {
    /// A trace without events.
    pub fn empty() -> (res: Self)
        ensures
            res.events@.len() == 0,
    {
        XesTrace { events: Vec::new() }
    }

    /// Appends the event.
    pub fn push(&mut self, event: XesEvent)
        ensures
            final(self).events@ == old(self).events@.push(event),
    {
        self.events.push(event);
    }

    pub fn events(&self) -> (res: &Vec<XesEvent>)
        ensures
            res == &self.events,
    {
        &self.events
    }
}

impl XesEventLogImpl {
    /// Appends the trace.
    pub fn push(&mut self, trace: XesTrace)
        ensures
            final(self).traces@ == old(self).traces@.push(trace),
            final(self).extensions == old(self).extensions,
            final(self).classifiers == old(self).classifiers,
            final(self).properties == old(self).properties,
            final(self).globals == old(self).globals,
    {
        self.traces.push(trace);
    }
}

} // verus!
