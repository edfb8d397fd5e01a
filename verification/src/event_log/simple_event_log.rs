use vstd::prelude::*;

verus! {

/// The earliest instant that dates of events can hold, in seconds since the
/// Unix epoch: chrono's earliest UTC date and time.
pub const MIN_TIMESTAMP: i64 = -8334601228800i64;

/// The latest instant that dates of events can hold, in seconds since the
/// Unix epoch: chrono's latest UTC date and time (the last second of the year
/// 262142).
pub const MAX_TIMESTAMP: i64 = 8210266876799i64;

/// An instant that chrono's UTC dates can hold: a second between the earliest
/// and the latest, and the nanoseconds within it, which reach past a whole
/// second only for a leap second, in the last second of a minute.
pub open spec fn valid_instant(seconds: i64, nanos: u32) -> bool {
    &&& MIN_TIMESTAMP <= seconds <= MAX_TIMESTAMP
    &&& (nanos < 1_000_000_000 || (nanos < 2_000_000_000 && seconds % 60 == 59))
}

/// The nanoseconds of chrono's latest UTC date and time within its last second.
pub const MAX_TIMESTAMP_NANOS: u32 = 999999999u32;

/// An event: its name (its class) and its date: whole seconds since the Unix
/// epoch (UTC) and the nanoseconds within that second.
pub struct SimpleEvent {
    pub name: String,
    pub timestamp: i64,
    pub timestamp_nanos: u32,
}

/// A trace: the events of one case, in order.
pub struct SimpleTrace {
    pub events: Vec<SimpleEvent>,
}

/// An event log: its traces, in order.
pub struct SimpleEventLog {
    pub traces: Vec<SimpleTrace>,
}

/// The names of the events of a trace.
pub open spec fn trace_names(trace: SimpleTrace) -> Seq<Seq<char>> {
    trace.events@.map_values(|e: SimpleEvent| e.name@)
}

/// The names of the events of each trace of a log.
pub open spec fn log_names(log: SimpleEventLog) -> Seq<Seq<Seq<char>>> {
    log.traces@.map_values(|t: SimpleTrace| trace_names(t))
}

impl SimpleEvent {
    /// An event dated at the start of the second `timestamp`.
    pub fn new(name: String, timestamp: i64) -> (res: Self)
        ensures
            res.name == name,
            res.timestamp == timestamp,
            res.timestamp_nanos == 0,
    {
        Self { name, timestamp, timestamp_nanos: 0 }
    }

    /// An event dated at the earliest instant.
    pub fn new_with_min_date(name: String) -> (res: Self)
        ensures
            res.name == name,
            res.timestamp == MIN_TIMESTAMP,
            res.timestamp_nanos == 0,
    {
        Self::new(name, MIN_TIMESTAMP)
    }

    /// An event dated at the latest instant, the last nanosecond of the
    /// latest second.
    pub fn new_with_max_date(name: String) -> (res: Self)
        ensures
            res.name == name,
            res.timestamp == MAX_TIMESTAMP,
            res.timestamp_nanos == MAX_TIMESTAMP_NANOS,
    {
        Self { name, timestamp: MAX_TIMESTAMP, timestamp_nanos: MAX_TIMESTAMP_NANOS }
    }

    pub fn name(&self) -> (res: &String)
        ensures
            res@ == self.name@,
    {
        &self.name
    }

    pub fn timestamp(&self) -> (res: i64)
        ensures
            res == self.timestamp,
    {
        self.timestamp
    }

    pub fn timestamp_nanos(&self) -> (res: u32)
        ensures
            res == self.timestamp_nanos,
    {
        self.timestamp_nanos
    }

    pub fn set_name(&mut self, new_name: String)
        ensures
            final(self).name == new_name,
            final(self).timestamp == old(self).timestamp,
            final(self).timestamp_nanos == old(self).timestamp_nanos,
    {
        self.name = new_name;
    }

    /// Dates the event at the second `new_timestamp` and `new_nanos`
    /// nanoseconds within it.
    pub fn set_timestamp(&mut self, new_timestamp: i64, new_nanos: u32)
        ensures
            final(self).name == old(self).name,
            final(self).timestamp == new_timestamp,
            final(self).timestamp_nanos == new_nanos,
    {
        self.timestamp = new_timestamp;
        self.timestamp_nanos = new_nanos;
    }
}

impl SimpleTrace {
    pub fn empty() -> (res: Self)
        ensures
            res.events@.len() == 0,
    {
        Self { events: Vec::new() }
    }

    /// A trace of events with the given names, one second apart, the first at
    /// the earliest instant (the date after the last event must exist too).
    pub fn new(raw_trace: &Vec<&str>) -> (res: Self)
        requires
            raw_trace@.len() <= MAX_TIMESTAMP - MIN_TIMESTAMP,
        ensures
            res.events@.len() == raw_trace@.len(),
            forall|i: int| 0 <= i < raw_trace@.len() ==> (#[trigger] res.events@[i]).name@ == raw_trace@[i]@
                && res.events@[i].timestamp == MIN_TIMESTAMP + i,
    {
        let mut events: Vec<SimpleEvent> = Vec::new();
        let mut current_date: i64 = MIN_TIMESTAMP;
        let mut i: usize = 0;
        while i < raw_trace.len()
            invariant
                i <= raw_trace@.len(),
                raw_trace@.len() <= MAX_TIMESTAMP - MIN_TIMESTAMP,
                events@.len() == i,
                current_date == MIN_TIMESTAMP + i,
                forall|j: int| 0 <= j < i ==> (#[trigger] events@[j]).name@ == raw_trace@[j]@
                    && events@[j].timestamp == MIN_TIMESTAMP + j,
            decreases raw_trace@.len() - i,
        {
            events.push(SimpleEvent::new(raw_trace[i].to_string(), current_date));
            current_date = current_date + 1;
            i = i + 1;
        }
        Self { events }
    }

    pub fn push(&mut self, event: SimpleEvent)
        ensures
            final(self).events@ == old(self).events@.push(event),
    {
        self.events.push(event);
    }

    pub fn events(&self) -> (res: &Vec<SimpleEvent>)
        ensures
            res@ == self.events@,
    {
        &self.events
    }

    /// The events, to change in place.
    pub fn events_mut(&mut self) -> (res: &mut Vec<SimpleEvent>)
        ensures
            *res == old(self).events,
            final(self).events == *final(res),
    {
        &mut self.events
    }

    /// The names of the events, in order.
    pub fn to_names_vec(&self) -> (res: Vec<String>)
        ensures
            res@.map_values(|s: String| s@) == trace_names(*self),
    {
        let mut names: Vec<String> = Vec::new();
        let mut i: usize = 0;
        while i < self.events.len()
            invariant
                i <= self.events@.len(),
                names@.map_values(|s: String| s@) == trace_names(*self).take(i as int),
            decreases self.events@.len() - i,
        {
            let ghost before = names@;
            names.push(self.events[i].name.clone());
            proof {
                assert(names@.map_values(|s: String| s@) =~= before.map_values(|s: String| s@).push(self.events@[i as int].name@));
                assert(names@.map_values(|s: String| s@) =~= trace_names(*self).take(i + 1));
            }
            i = i + 1;
        }
        proof {
            assert(trace_names(*self).take(i as int) =~= trace_names(*self));
        }
        names
    }
}

impl SimpleEventLog {
    /// A log with one trace per list of names (see `SimpleTrace::new`).
    pub fn new(raw_event_log: &Vec<Vec<&str>>) -> (res: SimpleEventLog)
        requires
            forall|i: int| 0 <= i < raw_event_log@.len() ==> (#[trigger] raw_event_log@[i])@.len() <= MAX_TIMESTAMP - MIN_TIMESTAMP,
        ensures
            res.traces@.len() == raw_event_log@.len(),
            forall|i: int| 0 <= i < raw_event_log@.len() ==> trace_names(#[trigger] res.traces@[i]) == raw_event_log@[i]@.map_values(|s: &str| s@),
            forall|i: int, j: int| 0 <= i < raw_event_log@.len() && 0 <= j < res.traces@[i].events@.len()
                ==> (#[trigger] res.traces@[i].events@[j]).timestamp == MIN_TIMESTAMP + j,
    {
        let mut traces: Vec<SimpleTrace> = Vec::new();
        let mut i: usize = 0;
        while i < raw_event_log.len()
            invariant
                i <= raw_event_log@.len(),
                forall|k: int| 0 <= k < raw_event_log@.len() ==> (#[trigger] raw_event_log@[k])@.len() <= MAX_TIMESTAMP - MIN_TIMESTAMP,
                traces@.len() == i,
                forall|k: int| 0 <= k < i ==> trace_names(#[trigger] traces@[k]) == raw_event_log@[k]@.map_values(|s: &str| s@),
                forall|k: int, j: int| 0 <= k < i && 0 <= j < traces@[k].events@.len()
                    ==> (#[trigger] traces@[k].events@[j]).timestamp == MIN_TIMESTAMP + j,
            decreases raw_event_log@.len() - i,
        {
            let trace = SimpleTrace::new(&raw_event_log[i]);
            proof {
                assert(trace_names(trace) =~= raw_event_log@[i as int]@.map_values(|s: &str| s@));
            }
            traces.push(trace);
            i = i + 1;
        }
        SimpleEventLog { traces }
    }

    pub fn empty() -> (res: Self)
        ensures
            res.traces@.len() == 0,
    {
        Self { traces: Vec::new() }
    }

    pub fn push(&mut self, trace: SimpleTrace)
        ensures
            final(self).traces@ == old(self).traces@.push(trace),
    {
        self.traces.push(trace);
    }

    pub fn traces(&self) -> (res: &Vec<SimpleTrace>)
        ensures
            res@ == self.traces@,
    {
        &self.traces
    }

    /// The names of the events of each trace.
    pub fn to_raw_vector(&self) -> (res: Vec<Vec<String>>)
        ensures
            res@.len() == self.traces@.len(),
            forall|i: int| 0 <= i < res@.len() ==> (#[trigger] res@[i])@.map_values(|s: String| s@) == trace_names(self.traces@[i]),
    {
        let mut raw: Vec<Vec<String>> = Vec::new();
        let mut i: usize = 0;
        while i < self.traces.len()
            invariant
                i <= self.traces@.len(),
                raw@.len() == i,
                forall|k: int| 0 <= k < i ==> (#[trigger] raw@[k])@.map_values(|s: String| s@) == trace_names(self.traces@[k]),
            decreases self.traces@.len() - i,
        {
            raw.push(self.traces[i].to_names_vec());
            i = i + 1;
        }
        raw
    }
}

/// Two traces hold events with the same names and dates, in the same order.
pub open spec fn same_events(a: SimpleTrace, b: SimpleTrace) -> bool {
    &&& a.events@.len() == b.events@.len()
    &&& forall|i: int| 0 <= i < a.events@.len() ==> (#[trigger] a.events@[i]).name@ == b.events@[i].name@
        && a.events@[i].timestamp == b.events@[i].timestamp && a.events@[i].timestamp_nanos == b.events@[i].timestamp_nanos
}

impl Clone for SimpleEvent {
    fn clone(&self) -> (res: Self)
        ensures
            res.name@ == self.name@,
            res.timestamp == self.timestamp,
            res.timestamp_nanos == self.timestamp_nanos,
    {
        SimpleEvent { name: self.name.clone(), timestamp: self.timestamp, timestamp_nanos: self.timestamp_nanos }
    }
}

impl Clone for SimpleTrace {
    fn clone(&self) -> (res: Self)
        ensures
            same_events(res, *self),
    {
        let mut events: Vec<SimpleEvent> = Vec::new();
        let mut i: usize = 0;
        while i < self.events.len()
            invariant
                i <= self.events@.len(),
                events@.len() == i,
                forall|j: int| 0 <= j < i ==> (#[trigger] events@[j]).name@ == self.events@[j].name@
                    && events@[j].timestamp == self.events@[j].timestamp
                    && events@[j].timestamp_nanos == self.events@[j].timestamp_nanos,
            decreases self.events@.len() - i,
        {
            events.push(self.events[i].clone());
            i = i + 1;
        }
        SimpleTrace { events }
    }
}

impl Clone for SimpleEventLog {
    fn clone(&self) -> (res: Self)
        ensures
            res.traces@.len() == self.traces@.len(),
            forall|t: int| 0 <= t < self.traces@.len() ==> same_events(#[trigger] res.traces@[t], self.traces@[t]),
    {
        let mut traces: Vec<SimpleTrace> = Vec::new();
        let mut t: usize = 0;
        while t < self.traces.len()
            invariant
                t <= self.traces@.len(),
                traces@.len() == t,
                forall|j: int| 0 <= j < t ==> same_events(#[trigger] traces@[j], self.traces@[j]),
            decreases self.traces@.len() - t,
        {
            traces.push(self.traces[t].clone());
            t = t + 1;
        }
        SimpleEventLog { traces }
    }
}

/// The items whose entry of `removed` is false, in order.
pub open spec fn kept<T>(items: Seq<T>, removed: Seq<bool>) -> Seq<T>
    decreases items.len(),
{
    if items.len() == 0 {
        Seq::empty()
    } else if removed[items.len() - 1] {
        kept(items.drop_last(), removed)
    } else {
        kept(items.drop_last(), removed).push(items.last())
    }
}

/// `after` is `before` without the events for which the predicate answered
/// true, each event asked once, in order.
pub open spec fn events_removed_by<P: Fn(&SimpleEvent) -> bool>(predicate: P, before: Seq<SimpleEvent>, after: Seq<SimpleEvent>) -> bool {
    exists|removed: Seq<bool>| #![trigger kept(before, removed)]
        removed.len() == before.len()
        && (forall|i: int| 0 <= i < before.len() ==> #[trigger] predicate.ensures((&before[i],), removed[i]))
        && after == kept(before, removed)
}

/// The kept items are, of the positions in order, those whose entry of
/// `removed` is false, each taken to its item.
pub proof fn lemma_kept_filter<T>(items: Seq<T>, removed: Seq<bool>)
    ensures
        kept(items, removed)
            == Seq::new(items.len(), |i: int| i).filter(|i: int| !removed[i]).map_values(|i: int| items[i]),
    decreases items.len(),
{
    reveal(Seq::filter);
    if items.len() > 0 {
        let n = items.len() - 1;
        let front = items.drop_last();
        lemma_kept_filter(front, removed);
        let idx = Seq::new(items.len(), |i: int| i);
        let p = |i: int| !removed[i];
        let f = |i: int| items[i];
        let g = |i: int| front[i];
        assert(idx.drop_last() =~= Seq::new(front.len(), |i: int| i));
        let rest = idx.drop_last().filter(p);
        assert(idx.last() == n);
        assert(idx.filter(p) == (if p(n) { rest.push(n) } else { rest }));
        assert(rest =~= Seq::new(front.len(), |i: int| i).filter(p));
        assert forall|j: int| 0 <= j < rest.len() implies 0 <= #[trigger] rest[j] < front.len() by {
            assert(rest.contains(rest[j]));
            Seq::new(front.len(), |i: int| i).lemma_filter_contains_rev(p, rest[j]);
        }
        assert(rest.map_values(f) =~= rest.map_values(g));
        if p(n) {
            assert(rest.push(n).map_values(f) =~= rest.map_values(f).push(items.last()));
        }
    }
}

proof fn lemma_kept_prefix<T>(items: Seq<T>, removed: Seq<bool>, n: int)
    requires
        0 <= n < items.len(),
    ensures
        kept(items.take(n + 1), removed) == (if removed[n] { kept(items.take(n), removed) } else {
            kept(items.take(n), removed).push(items[n])
        }),
{
    assert(items.take(n + 1).drop_last() =~= items.take(n));
}

/// The events without those for which the predicate answers true.
fn remove_from<P: Fn(&SimpleEvent) -> bool>(events: Vec<SimpleEvent>, predicate: &P) -> (res: Vec<SimpleEvent>)
    requires
        forall|e: &SimpleEvent| #[trigger] predicate.requires((e,)),
    ensures
        events_removed_by(*predicate, events@, res@),
{
    let ghost before = events@;
    let mut rest = events;
    let mut res: Vec<SimpleEvent> = Vec::new();
    let ghost mut removed: Seq<bool> = Seq::empty();
    let ghost mut n: int = 0;
    proof {
        assert(before.take(0) =~= Seq::<SimpleEvent>::empty());
    }
    while rest.len() > 0
        invariant
            0 <= n <= before.len(),
            rest@ == before.skip(n),
            removed.len() == n,
            forall|i: int| 0 <= i < n ==> #[trigger] predicate.ensures((&before[i],), removed[i]),
            forall|e: &SimpleEvent| #[trigger] predicate.requires((e,)),
            res@ == kept(before.take(n), removed),
        decreases rest@.len(),
    {
        let event = rest.remove(0);
        let remove = predicate(&event);
        proof {
            assert(event == before[n]);
            lemma_kept_prefix(before, removed.push(remove), n);
            assert(kept(before.take(n), removed.push(remove)) == kept(before.take(n), removed)) by {
                lemma_kept_agree(before.take(n), removed, removed.push(remove));
            }
        }
        if !remove {
            res.push(event);
        }
        proof {
            removed = removed.push(remove);
            assert(rest@ =~= before.skip(n + 1));
            n = n + 1;
        }
    }
    proof {
        assert(before.take(n) =~= before);
    }
    res
}

impl SimpleTrace {
    /// Removes the events for which the predicate answers true.
    pub fn remove_events_by<P: Fn(&SimpleEvent) -> bool>(&mut self, predicate: P)
        requires
            forall|e: &SimpleEvent| #[trigger] predicate.requires((e,)),
        ensures
            events_removed_by(predicate, old(self).events@, final(self).events@),
    {
        let mut events: Vec<SimpleEvent> = Vec::new();
        std::mem::swap(&mut events, &mut self.events);
        self.events = remove_from(events, &predicate);
    }
}

proof fn lemma_kept_agree<T>(items: Seq<T>, a: Seq<bool>, b: Seq<bool>)
    requires
        forall|i: int| 0 <= i < items.len() ==> a[i] == b[i],
    ensures
        kept(items, a) == kept(items, b),
    decreases items.len(),
{
    if items.len() > 0 {
        lemma_kept_agree(items.drop_last(), a, b);
    }
}

/// `after` is `before` without the traces for which the predicate answered
/// true, each trace asked once with its position, in order.
pub open spec fn traces_removed_by<Q: Fn(&SimpleTrace, &usize) -> bool>(predicate: Q, before: Seq<SimpleTrace>, after: Seq<SimpleTrace>) -> bool {
    exists|removed: Seq<bool>| #![trigger kept(before, removed)]
        removed.len() == before.len()
        && (forall|i: int| 0 <= i < before.len() ==> #[trigger] predicate.ensures((&before[i], &(i as usize)), removed[i]))
        && after == kept(before, removed)
}

impl SimpleEventLog {
    /// Removes from every trace the events for which the predicate answers true.
    pub fn filter_events_by<P: Fn(&SimpleEvent) -> bool>(&mut self, predicate: P)
        requires
            forall|e: &SimpleEvent| #[trigger] predicate.requires((e,)),
        ensures
            final(self).traces@.len() == old(self).traces@.len(),
            forall|t: int| 0 <= t < old(self).traces@.len()
                ==> events_removed_by(predicate, old(self).traces@[t].events@, #[trigger] final(self).traces@[t].events@),
    {
        let ghost before = self.traces@;
        let mut rest: Vec<SimpleTrace> = Vec::new();
        std::mem::swap(&mut rest, &mut self.traces);
        let ghost mut n: int = 0;
        while rest.len() > 0
            invariant
                0 <= n <= before.len(),
                rest@ == before.skip(n),
                self.traces@.len() == n,
                forall|e: &SimpleEvent| #[trigger] predicate.requires((e,)),
                forall|t: int| 0 <= t < n ==> events_removed_by(predicate, before[t].events@, #[trigger] self.traces@[t].events@),
            decreases rest@.len(),
        {
            let trace = rest.remove(0);
            proof {
                assert(trace == before[n]);
            }
            let events = remove_from(trace.events, &predicate);
            self.traces.push(SimpleTrace { events });
            proof {
                assert(rest@ =~= before.skip(n + 1));
                n = n + 1;
            }
        }
    }

    /// Removes the traces for which the predicate, asked with each trace and
    /// its position, answers true.
    pub fn filter_traces<Q: Fn(&SimpleTrace, &usize) -> bool>(&mut self, predicate: &Q)
        requires
            forall|t: &SimpleTrace, i: &usize| #[trigger] predicate.requires((t, i)),
        ensures
            traces_removed_by(*predicate, old(self).traces@, final(self).traces@),
    {
        let ghost before = self.traces@;
        let count = self.traces.len();
        let mut rest: Vec<SimpleTrace> = Vec::new();
        std::mem::swap(&mut rest, &mut self.traces);
        let ghost mut removed: Seq<bool> = Seq::empty();
        let mut index: usize = 0;
        proof {
            assert(before.take(0) =~= Seq::<SimpleTrace>::empty());
        }
        while rest.len() > 0
            invariant
                0 <= index <= before.len(),
                before.len() == count,
                rest@ == before.skip(index as int),
                removed.len() == index,
                forall|i: int| 0 <= i < index ==> #[trigger] predicate.ensures((&before[i], &(i as usize)), removed[i]),
                forall|t: &SimpleTrace, i: &usize| #[trigger] predicate.requires((t, i)),
                self.traces@ == kept(before.take(index as int), removed),
            decreases rest@.len(),
        {
            let trace = rest.remove(0);
            let remove = predicate(&trace, &index);
            proof {
                assert(trace == before[index as int]);
                lemma_kept_prefix(before, removed.push(remove), index as int);
                lemma_kept_agree(before.take(index as int), removed, removed.push(remove));
            }
            if !remove {
                self.traces.push(trace);
            }
            proof {
                removed = removed.push(remove);
                assert(rest@ =~= before.skip(index + 1));
            }
            index = index + 1;
        }
        proof {
            assert(before.take(index as int) =~= before);
        }
    }
}

} // verus!
