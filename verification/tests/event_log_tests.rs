use ficus::event_log::simple_event_log::{SimpleEvent, SimpleEventLog, SimpleTrace, MIN_TIMESTAMP};

fn names(log: &SimpleEventLog) -> Vec<Vec<String>> {
    log.traces.iter().map(|t| t.events.iter().map(|e| e.name.clone()).collect()).collect()
}

#[test]
fn test_simple_trace_dates_are_one_second_apart() {
    let trace = SimpleTrace::new(&vec!["a", "b", "c"]);
    let dates: Vec<i64> = trace.events().iter().map(|e| e.timestamp()).collect();
    assert_eq!(dates, vec![MIN_TIMESTAMP, MIN_TIMESTAMP + 1, MIN_TIMESTAMP + 2]);
    assert_eq!(trace.to_names_vec(), vec!["a", "b", "c"]);
}

#[test]
fn test_clone_keeps_names_and_dates() {
    let log = SimpleEventLog::new(&vec![vec!["a", "b"], vec!["c"]]);
    let copy = log.clone();
    assert_eq!(names(&copy), names(&log));
    assert_eq!(copy.traces[0].events[1].timestamp, MIN_TIMESTAMP + 1);
    let event = SimpleEvent::new("x".to_string(), 42);
    let event_copy = event.clone();
    assert_eq!(event_copy.name, "x");
    assert_eq!(event_copy.timestamp, 42);
}

#[test]
fn test_remove_events_by_keeps_order() {
    let mut trace = SimpleTrace::new(&vec!["a", "b", "a", "c"]);
    trace.remove_events_by(|e: &SimpleEvent| e.name == "a");
    assert_eq!(trace.to_names_vec(), vec!["b", "c"]);
    assert_eq!(trace.events()[0].timestamp, MIN_TIMESTAMP + 1);
}

#[test]
fn test_filter_events_by_applies_to_every_trace() {
    let mut log = SimpleEventLog::new(&vec![vec!["a", "b"], vec!["b", "b", "c"], vec![]]);
    log.filter_events_by(|e: &SimpleEvent| e.name == "b");
    assert_eq!(names(&log), vec![vec!["a".to_string()], vec!["c".to_string()], vec![]]);
}

#[test]
fn test_filter_traces_by_position_and_length() {
    let mut log = SimpleEventLog::new(&vec![vec!["a"], vec!["b", "c"], vec!["d"], vec!["e", "f", "g"]]);
    log.filter_traces(&|_: &SimpleTrace, index: &usize| *index == 2);
    assert_eq!(names(&log).len(), 3);
    log.filter_traces(&|trace: &SimpleTrace, _: &usize| trace.events().len() < 2);
    assert_eq!(
        names(&log),
        vec![vec!["b".to_string(), "c".to_string()], vec!["e".to_string(), "f".to_string(), "g".to_string()]]
    );
}

#[test]
fn test_events_mut_changes_the_trace() {
    let mut trace = SimpleTrace::new(&vec!["a"]);
    trace.events_mut().push(SimpleEvent::new("z".to_string(), 7));
    trace.events_mut()[0].set_name("y".to_string());
    assert_eq!(trace.to_names_vec(), vec!["y", "z"]);
}

#[test]
fn test_simple_event_log_new_dates_each_trace_from_the_start() {
    let log = SimpleEventLog::new(&vec![vec!["a", "b"], vec!["c", "d", "e"]]);
    let dates: Vec<Vec<i64>> = log.traces.iter().map(|t| t.events.iter().map(|e| e.timestamp).collect()).collect();
    assert_eq!(dates, vec![vec![MIN_TIMESTAMP, MIN_TIMESTAMP + 1], vec![MIN_TIMESTAMP, MIN_TIMESTAMP + 1, MIN_TIMESTAMP + 2]]);
}
