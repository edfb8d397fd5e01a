use ficus::features::petri_net::replay::replay_petri_net;
use ficus::features::petri_net::marking::ensure_initial_marking;
use ficus::event_log::simple_event_log::SimpleEventLog;
use ficus::features::petri_net::marking::{Marking, SingleMarking};
use ficus::features::petri_net::net::PetriNet;
use ficus::features::petri_net::replay::ReplayState;

#[test]
fn replay_fires_named_transition() {
    let mut net = PetriNet::empty();
    let start = net.add_place("start".to_string());
    let end = net.add_place("end".to_string());
    let t = net.add_transition("A".to_string(), false, Some("A".to_string()));
    net.connect_place_to_transition(start, t);
    net.connect_transition_to_place(t, end);
    let state = ReplayState::new(Marking::new(vec![SingleMarking::new(start, 1)]));
    let next = ReplayState::handle_transition(&state, &net, "A").unwrap();
    assert_eq!(next.len(), 1);
    assert!(next[0].0);
    assert_eq!(next[0].1.fired_transitions(), &vec![t]);
    assert_eq!(next[0].1.markings.get(&end), Some(&1));
    assert_eq!(next[0].1.markings.get(&start), None);
}

#[test]
fn ensure_initial_marking_adds_start_and_end() {
    let mut net = PetriNet::empty();
    let a = net.add_transition("A".to_string(), false, None);
    let b = net.add_transition("B".to_string(), false, None);
    let c = net.add_transition("C".to_string(), false, None);
    let log = SimpleEventLog::new(&vec![vec!["A", "B"], vec!["A", "C"], vec!["X", "A"]]);
    ensure_initial_marking(&log, &mut net);
    let places = net.all_places();
    assert_eq!(places.len(), 2);
    assert_eq!(places[0].name(), "Start");
    assert_eq!(places[1].name(), "End");
    let start = places[0].id();
    let end = places[1].id();
    let transitions = net.all_transitions();
    let ins = |i: usize| transitions[i].incoming_arcs().iter().map(|a| a.place_id()).collect::<Vec<u64>>();
    let outs = |i: usize| transitions[i].outgoing_arcs().iter().map(|a| a.place_id()).collect::<Vec<u64>>();
    assert_eq!(transitions[0].id(), a);
    assert_eq!(ins(0), vec![start]);
    assert_eq!(outs(0), vec![end]);
    assert_eq!(transitions[1].id(), b);
    assert_eq!(ins(1), Vec::<u64>::new());
    assert_eq!(outs(1), vec![end]);
    assert_eq!(transitions[2].id(), c);
    assert_eq!(outs(2), vec![end]);
    assert_eq!(start, c + 1);
    assert_eq!(end, c + 2);
    assert_eq!(transitions[0].incoming_arcs()[0].id(), c + 3);
    assert_eq!(transitions[1].outgoing_arcs()[0].id(), c + 4);
    assert_eq!(transitions[2].outgoing_arcs()[0].id(), c + 5);
    assert_eq!(transitions[0].outgoing_arcs()[0].id(), c + 6);
    assert_eq!(transitions[0].incoming_arcs()[0].tokens_count(), 1);
    assert_eq!(transitions[2].outgoing_arcs()[0].tokens_count(), 1);
    let marking = net.initial_marking().as_ref().unwrap();
    assert_eq!(marking.active_places().len(), 1);
    assert_eq!(marking.active_places()[0].place_id(), start);
    assert_eq!(marking.active_places()[0].tokens_count(), 1);
}

fn sequence_net() -> (PetriNet, u64, u64, u64, u64) {
    let mut net = PetriNet::empty();
    let start = net.add_place("start".to_string());
    let middle = net.add_place("middle".to_string());
    let end = net.add_place("end".to_string());
    let a = net.add_transition("A".to_string(), false, None);
    let b = net.add_transition("B".to_string(), false, None);
    net.connect_place_to_transition(start, a);
    net.connect_transition_to_place(a, middle);
    net.connect_place_to_transition(middle, b);
    net.connect_transition_to_place(b, end);
    net.set_initial_marking(Marking::new(vec![SingleMarking::new(start, 1)]));
    (net, a, b, start, end)
}

#[test]
fn replay_accepts_and_rejects_traces() {
    let (net, a, b, _, end) = sequence_net();
    let log = SimpleEventLog::new(&vec![vec!["A", "B"], vec!["B", "A"], vec!["A"], vec![]]);
    let states = replay_petri_net(&log, &net).unwrap();
    assert_eq!(states.len(), 4);
    let first = states[0].as_ref().unwrap();
    assert_eq!(first.fired_transitions(), &vec![a, b]);
    assert_eq!(first.markings.get(&end), Some(&1));
    assert!(states[1].is_none());
    assert_eq!(states[2].as_ref().unwrap().fired_transitions(), &vec![a]);
    assert_eq!(states[3].as_ref().unwrap().fired_transitions(), &Vec::<u64>::new());
}

#[test]
fn replay_without_initial_marking() {
    let mut net = PetriNet::empty();
    net.add_transition("A".to_string(), false, None);
    assert!(replay_petri_net(&SimpleEventLog::new(&vec![vec!["A"]]), &net).is_none());
    assert_eq!(replay_petri_net(&SimpleEventLog::new(&vec![]), &net).unwrap().len(), 0);
}

#[test]
fn replay_fires_silent_transitions() {
    let mut net = PetriNet::empty();
    let p0 = net.add_place("p0".to_string());
    let p1 = net.add_place("p1".to_string());
    let p2 = net.add_place("p2".to_string());
    let tau = net.add_transition("tau".to_string(), true, None);
    let a = net.add_transition("A".to_string(), false, None);
    net.connect_place_to_transition(p0, tau);
    net.connect_transition_to_place(tau, p1);
    net.connect_place_to_transition(p1, a);
    net.connect_transition_to_place(a, p2);
    net.set_initial_marking(Marking::new(vec![SingleMarking::new(p0, 1)]));
    let states = replay_petri_net(&SimpleEventLog::new(&vec![vec!["A"]]), &net).unwrap();
    let state = states[0].as_ref().unwrap();
    assert_eq!(state.fired_transitions(), &vec![tau, a]);
    assert_eq!(state.markings.get(&p2), Some(&1));
}
