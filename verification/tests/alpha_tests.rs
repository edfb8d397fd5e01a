use ficus::features::discovery::alpha::alpha_plus_nfc::AlphaPlusNfcRelationsProvider;
use ficus::features::discovery::alpha::alpha::find_transitions_one_length_loop;
use ficus::event_log::simple_event_log::SimpleEventLog;
use ficus::features::analysis::event_log_info::EventLogInfo;
use ficus::features::discovery::alpha::alpha::discover_petri_net_alpha;
use ficus::features::discovery::alpha::alpha_provider::{AlphaRelationsProvider, DefaultAlphaRelationsProvider};
use ficus::features::discovery::alpha::alpha_set::AlphaSet;
use ficus::features::discovery::alpha::alpha_plus::{
    add_alpha_plus_plus_transitions, add_one_length_loops, discover_petri_net_alpha_plus,
};
use ficus::features::petri_net::net::PetriNet;

fn provider_for(raw: Vec<Vec<&str>>) -> DefaultAlphaRelationsProvider {
    let log = SimpleEventLog::new(&raw);
    DefaultAlphaRelationsProvider::new(EventLogInfo::create_from(&log))
}

fn place_names(raw: Vec<Vec<&str>>) -> Vec<String> {
    let provider = provider_for(raw);
    let net = discover_petri_net_alpha(&provider);
    let mut names: Vec<String> = net.all_places().iter().map(|p| p.name().clone()).collect();
    names.sort();
    names
}

#[test]
fn log_info_collects_classes_and_follows() {
    let log = SimpleEventLog::new(&vec![vec!["A", "B", "C"], vec!["A", "C"]]);
    let info = EventLogInfo::create_from(&log);
    assert_eq!(info.all_event_classes(), &vec!["A".to_string(), "B".to_string(), "C".to_string()]);
    assert_eq!(info.start_event_classes(), &vec!["A".to_string()]);
    assert_eq!(info.end_event_classes(), &vec!["C".to_string()]);
    assert!(info.has_followed_events(&"A".to_string()));
    assert!(!info.has_followed_events(&"C".to_string()));
}

#[test]
fn relations_of_default_provider() {
    let provider = provider_for(vec![vec!["A", "B", "C"], vec!["A", "C", "B"]]);
    let (a, b, c) = ("A".to_string(), "B".to_string(), "C".to_string());
    assert!(provider.causal_relation(&a, &b));
    assert!(!provider.causal_relation(&b, &a));
    assert!(provider.parallel_relation(&b, &c));
    assert!(provider.unrelated_relation(&a, &a));
    assert!(!provider.unrelated_relation(&b, &c));
    assert!(provider.direct_relation(&c, &b));
}

#[test]
fn alpha_on_sequence() {
    assert_eq!(
        place_names(vec![vec!["A", "B", "C"]]),
        vec!["({A}, {B})".to_string(), "({B}, {C})".to_string(), "EndPlace".to_string(), "StartPlace".to_string()]
    );
}

#[test]
fn alpha_merges_choices_into_one_place() {
    // B and C are alternatives after A: one place (A, B|C), one place (B|C, D)
    assert_eq!(
        place_names(vec![vec!["A", "B", "D"], vec!["A", "C", "D"]]),
        vec![
            "({A}, {B, C})".to_string(),
            "({B, C}, {D})".to_string(),
            "EndPlace".to_string(),
            "StartPlace".to_string()
        ]
    );
}

#[test]
fn alpha_keeps_parallel_branches_apart() {
    // B and C in parallel: separate places for each branch
    assert_eq!(
        place_names(vec![vec!["A", "B", "C", "D"], vec!["A", "C", "B", "D"]]),
        vec![
            "({A}, {B})".to_string(),
            "({A}, {C})".to_string(),
            "({B}, {D})".to_string(),
            "({C}, {D})".to_string(),
            "EndPlace".to_string(),
            "StartPlace".to_string()
        ]
    );
}

#[test]
fn alpha_net_structure() {
    let provider = provider_for(vec![vec!["A", "B"]]);
    let net = discover_petri_net_alpha(&provider);
    let transitions = net.all_transitions();
    assert_eq!(transitions.len(), 2);
    assert_eq!(transitions[0].name(), "A");
    assert_eq!(transitions[0].id(), 0);
    assert_eq!(transitions[1].name(), "B");
    assert!(!transitions[0].is_silent());
    let places = net.all_places();
    assert_eq!(places.len(), 3);
    assert_eq!(places[0].name(), "({A}, {B})");
    let start = places[1].id();
    let end = places[2].id();
    let out_a: Vec<u64> = transitions[0].outgoing_arcs().iter().map(|a| a.place_id()).collect();
    let in_a: Vec<u64> = transitions[0].incoming_arcs().iter().map(|a| a.place_id()).collect();
    let out_b: Vec<u64> = transitions[1].outgoing_arcs().iter().map(|a| a.place_id()).collect();
    let in_b: Vec<u64> = transitions[1].incoming_arcs().iter().map(|a| a.place_id()).collect();
    assert_eq!(out_a, vec![places[0].id()]);
    assert_eq!(in_a, vec![start]);
    assert_eq!(out_b, vec![end]);
    assert_eq!(in_b, vec![places[0].id()]);
    assert_eq!(net.initial_marking().as_ref().unwrap().active_places()[0].place_id(), start);
    assert_eq!(net.final_marking().as_ref().unwrap().active_places()[0].place_id(), end);
}

#[test]
fn alpha_set_operations() {
    let mut first = AlphaSet::new("B".to_string(), "D".to_string());
    first.insert_left_class("A".to_string());
    let second = AlphaSet::new("C".to_string(), "E".to_string());
    let joined = first.extend(&second);
    assert_eq!(joined.to_string(), "({A, B, C}, {D, E})");
    assert!(first.is_full_subset(&joined));
    assert!(!second.is_left_subset(&first));
    assert!(joined.same_as(&second.extend(&first)));
    let mut empty = AlphaSet::empty();
    assert_eq!(empty.to_string(), "({}, {})");
    empty.insert_right_class("X".to_string());
    assert_eq!(empty.right_classes(), &vec!["X".to_string()]);
}

#[test]
fn one_length_loops_found() {
    let log = SimpleEventLog::new(&vec![vec!["A", "B", "B", "C"], vec!["C", "C", "A"], vec!["A"], vec!["B", "B"]]);
    let mut found = find_transitions_one_length_loop(&log);
    found.sort();
    assert_eq!(found, vec!["B".to_string(), "C".to_string()]);
    let none = find_transitions_one_length_loop(&SimpleEventLog::new(&vec![vec!["A", "B", "A"]]));
    assert!(none.is_empty());
}

fn nfc_log(traces: Vec<Vec<&str>>) -> SimpleEventLog {
    SimpleEventLog::new(&traces)
}

#[test]
fn test_nfc_triangle_and_causal() {
    let log = nfc_log(vec![vec!["a", "b", "a"], vec!["a", "c"]]);
    let info = EventLogInfo::create_from(&log);
    let provider = AlphaPlusNfcRelationsProvider::new(&info, &log, vec![]);
    let a = "a".to_string();
    let b = "b".to_string();
    let c = "c".to_string();
    assert!(provider.triangle_relation(&a, &b));
    assert!(!provider.triangle_relation(&b, &a));
    assert!(!provider.romb_relation(&a, &b));
    // a and b follow each other, but the triangle makes them causal rather than parallel
    assert!(provider.causal_relation(&a, &b));
    assert!(provider.causal_relation(&b, &a));
    assert!(!provider.parallel_relation(&a, &b));
    assert!(provider.causal_relation(&a, &c));
    assert!(!provider.causal_relation(&c, &a));
    assert!(provider.unrelated_relation(&b, &c));
}

#[test]
fn test_nfc_additional_causal_relation() {
    let log = nfc_log(vec![vec!["a", "b"]]);
    let info = EventLogInfo::create_from(&log);
    let mut provider = AlphaPlusNfcRelationsProvider::new(&info, &log, vec!["x".to_string()]);
    let a = "a".to_string();
    let b = "b".to_string();
    assert!(!provider.causal_relation(&b, &a));
    provider.add_additional_causal_relation(&b, &a);
    assert!(provider.causal_relation(&b, &a));
    assert_eq!(provider.one_length_loop_transitions(), &vec!["x".to_string()]);
}

#[test]
fn test_nfc_triangles_and_double_arrow() {
    // d causes both b and c, which never follow each other
    let log = nfc_log(vec![vec!["a", "c", "b"], vec!["d", "b"], vec!["d", "c"]]);
    let info = EventLogInfo::create_from(&log);
    let provider = AlphaPlusNfcRelationsProvider::new(&info, &log, vec![]);
    let a = "a".to_string();
    let b = "b".to_string();
    let c = "c".to_string();
    let d = "d".to_string();
    assert!(provider.left_triangle_relation(&d, &d) == false);
    assert!(provider.right_double_arrow_relation(&a, &b));
    assert!(!provider.right_double_arrow_relation(&a, &c));
    assert!(!provider.right_double_arrow_relation(&b, &a));
    assert!(provider.concave_arrow_relation(&a, &b));
    assert!(provider.concave_arrow_relation(&a, &c));
    assert!(!provider.concave_arrow_relation(&c, &a));
    let _ = provider.right_triangle_relation(&b, &c);
}

#[test]
fn test_nfc_net_relations_on_a_sequence() {
    let log = nfc_log(vec![vec!["a", "c", "b"]]);
    let info = EventLogInfo::create_from(&log);
    let net = discover_petri_net_alpha(&DefaultAlphaRelationsProvider::new(EventLogInfo::create_from(&log)));
    let provider = AlphaPlusNfcRelationsProvider::new(&info, &log, vec![]);
    let a = "a".to_string();
    let b = "b".to_string();
    assert!(provider.right_double_arrow_relation(&a, &b));
    assert!(!provider.w1_relation(&a, &b, &net));
    assert!(!provider.calculate_w1_relation(&a, &b, &net));
    assert!(!provider.w21_relation(&a, &b, &net));
    assert!(!provider.w22_relation(&a, &b, &net));
    assert!(!provider.w2_relation(&a, &b, &net));
    assert!(!provider.w3_relation(&a, &b, &net));
    assert!(!provider.calculate_w3_relation(&a, &b, &net));
}

#[test]
fn one_length_loop_gets_a_self_loop_place() {
    let log = SimpleEventLog::new(&vec![vec!["A", "B", "B", "C"], vec!["A", "C"]]);
    let loops = find_transitions_one_length_loop(&log);
    assert_eq!(loops, vec!["B".to_string()]);
    let mut net = PetriNet::empty();
    add_one_length_loops(&log, &vec!["B".to_string(), "B".to_string()], &mut net);
    let transitions = net.all_transitions();
    assert_eq!(transitions.len(), 2);
    assert_eq!(net.all_places().len(), 1);
    let place = &net.all_places()[0];
    assert_eq!(place.name(), &AlphaSet::new("A".to_string(), "C".to_string()).to_string());
    for transition in transitions {
        assert_eq!(transition.name(), "B");
        assert_eq!(transition.incoming_arcs().len(), 1);
        assert_eq!(transition.outgoing_arcs().len(), 1);
        assert_eq!(transition.incoming_arcs()[0].place_id(), place.id());
        assert_eq!(transition.outgoing_arcs()[0].place_id(), place.id());
    }
}

#[test]
fn alpha_plus_adds_loops_to_the_alpha_net() {
    let log = SimpleEventLog::new(&vec![vec!["A", "B", "B", "C"], vec!["A", "C"]]);
    let info = EventLogInfo::create_from(&log);
    let loops = find_transitions_one_length_loop(&log);
    let provider = AlphaPlusNfcRelationsProvider::new(&info, &log, loops);
    let alpha_net = discover_petri_net_alpha(&provider);
    let net = discover_petri_net_alpha_plus(&log, &provider, false);
    let n = alpha_net.all_transitions().len();
    assert_eq!(net.all_transitions().len(), n + 1);
    let added = &net.all_transitions()[n];
    assert_eq!(added.name(), "B");
    let place_id = added.incoming_arcs()[0].place_id();
    assert_eq!(added.outgoing_arcs()[0].place_id(), place_id);
    let place = net.place(place_id).unwrap();
    assert_eq!(place.name(), &AlphaSet::new("A".to_string(), "C".to_string()).to_string());
}

fn alpha_set(left: &[&str], right: &[&str]) -> AlphaSet {
    let mut set = AlphaSet::empty();
    for class in left {
        set.insert_left_class(class.to_string());
    }
    for class in right {
        set.insert_right_class(class.to_string());
    }
    set
}

#[test]
fn alpha_plus_plus_connects_through_contained_sets() {
    let mut net = PetriNet::empty();
    let l = net.add_transition("L".to_string(), false, Some("L".to_string()));
    let other = net.add_transition("M".to_string(), false, None);
    let p1 = net.add_place("p1".to_string());
    let p2 = net.add_place("p2".to_string());
    let p3 = net.add_place("p3".to_string());
    net.connect_transition_to_place(l, p2);
    net.connect_place_to_transition(p3, l);
    net.connect_transition_to_place(other, p2);
    let place_sets = vec![
        (p1, alpha_set(&["a"], &["b"])),
        (p2, alpha_set(&["a", "c"], &["b", "d"])),
        (p3, alpha_set(&["a"], &["b"])),
    ];
    add_alpha_plus_plus_transitions(&vec!["L".to_string()], &place_sets, &mut net);
    let transitions = net.all_transitions();
    let outs = |i: usize| transitions[i].outgoing_arcs().iter().map(|a| a.place_id()).collect::<Vec<u64>>();
    let ins = |i: usize| transitions[i].incoming_arcs().iter().map(|a| a.place_id()).collect::<Vec<u64>>();
    assert_eq!(outs(0), vec![p2, p2]);
    assert_eq!(ins(0), vec![p3, p3]);
    assert_eq!(outs(1), vec![p2]);
    assert_eq!(ins(1), Vec::<u64>::new());
}

#[test]
fn alpha_plus_plus_needs_contained_sets() {
    let mut net = PetriNet::empty();
    let l = net.add_transition("L".to_string(), false, None);
    let p1 = net.add_place("p1".to_string());
    let p2 = net.add_place("p2".to_string());
    net.connect_transition_to_place(l, p2);
    let place_sets = vec![(p1, alpha_set(&["x"], &["y"])), (p2, alpha_set(&["a"], &["b"]))];
    add_alpha_plus_plus_transitions(&vec!["L".to_string()], &place_sets, &mut net);
    let outs: Vec<u64> = net.all_transitions()[0].outgoing_arcs().iter().map(|a| a.place_id()).collect();
    assert_eq!(outs, vec![p2]);
}

#[test]
fn alpha_plus_plus_keeps_the_alpha_plus_arcs() {
    let log = SimpleEventLog::new(&vec![vec!["A", "B", "B", "C"], vec!["A", "C"]]);
    let info = EventLogInfo::create_from(&log);
    let loops = find_transitions_one_length_loop(&log);
    let provider = AlphaPlusNfcRelationsProvider::new(&info, &log, loops);
    let plus = discover_petri_net_alpha_plus(&log, &provider, false);
    let plus_plus = discover_petri_net_alpha_plus(&log, &provider, true);
    assert_eq!(plus.all_places().len(), plus_plus.all_places().len());
    assert_eq!(plus.all_transitions().len(), plus_plus.all_transitions().len());
    for (a, b) in plus.all_transitions().iter().zip(plus_plus.all_transitions().iter()) {
        assert_eq!(a.id(), b.id());
        let a_out: Vec<u64> = a.outgoing_arcs().iter().map(|x| x.place_id()).collect();
        let b_out: Vec<u64> = b.outgoing_arcs().iter().map(|x| x.place_id()).collect();
        assert_eq!(&b_out[..a_out.len()], &a_out[..]);
    }
}
