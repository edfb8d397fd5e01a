use ficus::features::petri_net::net::PetriNet;
use ficus::features::petri_net::pnml_serialization::{decimal_string, pnml_events, serialize_to_pnml};
use ficus::utils::xml_utils::XmlEvent;

fn describe(events: &Vec<XmlEvent>) -> Vec<String> {
    events
        .iter()
        .map(|e| match e {
            XmlEvent::Start { name, attributes } => {
                let attrs: Vec<String> = attributes.iter().map(|(k, v)| format!("{}={}", k, v)).collect();
                format!("<{} {}>", name, attrs.join(" "))
            }
            XmlEvent::End { name } => format!("</{}>", name),
            XmlEvent::Text { text } => format!("'{}'", text),
            XmlEvent::Empty { name, .. } => format!("<{}/>", name),
        })
        .collect()
}

fn small_net() -> PetriNet {
    let mut net = PetriNet::empty();
    let p2 = net.add_place("p2".to_string());
    let p1 = net.add_place("p1".to_string());
    let b = net.add_transition("B".to_string(), false, None);
    let a = net.add_transition("A".to_string(), false, Some("data".to_string()));
    net.connect_place_to_transition(p1, a);
    net.connect_transition_to_place(a, p2);
    net.connect_place_to_transition(p2, b);
    net
}

#[test]
fn decimal_strings() {
    assert_eq!(decimal_string(0), "0");
    assert_eq!(decimal_string(7), "7");
    assert_eq!(decimal_string(1234567890), "1234567890");
    assert_eq!(decimal_string(u64::MAX), u64::MAX.to_string());
}

#[test]
fn pnml_events_with_names() {
    let net = small_net();
    assert_eq!(
        describe(&pnml_events(&net, true)),
        vec![
            "<pnml >", "<net >",
            "<place id=p1>", "</place>", "<place id=p2>", "</place>",
            "<transition id=A>", "<name >", "<text >", "'data'", "</text>", "</name>", "</transition>",
            "<transition id=B>", "</transition>",
            "<arc id=[{p1}--{A}] source=p1 target=A>", "</arc>",
            "<arc id=[{A}--{p2}] target=p2 source=A>", "</arc>",
            "<arc id=[{p2}--{B}] source=p2 target=B>", "</arc>",
            "</net>", "</pnml>",
        ]
    );
}

#[test]
fn pnml_events_with_numbers() {
    let net = small_net();
    // places 0 (p2) and 1 (p1), transitions 2 (B) and 3 (A), arcs 4, 5, 6
    assert_eq!(
        describe(&pnml_events(&net, false)),
        vec![
            "<pnml >", "<net >",
            "<place id=1>", "</place>", "<place id=0>", "</place>",
            "<transition id=3>", "<name >", "<text >", "'data'", "</text>", "</name>", "</transition>",
            "<transition id=2>", "</transition>",
            "<arc id=4 source=1 target=3>", "</arc>",
            "<arc id=5 target=0 source=3>", "</arc>",
            "<arc id=6 source=0 target=2>", "</arc>",
            "</net>", "</pnml>",
        ]
    );
}

#[test]
fn arcs_sorted_by_id_text() {
    let mut net = PetriNet::empty();
    let t = net.add_transition("T".to_string(), false, None);
    let z = net.add_place("z".to_string());
    let a = net.add_place("a".to_string());
    net.connect_place_to_transition(z, t);
    net.connect_place_to_transition(a, t);
    let events = describe(&pnml_events(&net, true));
    assert_eq!(events[8], "<arc id=[{a}--{T}] source=a target=T>");
    assert_eq!(events[10], "<arc id=[{z}--{T}] source=z target=T>");
}

#[test]
fn serialize_small_net() {
    let mut net = PetriNet::empty();
    net.add_place("p".to_string());
    let t = net.add_transition("A".to_string(), false, Some("A".to_string()));
    let _ = t;
    let text = match serialize_to_pnml(&net, true) {
        Ok(text) => text,
        Err(_) => panic!("serialization failed"),
    };
    assert_eq!(
        text,
        "<pnml>\n  <net>\n    <place id=\"p\">\n    </place>\n    <transition id=\"A\">\n      <name>\n        <text>A</text>\n      </name>\n    </transition>\n  </net>\n</pnml>"
    );
}

#[test]
fn serialize_escapes_text() {
    let mut net = PetriNet::empty();
    net.add_place("a<b".to_string());
    let text = match serialize_to_pnml(&net, true) {
        Ok(text) => text,
        Err(_) => panic!("serialization failed"),
    };
    assert!(text.contains("<place id=\"a&lt;b\">"));
}
