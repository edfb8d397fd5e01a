use vstd::prelude::*;

use super::net::{Arc, PetriNet, Place, Transition};
use vstd::string::StringExecFns;
use crate::utils::vec_utils::{keyed, lemma_stable_sort_keyed, lemma_stable_sort_permutes, sort_by_first, stable_sort_by_first, stable_sort_by_key};
use crate::utils::xml_utils::{
    attributes_view, concat_map, end_view, events_view, lemma_concat_map_step, push_event, start_view, text_view, write_events, XmlEvent,
    XmlEventView, XmlWriteError,
};
use vstd::utf8::{decode_utf8, valid_utf8};
use crate::utils::xml_utils::xml_document;
use crate::utils::decimal::{ascii_bytes, digit_char, digits, digits_value, lemma_digits_read_back};

verus! {

/// The text of a decimal digit.
pub open spec fn digit_text(d: nat) -> Seq<char> {
    if d == 0 {
        "0"@
    } else if d == 1 {
        "1"@
    } else if d == 2 {
        "2"@
    } else if d == 3 {
        "3"@
    } else if d == 4 {
        "4"@
    } else if d == 5 {
        "5"@
    } else if d == 6 {
        "6"@
    } else if d == 7 {
        "7"@
    } else if d == 8 {
        "8"@
    } else {
        "9"@
    }
}

/// The digits of the number in base ten, without leading zeros.
pub open spec fn decimal(n: nat) -> Seq<char>
    decreases n,
{
    if n < 10 {
        digit_text(n)
    } else {
        decimal(n / 10) + digit_text(n % 10)
    }
}

/// The text of a digit is that digit's one character.
proof fn lemma_digit_text_char(d: nat)
    requires
        d < 10,
    ensures
        digit_text(d) == seq![digit_char(d)],
{
    reveal_strlit("0");
    reveal_strlit("1");
    reveal_strlit("2");
    reveal_strlit("3");
    reveal_strlit("4");
    reveal_strlit("5");
    reveal_strlit("6");
    reveal_strlit("7");
    reveal_strlit("8");
    reveal_strlit("9");
    assert(digit_text(d) =~= seq![digit_char(d)]);
}

/// The text that a number gets in the document is its decimal digits, and
/// read back as ASCII digits it gives the number again.
pub proof fn lemma_decimal_reads_back(n: nat)
    ensures
        decimal(n) == digits(n),
        digits_value(ascii_bytes(decimal(n))) == n,
    decreases n,
{
    if n < 10 {
        lemma_digit_text_char(n);
    } else {
        lemma_decimal_reads_back(n / 10);
        lemma_digit_text_char(n % 10);
        assert(decimal(n) =~= digits(n));
    }
    lemma_digits_read_back(n);
}

fn digit_str(d: u64) -> (res: &'static str)
    requires
        d < 10,
    ensures
        res@ == digit_text(d as nat),
{
    match d {
        0 => "0",
        1 => "1",
        2 => "2",
        3 => "3",
        4 => "4",
        5 => "5",
        6 => "6",
        7 => "7",
        8 => "8",
        _ => "9",
    }
}

/// The number written in base ten.
pub fn decimal_string(n: u64) -> (res: String)
    ensures
        res@ == decimal(n as nat),
    decreases n,
{
    if n < 10 {
        digit_str(n).to_owned()
    } else {
        let mut res = decimal_string(n / 10);
        res.append(digit_str(n % 10));
        res
    }
}

/// The orders of the keys: their indices, sorted by the keys; equal keys keep
/// their order.
#[verifier::opaque]
pub open spec fn key_order(keys: Seq<Seq<char>>) -> Seq<usize> {
    stable_sort_by_key(Seq::new(keys.len(), |k: int| (keys[k], k as usize))).map_values(|p: (Seq<char>, usize)| p.1)
}

/// The indices of the strings, sorted by the strings (stably).
fn sorted_order(keys: &Vec<String>) -> (res: Vec<usize>)
    ensures
        res@ == key_order(Seq::new(keys@.len(), |k: int| keys@[k]@)),
        res@.len() == keys@.len(),
        forall|k: int| 0 <= k < res@.len() ==> (#[trigger] res@[k]) < keys@.len(),
{
    let mut pairs: Vec<(&String, usize)> = Vec::new();
    let mut k: usize = 0;
    while k < keys.len()
        invariant
            k <= keys@.len(),
            pairs@.len() == k,
            forall|j: int| 0 <= j < k ==> (#[trigger] pairs@[j]).0@ == keys@[j]@ && pairs@[j].1 == j,
        decreases keys@.len() - k,
    {
        pairs.push((&keys[k], k));
        k = k + 1;
    }
    let ghost unsorted = pairs@;
    proof {
        assert(keyed(unsorted) =~= Seq::new(keys@.len(), |k: int| (Seq::new(keys@.len(), |k: int| keys@[k]@)[k], k as usize)));
    }
    sort_by_first(&mut pairs);
    proof {
        lemma_stable_sort_keyed(unsorted);
        lemma_stable_sort_permutes(unsorted);
    }
    let mut res: Vec<usize> = Vec::new();
    let mut i: usize = 0;
    while i < pairs.len()
        invariant
            i <= pairs@.len(),
            pairs@ == stable_sort_by_first(unsorted),
            pairs@.len() == keys@.len(),
            unsorted.len() == keys@.len(),
            forall|j: int| 0 <= j < keys@.len() ==> (#[trigger] unsorted[j]).1 == j,
            stable_sort_by_first(unsorted).to_multiset() =~= unsorted.to_multiset(),
            res@.len() == i,
            forall|j: int| 0 <= j < i ==> #[trigger] res@[j] == pairs@[j].1 && res@[j] < keys@.len(),
        decreases pairs@.len() - i,
    {
        proof {
            broadcast use vstd::seq_lib::group_to_multiset_ensures;
            assert(pairs@.to_multiset().contains(pairs@[i as int]));
            assert(unsorted.contains(pairs@[i as int]));
            let j = choose|j: int| 0 <= j < unsorted.len() && unsorted[j] == pairs@[i as int];
            assert(unsorted[j].1 == j);
        }
        res.push(pairs[i].1);
        i = i + 1;
    }
    proof {
        reveal(key_order);
        assert(res@ =~= keyed(pairs@).map_values(|p: (Seq<char>, usize)| p.1));
    }
    res
}

pub const PNML_TAG_NAME: &'static str = "pnml";
pub const TRANSITION_TAG_NAME: &'static str = "transition";
pub const ARC_TAG_NAME: &'static str = "arc";
pub const PLACE_TAG_NAME: &'static str = "place";
pub const NET_TAG_NAME: &'static str = "net";
pub const TEXT_TAG_NAME: &'static str = "text";
pub const NAME_TAG_NAME: &'static str = "name";

pub const ID_ATTR_NAME: &'static str = "id";
pub const SOURCE_ATTR_NAME: &'static str = "source";
pub const TARGET_ATTR_NAME: &'static str = "target";

/// The first place with the id.
pub open spec fn first_place(places: Seq<Place>, id: u64) -> Place {
    places[choose|i: int| 0 <= i < places.len() && places[i].id == id && forall|j: int| 0 <= j < i ==> places[j].id != id]
}

/// The id that the document gives a place: its name or its number.
pub open spec fn place_ident(place: Place, use_names_as_ids: bool) -> Seq<char> {
    if use_names_as_ids {
        place.name@
    } else {
        decimal(place.id as nat)
    }
}

/// The id that the document gives a transition: its name or its number.
pub open spec fn transition_ident(transition: Transition, use_names_as_ids: bool) -> Seq<char> {
    if use_names_as_ids {
        transition.name@
    } else {
        decimal(transition.id as nat)
    }
}

/// The name of an arc from `from` to `to`: `[{from}--{to}]`.
pub open spec fn arc_name(from: Seq<char>, to: Seq<char>) -> Seq<char> {
    "[{"@ + from + "}--{"@ + to + "}]"@
}

/// The arcs that enter the transition (`incoming`) or leave it.
pub open spec fn arcs_of(transition: Transition, incoming: bool) -> Seq<Arc> {
    if incoming {
        transition.incoming_arcs@
    } else {
        transition.outgoing_arcs@
    }
}

/// The id that the document gives an arc: its name between its place and
/// transition, or its number.
pub open spec fn arc_ident(net: PetriNet, transition: Transition, arc: Arc, incoming: bool, use_names_as_ids: bool) -> Seq<char> {
    if use_names_as_ids {
        if incoming {
            arc_name(place_ident(first_place(net.places@, arc.place_id), true), transition_ident(transition, true))
        } else {
            arc_name(transition_ident(transition, true), place_ident(first_place(net.places@, arc.place_id), true))
        }
    } else {
        decimal(arc.id as nat)
    }
}

/// The places' indices in the order of their names.
pub open spec fn place_order(places: Seq<Place>) -> Seq<usize> {
    key_order(Seq::new(places.len(), |i: int| places[i].name@))
}

/// The transitions' indices in the order of their names.
pub open spec fn transition_order(transitions: Seq<Transition>) -> Seq<usize> {
    key_order(Seq::new(transitions.len(), |i: int| transitions[i].name@))
}

/// The arcs' indices in the order of their ids.
pub open spec fn arc_order(net: PetriNet, transition: Transition, incoming: bool, use_names_as_ids: bool) -> Seq<usize> {
    key_order(Seq::new(arcs_of(transition, incoming).len(), |k: int| arc_ident(net, transition, arcs_of(transition, incoming)[k], incoming, use_names_as_ids)))
}

/// The element of a place: `<place id="..."></place>`.
pub open spec fn place_element(place: Place, use_names_as_ids: bool) -> Seq<XmlEventView> {
    seq![
        start_view(PLACE_TAG_NAME@, seq![(ID_ATTR_NAME@, place_ident(place, use_names_as_ids))]),
        end_view(PLACE_TAG_NAME@),
    ]
}

/// The element of a transition, with its data as the text of its name when it has data.
pub open spec fn transition_element(transition: Transition, use_names_as_ids: bool) -> Seq<XmlEventView> {
    seq![start_view(TRANSITION_TAG_NAME@, seq![(ID_ATTR_NAME@, transition_ident(transition, use_names_as_ids))])]
        + match transition.data {
            Some(data) => seq![
                start_view(NAME_TAG_NAME@, Seq::empty()),
                start_view(TEXT_TAG_NAME@, Seq::empty()),
                text_view(data@),
                end_view(TEXT_TAG_NAME@),
                end_view(NAME_TAG_NAME@),
            ],
            None => Seq::empty(),
        }
        + seq![end_view(TRANSITION_TAG_NAME@)]
}

/// The element of an arc: its id, then its source and target for an arc
/// entering the transition, its target and source for one leaving it.
pub open spec fn arc_element(net: PetriNet, transition: Transition, arc: Arc, incoming: bool, use_names_as_ids: bool) -> Seq<XmlEventView> {
    let id = arc_ident(net, transition, arc, incoming, use_names_as_ids);
    let place = place_ident(first_place(net.places@, arc.place_id), use_names_as_ids);
    let transition_id = transition_ident(transition, use_names_as_ids);
    seq![
        start_view(
            ARC_TAG_NAME@,
            if incoming {
                seq![(ID_ATTR_NAME@, id), (SOURCE_ATTR_NAME@, place), (TARGET_ATTR_NAME@, transition_id)]
            } else {
                seq![(ID_ATTR_NAME@, id), (TARGET_ATTR_NAME@, place), (SOURCE_ATTR_NAME@, transition_id)]
            },
        ),
        end_view(ARC_TAG_NAME@),
    ]
}

pub open spec fn place_elements(places: Seq<Place>, use_names_as_ids: bool) -> spec_fn(usize) -> Seq<XmlEventView> {
    |i: usize| place_element(places[i as int], use_names_as_ids)
}

pub open spec fn transition_elements(transitions: Seq<Transition>, use_names_as_ids: bool) -> spec_fn(usize) -> Seq<XmlEventView> {
    |i: usize| transition_element(transitions[i as int], use_names_as_ids)
}

pub open spec fn arc_elements(net: PetriNet, transition: Transition, incoming: bool, use_names_as_ids: bool) -> spec_fn(usize) -> Seq<XmlEventView> {
    |k: usize| arc_element(net, transition, arcs_of(transition, incoming)[k as int], incoming, use_names_as_ids)
}

/// The arcs of a transition: those entering it, then those leaving it, each
/// in the order of their ids.
pub open spec fn transition_arc_elements(net: PetriNet, transition: Transition, use_names_as_ids: bool) -> Seq<XmlEventView> {
    concat_map(arc_order(net, transition, true, use_names_as_ids), arc_elements(net, transition, true, use_names_as_ids))
        + concat_map(arc_order(net, transition, false, use_names_as_ids), arc_elements(net, transition, false, use_names_as_ids))
}

pub open spec fn transitions_arc_elements(net: PetriNet, use_names_as_ids: bool) -> spec_fn(usize) -> Seq<XmlEventView> {
    |i: usize| transition_arc_elements(net, net.transitions@[i as int], use_names_as_ids)
}

/// The PNML document of the net: in `<pnml><net>`, the places in the order
/// of their names, the transitions in the order of their names, then the arcs
/// of each transition in that order.
pub open spec fn pnml_document(net: PetriNet, use_names_as_ids: bool) -> Seq<XmlEventView> {
    seq![start_view(PNML_TAG_NAME@, Seq::empty()), start_view(NET_TAG_NAME@, Seq::empty())]
        + concat_map(place_order(net.places@), place_elements(net.places@, use_names_as_ids))
        + concat_map(transition_order(net.transitions@), transition_elements(net.transitions@, use_names_as_ids))
        + concat_map(transition_order(net.transitions@), transitions_arc_elements(net, use_names_as_ids))
        + seq![end_view(NET_TAG_NAME@), end_view(PNML_TAG_NAME@)]
}

/// Every arc of the net ends in a place of the net.
pub open spec fn arcs_reach_places(net: PetriNet) -> bool {
    &&& forall|i: int, k: int| 0 <= i < net.transitions@.len() && 0 <= k < net.transitions@[i].incoming_arcs@.len()
        ==> net.has_place(#[trigger] net.transitions@[i].incoming_arcs@[k].place_id)
    &&& forall|i: int, k: int| 0 <= i < net.transitions@.len() && 0 <= k < net.transitions@[i].outgoing_arcs@.len()
        ==> net.has_place(#[trigger] net.transitions@[i].outgoing_arcs@[k].place_id)
}

fn start_event(name: &str, attributes: Vec<(String, String)>) -> (res: XmlEvent)
    ensures
        res@ == start_view(name@, attributes_view(attributes@)),
{
    XmlEvent::Start { name: name.to_owned(), attributes }
}

fn end_event(name: &str) -> (res: XmlEvent)
    ensures
        res@ == end_view(name@),
{
    XmlEvent::End { name: name.to_owned() }
}

/// The id that the document gives the place.
fn create_place_id(place: &Place, use_names_as_ids: bool) -> (res: String)
    ensures
        res@ == place_ident(*place, use_names_as_ids),
{
    if use_names_as_ids {
        place.name.clone()
    } else {
        decimal_string(place.id)
    }
}

/// The id that the document gives the transition.
fn create_transition_id(transition: &Transition, use_names_as_ids: bool) -> (res: String)
    ensures
        res@ == transition_ident(*transition, use_names_as_ids),
{
    if use_names_as_ids {
        transition.name.clone()
    } else {
        decimal_string(transition.id)
    }
}

/// The name of the arc between the two ids: `[{from}--{to}]`.
fn create_arc_name(from_name: String, to_name: String) -> (res: String)
    ensures
        res@ == arc_name(from_name@, to_name@),
{
    let mut res = String::new();
    res.append("[{");
    res.append(from_name.as_str());
    res.append("}--{");
    res.append(to_name.as_str());
    res.append("}]");
    assert(res@ =~= arc_name(from_name@, to_name@));
    res
}

/// The first place with the id, which the net must have.
fn find_place(net: &PetriNet, id: u64) -> (res: &Place)
    requires
        net.has_place(id),
    ensures
        *res == first_place(net.places@, id),
{
    match net.place(id) {
        Some(place) => {
            proof {
                let i = choose|i: int| 0 <= i < net.places@.len() && net.places@[i] == *place && place.id == id
                    && forall|j: int| 0 <= j < i ==> net.places@[j].id != id;
                let c = choose|c: int| 0 <= c < net.places@.len() && net.places@[c].id == id
                    && forall|j: int| 0 <= j < c ==> net.places@[j].id != id;
                if i < c {
                    assert(net.places@[i].id != id);
                }
                if c < i {
                    assert(net.places@[c].id != id);
                }
            }
            place
        },
        None => {
            assert(false);
            &net.places[0]
        },
    }
}

/// The places' elements in the order of the places' names.
fn write_places(net: &PetriNet, events: &mut Vec<XmlEvent>, use_names_as_ids: bool)
    ensures
        events_view(final(events)@) == events_view(old(events)@)
            + concat_map(place_order(net.places@), place_elements(net.places@, use_names_as_ids)),
{
    let mut names: Vec<String> = Vec::new();
    let mut i: usize = 0;
    while i < net.places.len()
        invariant
            i <= net.places@.len(),
            names@.len() == i,
            forall|j: int| 0 <= j < i ==> (#[trigger] names@[j])@ == net.places@[j].name@,
        decreases net.places@.len() - i,
    {
        names.push(net.places[i].name.clone());
        i = i + 1;
    }
    proof {
        assert(Seq::new(names@.len(), |k: int| names@[k]@) =~= Seq::new(net.places@.len(), |k: int| net.places@[k].name@));
    }
    let order = sorted_order(&names);
    let ghost start = events_view(events@);
    let ghost f = place_elements(net.places@, use_names_as_ids);
    let mut q: usize = 0;
    proof {
        assert(order@.take(0) =~= Seq::<usize>::empty());
        assert(events_view(events@) =~= start + concat_map(order@.take(0), f));
    }
    while q < order.len()
        invariant
            q <= order@.len(),
            order@ == place_order(net.places@),
            order@.len() == net.places@.len(),
            forall|k: int| 0 <= k < order@.len() ==> (#[trigger] order@[k]) < net.places@.len(),
            f == place_elements(net.places@, use_names_as_ids),
            events_view(events@) == start + concat_map(order@.take(q as int), f),
        decreases order@.len() - q,
    {
        let place = &net.places[order[q]];
        let mut attributes: Vec<(String, String)> = Vec::new();
        attributes.push((ID_ATTR_NAME.to_owned(), create_place_id(place, use_names_as_ids)));
        proof {
            assert(attributes_view(attributes@) =~= seq![(ID_ATTR_NAME@, place_ident(*place, use_names_as_ids))]);
        }
        push_event(events, start_event(PLACE_TAG_NAME, attributes));
        push_event(events, end_event(PLACE_TAG_NAME));
        proof {
            lemma_concat_map_step(order@, f, q as int);
            assert(f(order@[q as int]) == place_element(*place, use_names_as_ids));
            assert(events_view(events@) =~= start + concat_map(order@.take(q + 1), f));
        }
        q = q + 1;
    }
    proof {
        assert(order@.take(q as int) =~= order@);
    }
}

/// The transitions in the order of their names.
fn created_ordered_transitions_list(net: &PetriNet) -> (res: Vec<&Transition>)
    ensures
        res@.len() == transition_order(net.transitions@).len(),
        transition_order(net.transitions@).len() == net.transitions@.len(),
        forall|k: int| 0 <= k < res@.len() ==> (#[trigger] transition_order(net.transitions@)[k]) < net.transitions@.len()
            && *res@[k] == net.transitions@[transition_order(net.transitions@)[k] as int],
{
    let mut names: Vec<String> = Vec::new();
    let mut i: usize = 0;
    while i < net.transitions.len()
        invariant
            i <= net.transitions@.len(),
            names@.len() == i,
            forall|j: int| 0 <= j < i ==> (#[trigger] names@[j])@ == net.transitions@[j].name@,
        decreases net.transitions@.len() - i,
    {
        names.push(net.transitions[i].name.clone());
        i = i + 1;
    }
    proof {
        assert(Seq::new(names@.len(), |k: int| names@[k]@) =~= Seq::new(net.transitions@.len(), |k: int| net.transitions@[k].name@));
    }
    let order = sorted_order(&names);
    let mut res: Vec<&Transition> = Vec::new();
    let mut q: usize = 0;
    while q < order.len()
        invariant
            q <= order@.len(),
            order@ == transition_order(net.transitions@),
            order@.len() == net.transitions@.len(),
            forall|k: int| 0 <= k < order@.len() ==> (#[trigger] order@[k]) < net.transitions@.len(),
            res@.len() == q,
            forall|k: int| 0 <= k < q ==> *(#[trigger] res@[k]) == net.transitions@[order@[k] as int],
        decreases order@.len() - q,
    {
        res.push(&net.transitions[order[q]]);
        q = q + 1;
    }
    res
}

/// The transitions' elements in the order of the transitions' names.
fn write_transitions(net: &PetriNet, events: &mut Vec<XmlEvent>, use_names_as_ids: bool)
    ensures
        events_view(final(events)@) == events_view(old(events)@)
            + concat_map(transition_order(net.transitions@), transition_elements(net.transitions@, use_names_as_ids)),
{
    let transitions = created_ordered_transitions_list(net);
    let ghost order = transition_order(net.transitions@);
    let ghost start = events_view(events@);
    let ghost f = transition_elements(net.transitions@, use_names_as_ids);
    let mut q: usize = 0;
    proof {
        assert(order.take(0) =~= Seq::<usize>::empty());
        assert(events_view(events@) =~= start + concat_map(order.take(0), f));
    }
    while q < transitions.len()
        invariant
            q <= transitions@.len(),
            transitions@.len() == order.len(),
            order == transition_order(net.transitions@),
            forall|k: int| 0 <= k < transitions@.len() ==> (#[trigger] order[k]) < net.transitions@.len()
                && *transitions@[k] == net.transitions@[order[k] as int],
            f == transition_elements(net.transitions@, use_names_as_ids),
            events_view(events@) == start + concat_map(order.take(q as int), f),
        decreases transitions@.len() - q,
    {
        let transition = transitions[q];
        let ghost before = events_view(events@);
        let mut attributes: Vec<(String, String)> = Vec::new();
        attributes.push((ID_ATTR_NAME.to_owned(), create_transition_id(transition, use_names_as_ids)));
        proof {
            assert(attributes_view(attributes@) =~= seq![(ID_ATTR_NAME@, transition_ident(*transition, use_names_as_ids))]);
        }
        push_event(events, start_event(TRANSITION_TAG_NAME, attributes));
        match &transition.data {
            Some(data) => {
                push_event(events, start_event(NAME_TAG_NAME, Vec::new()));
                push_event(events, start_event(TEXT_TAG_NAME, Vec::new()));
                push_event(events, XmlEvent::Text { text: data.clone() });
                push_event(events, end_event(TEXT_TAG_NAME));
                push_event(events, end_event(NAME_TAG_NAME));
            },
            None => {},
        }
        push_event(events, end_event(TRANSITION_TAG_NAME));
        proof {
            assert(attributes_view(Seq::<(String, String)>::empty()) =~= Seq::empty());
            lemma_concat_map_step(order, f, q as int);
            assert(f(order[q as int]) == transition_element(*transition, use_names_as_ids));
            assert(events_view(events@) =~= before + transition_element(*transition, use_names_as_ids));
            assert(events_view(events@) =~= start + concat_map(order.take(q + 1), f));
        }
        q = q + 1;
    }
    proof {
        assert(order.take(q as int) =~= order);
    }
}

/// The arcs of the transition (entering it when `incoming`) with the ids that
/// the document gives them, in the order of those ids.
fn patch_arcs_list<'a>(net: &PetriNet, transition: &'a Transition, incoming: bool, use_names_as_ids: bool) -> (res: Vec<(&'a Arc, String)>)
    requires
        forall|k: int| 0 <= k < arcs_of(*transition, incoming).len() ==> net.has_place(#[trigger] arcs_of(*transition, incoming)[k].place_id),
    ensures
        res@.len() == arc_order(*net, *transition, incoming, use_names_as_ids).len(),
        arc_order(*net, *transition, incoming, use_names_as_ids).len() == arcs_of(*transition, incoming).len(),
        forall|q: int| 0 <= q < res@.len() ==> {
            &&& (#[trigger] arc_order(*net, *transition, incoming, use_names_as_ids)[q]) < arcs_of(*transition, incoming).len()
            &&& *res@[q].0 == arcs_of(*transition, incoming)[arc_order(*net, *transition, incoming, use_names_as_ids)[q] as int]
            &&& res@[q].1@ == arc_ident(*net, *transition, *res@[q].0, incoming, use_names_as_ids)
        },
{
    let arcs = if incoming { &transition.incoming_arcs } else { &transition.outgoing_arcs };
    proof {
        assert(arcs@ == arcs_of(*transition, incoming));
    }
    let mut ids: Vec<String> = Vec::new();
    let mut k: usize = 0;
    while k < arcs.len()
        invariant
            k <= arcs@.len(),
            arcs@ == arcs_of(*transition, incoming),
            forall|j: int| 0 <= j < arcs_of(*transition, incoming).len() ==> net.has_place(#[trigger] arcs_of(*transition, incoming)[j].place_id),
            ids@.len() == k,
            forall|j: int| 0 <= j < k ==> (#[trigger] ids@[j])@ == arc_ident(*net, *transition, arcs@[j], incoming, use_names_as_ids),
        decreases arcs@.len() - k,
    {
        let arc = &arcs[k];
        let id = if use_names_as_ids {
            let place = find_place(net, arc.place_id);
            if incoming {
                create_arc_name(create_place_id(place, use_names_as_ids), create_transition_id(transition, use_names_as_ids))
            } else {
                create_arc_name(create_transition_id(transition, use_names_as_ids), create_place_id(place, use_names_as_ids))
            }
        } else {
            decimal_string(arc.id)
        };
        ids.push(id);
        k = k + 1;
    }
    proof {
        assert(Seq::new(ids@.len(), |j: int| ids@[j]@) =~= Seq::new(arcs@.len(), |j: int| arc_ident(*net, *transition, arcs@[j], incoming, use_names_as_ids)));
    }
    let order = sorted_order(&ids);
    let mut res: Vec<(&Arc, String)> = Vec::new();
    let mut q: usize = 0;
    while q < order.len()
        invariant
            q <= order@.len(),
            arcs@ == arcs_of(*transition, incoming),
            order@ == arc_order(*net, *transition, incoming, use_names_as_ids),
            order@.len() == arcs@.len(),
            ids@.len() == arcs@.len(),
            forall|j: int| 0 <= j < arcs@.len() ==> (#[trigger] ids@[j])@ == arc_ident(*net, *transition, arcs@[j], incoming, use_names_as_ids),
            forall|j: int| 0 <= j < order@.len() ==> (#[trigger] order@[j]) < arcs@.len(),
            res@.len() == q,
            forall|j: int| 0 <= j < q ==> *(#[trigger] res@[j]).0 == arcs@[order@[j] as int]
                && res@[j].1@ == arc_ident(*net, *transition, *res@[j].0, incoming, use_names_as_ids),
        decreases order@.len() - q,
    {
        let index = order[q];
        res.push((&arcs[index], ids[index].clone()));
        q = q + 1;
    }
    res
}

/// The elements of the arcs of the transition (entering it when `incoming`),
/// in the order of their ids.
#[verifier::rlimit(80)]
#[verifier::spinoff_prover]
fn write_transition_arcs(net: &PetriNet, transition: &Transition, incoming: bool, events: &mut Vec<XmlEvent>, use_names_as_ids: bool)
    requires
        forall|k: int| 0 <= k < arcs_of(*transition, incoming).len() ==> net.has_place(#[trigger] arcs_of(*transition, incoming)[k].place_id),
    ensures
        events_view(final(events)@) == events_view(old(events)@)
            + concat_map(arc_order(*net, *transition, incoming, use_names_as_ids), arc_elements(*net, *transition, incoming, use_names_as_ids)),
{
    let arcs = patch_arcs_list(net, transition, incoming, use_names_as_ids);
    let ghost order = arc_order(*net, *transition, incoming, use_names_as_ids);
    let ghost f = arc_elements(*net, *transition, incoming, use_names_as_ids);
    let ghost start = events_view(events@);
    let mut q: usize = 0;
    proof {
        assert(order.take(0) =~= Seq::<usize>::empty());
        assert(events_view(events@) =~= start + concat_map(order.take(0), f));
    }
    while q < arcs.len()
        invariant
            q <= arcs@.len(),
            arcs@.len() == order.len(),
            order.len() == arcs_of(*transition, incoming).len(),
            order == arc_order(*net, *transition, incoming, use_names_as_ids),
            f == arc_elements(*net, *transition, incoming, use_names_as_ids),
            forall|k: int| 0 <= k < arcs_of(*transition, incoming).len() ==> net.has_place(#[trigger] arcs_of(*transition, incoming)[k].place_id),
            forall|j: int| 0 <= j < arcs@.len() ==> {
                &&& (#[trigger] order[j]) < arcs_of(*transition, incoming).len()
                &&& *arcs@[j].0 == arcs_of(*transition, incoming)[order[j] as int]
                &&& arcs@[j].1@ == arc_ident(*net, *transition, *arcs@[j].0, incoming, use_names_as_ids)
            },
            events_view(events@) == start + concat_map(order.take(q as int), f),
        decreases arcs@.len() - q,
    {
        let arc = arcs[q].0;
        let id = arcs[q].1.clone();
        proof {
            assert(order[q as int] < arcs_of(*transition, incoming).len());
        }
        let place = find_place(net, arc.place_id);
        let place_id = create_place_id(place, use_names_as_ids);
        let transition_id = create_transition_id(transition, use_names_as_ids);
        let mut attributes: Vec<(String, String)> = Vec::new();
        attributes.push((ID_ATTR_NAME.to_owned(), id));
        if incoming {
            attributes.push((SOURCE_ATTR_NAME.to_owned(), place_id));
            attributes.push((TARGET_ATTR_NAME.to_owned(), transition_id));
        } else {
            attributes.push((TARGET_ATTR_NAME.to_owned(), place_id));
            attributes.push((SOURCE_ATTR_NAME.to_owned(), transition_id));
        }
        proof {
            let expected = if incoming {
                seq![(ID_ATTR_NAME@, id@), (SOURCE_ATTR_NAME@, place_id@), (TARGET_ATTR_NAME@, transition_id@)]
            } else {
                seq![(ID_ATTR_NAME@, id@), (TARGET_ATTR_NAME@, place_id@), (SOURCE_ATTR_NAME@, transition_id@)]
            };
            assert(attributes_view(attributes@) =~= expected);
        }
        let ghost before = events_view(events@);
        push_event(events, start_event(ARC_TAG_NAME, attributes));
        push_event(events, end_event(ARC_TAG_NAME));
        proof {
            lemma_concat_map_step(order, f, q as int);
            assert(f(order[q as int]) == arc_element(*net, *transition, *arc, incoming, use_names_as_ids));
            assert(events_view(events@) =~= before + arc_element(*net, *transition, *arc, incoming, use_names_as_ids));
            assert(events_view(events@) =~= start + concat_map(order.take(q + 1), f));
        }
        q = q + 1;
    }
    proof {
        assert(order.take(q as int) =~= order);
    }
}

/// The elements of the arcs entering the transition.
fn write_incoming_arcs(net: &PetriNet, transition: &Transition, events: &mut Vec<XmlEvent>, use_names_as_ids: bool)
    requires
        forall|k: int| 0 <= k < transition.incoming_arcs@.len() ==> net.has_place(#[trigger] transition.incoming_arcs@[k].place_id),
    ensures
        events_view(final(events)@) == events_view(old(events)@)
            + concat_map(arc_order(*net, *transition, true, use_names_as_ids), arc_elements(*net, *transition, true, use_names_as_ids)),
{
    write_transition_arcs(net, transition, true, events, use_names_as_ids);
}

/// The elements of the arcs leaving the transition.
fn write_outgoing_arcs(net: &PetriNet, transition: &Transition, events: &mut Vec<XmlEvent>, use_names_as_ids: bool)
    requires
        forall|k: int| 0 <= k < transition.outgoing_arcs@.len() ==> net.has_place(#[trigger] transition.outgoing_arcs@[k].place_id),
    ensures
        events_view(final(events)@) == events_view(old(events)@)
            + concat_map(arc_order(*net, *transition, false, use_names_as_ids), arc_elements(*net, *transition, false, use_names_as_ids)),
{
    write_transition_arcs(net, transition, false, events, use_names_as_ids);
}

/// The arcs of each transition, the transitions in the order of their names.
#[verifier::rlimit(40)]
fn write_arcs(net: &PetriNet, events: &mut Vec<XmlEvent>, use_names_as_ids: bool)
    requires
        arcs_reach_places(*net),
    ensures
        events_view(final(events)@) == events_view(old(events)@)
            + concat_map(transition_order(net.transitions@), transitions_arc_elements(*net, use_names_as_ids)),
{
    let transitions = created_ordered_transitions_list(net);
    let ghost order = transition_order(net.transitions@);
    let ghost start = events_view(events@);
    let ghost f = transitions_arc_elements(*net, use_names_as_ids);
    let mut q: usize = 0;
    proof {
        assert(order.take(0) =~= Seq::<usize>::empty());
        assert(events_view(events@) =~= start + concat_map(order.take(0), f));
    }
    while q < transitions.len()
        invariant
            q <= transitions@.len(),
            transitions@.len() == order.len(),
            order == transition_order(net.transitions@),
            arcs_reach_places(*net),
            forall|k: int| 0 <= k < transitions@.len() ==> (#[trigger] order[k]) < net.transitions@.len()
                && *transitions@[k] == net.transitions@[order[k] as int],
            f == transitions_arc_elements(*net, use_names_as_ids),
            events_view(events@) == start + concat_map(order.take(q as int), f),
        decreases transitions@.len() - q,
    {
        let transition = transitions[q];
        let ghost index = order[q as int] as int;
        let ghost before = events_view(events@);
        proof {
            assert(order[q as int] < net.transitions@.len());
            assert forall|k: int| 0 <= k < transition.incoming_arcs@.len() implies net.has_place(#[trigger] transition.incoming_arcs@[k].place_id) by {
                assert(net.transitions@[index].incoming_arcs@[k] == transition.incoming_arcs@[k]);
            }
            assert forall|k: int| 0 <= k < transition.outgoing_arcs@.len() implies net.has_place(#[trigger] transition.outgoing_arcs@[k].place_id) by {
                assert(net.transitions@[index].outgoing_arcs@[k] == transition.outgoing_arcs@[k]);
            }
        }
        write_incoming_arcs(net, transition, events, use_names_as_ids);
        write_outgoing_arcs(net, transition, events, use_names_as_ids);
        proof {
            lemma_concat_map_step(order, f, q as int);
            assert(f(order[q as int]) == transition_arc_elements(*net, *transition, use_names_as_ids));
            assert(events_view(events@) =~= start + concat_map(order.take(q + 1), f));
        }
        q = q + 1;
    }
    proof {
        assert(order.take(q as int) =~= order);
    }
}

/// The events of the net's PNML document.
pub fn pnml_events(net: &PetriNet, use_names_as_ids: bool) -> (res: Vec<XmlEvent>)
    requires
        arcs_reach_places(*net),
    ensures
        events_view(res@) == pnml_document(*net, use_names_as_ids),
{
    let mut events: Vec<XmlEvent> = Vec::new();
    proof {
        assert(events_view(events@) =~= Seq::empty());
    }
    push_event(&mut events, start_event(PNML_TAG_NAME, Vec::new()));
    push_event(&mut events, start_event(NET_TAG_NAME, Vec::new()));
    write_places(net, &mut events, use_names_as_ids);
    write_transitions(net, &mut events, use_names_as_ids);
    write_arcs(net, &mut events, use_names_as_ids);
    push_event(&mut events, end_event(NET_TAG_NAME));
    push_event(&mut events, end_event(PNML_TAG_NAME));
    proof {
        assert(attributes_view(Seq::<(String, String)>::empty()) =~= Seq::empty());
        assert(events_view(events@) =~= pnml_document(*net, use_names_as_ids));
    }
    events
}

/// The net as a PNML document: the places, the transitions with their data,
/// and the arcs, each identified by its name (`use_names_as_ids`) or number.
pub fn serialize_to_pnml(net: &PetriNet, use_names_as_ids: bool) -> (res: Result<String, XmlWriteError>)
    requires
        arcs_reach_places(*net),
    ensures
        valid_utf8(xml_document(pnml_document(*net, use_names_as_ids))),
        res matches Ok(text) && text@ == decode_utf8(xml_document(pnml_document(*net, use_names_as_ids))),
{
    let events = pnml_events(net, use_names_as_ids);
    write_events(&events)
}

} // verus!
