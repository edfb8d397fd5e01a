use vstd::prelude::*;
use std::collections::HashMap;

use super::marking::{Marking, SingleMarking};
use super::net::{Arc, DefaultPetriNet, Transition};
use crate::event_log::simple_event_log::{log_names, SimpleEvent, SimpleEventLog};

verus! {

broadcast use vstd::std_specs::hash::group_hash_axioms;

/// The state of a token replay: the tokens in each place that holds any, and
/// the ids of the transitions fired so far.
#[derive(Debug)]
pub struct ReplayState {
    pub markings: HashMap<u64, usize>,
    pub fired_transitions: Vec<u64>,
}

/// The tokens per place that a marking describes (a later entry for the same
/// place replaces an earlier one).
pub open spec fn markings_of(places: Seq<SingleMarking>) -> Map<u64, usize>
    decreases places.len(),
{
    if places.len() == 0 {
        Map::empty()
    } else {
        markings_of(places.drop_last()).insert(places.last().place_id, places.last().tokens_count)
    }
}

/// The tokens left after the incoming arcs, taken in order, remove theirs;
/// `None` where an arc finds its place without tokens or with too few.
pub open spec fn consume(m: Map<u64, usize>, arcs: Seq<Arc>) -> Option<Map<u64, usize>>
    decreases arcs.len(),
{
    if arcs.len() == 0 {
        Some(m)
    } else {
        match consume(m, arcs.drop_last()) {
            None => None,
            Some(m1) => {
                let p = arcs.last().place_id;
                let t = arcs.last().tokens_count;
                if !m1.contains_key(p) || m1[p] < t {
                    None
                } else if m1[p] - t == 0 {
                    Some(m1.remove(p))
                } else {
                    Some(m1.insert(p, (m1[p] - t) as usize))
                }
            },
        }
    }
}

/// The tokens after the outgoing arcs, taken in order, add theirs; `None`
/// where a count would leave the range of `usize`.
pub open spec fn produce(m: Map<u64, usize>, arcs: Seq<Arc>) -> Option<Map<u64, usize>>
    decreases arcs.len(),
{
    if arcs.len() == 0 {
        Some(m)
    } else {
        match produce(m, arcs.drop_last()) {
            None => None,
            Some(m1) => {
                let p = arcs.last().place_id;
                let t = arcs.last().tokens_count;
                if m1.contains_key(p) {
                    if m1[p] + t > usize::MAX {
                        None
                    } else {
                        Some(m1.insert(p, (m1[p] + t) as usize))
                    }
                } else {
                    Some(m1.insert(p, t))
                }
            },
        }
    }
}

/// The tokens after the transition fires.
pub open spec fn fire(m: Map<u64, usize>, t: Transition) -> Option<Map<u64, usize>> {
    match consume(m, t.incoming_arcs@) {
        None => None,
        Some(m1) => produce(m1, t.outgoing_arcs@),
    }
}

/// Every place that the transition takes tokens from holds tokens.
pub open spec fn enabled(m: Map<u64, usize>, t: Transition) -> bool {
    forall|k: int| 0 <= k < t.incoming_arcs@.len() ==> m.contains_key(#[trigger] t.incoming_arcs@[k].place_id)
}

/// The transitions that may replay `symbol`: those named so, then all silent
/// ones, each list in the net's order.
pub open spec fn candidates(net: DefaultPetriNet, symbol: Seq<char>) -> Seq<Transition> {
    net.transitions@.filter(|t: Transition| t.name@ == symbol) + net.transitions@.filter(|t: Transition| t.is_silent)
}

/// The successor that firing `t` in the state gives: whether `t` consumed a
/// symbol of the trace (it is not silent), the tokens, the fired transitions.
pub open spec fn successor(m: Map<u64, usize>, fired: Seq<u64>, t: Transition) -> (bool, Map<u64, usize>, Seq<u64>) {
    (!t.is_silent, fire(m, t).unwrap(), fired.push(t.id))
}

/// The successors of the state on `symbol`, one per enabled candidate, in order.
pub open spec fn successors(m: Map<u64, usize>, fired: Seq<u64>, cands: Seq<Transition>) -> Seq<(bool, Map<u64, usize>, Seq<u64>)> {
    cands.filter(|t: Transition| enabled(m, t)).map_values(|t: Transition| successor(m, fired, t))
}

/// Firing each enabled candidate is defined (the replay would not fail on it).
pub open spec fn replay_step_defined(m: Map<u64, usize>, cands: Seq<Transition>) -> bool {
    forall|k: int| 0 <= k < cands.len() && enabled(m, #[trigger] cands[k]) ==> fire(m, cands[k]) is Some
}

/// No two of the arcs have the same place.
pub open spec fn distinct_places(arcs: Seq<Arc>) -> bool {
    forall|i: int, j: int| 0 <= i < j < arcs.len() ==> arcs[i].place_id != arcs[j].place_id
}

/// Some arc has the place.
pub open spec fn has_arc_to(arcs: Seq<Arc>, p: u64) -> bool {
    exists|k: int| 0 <= k < arcs.len() && arcs[k].place_id == p
}

/// A place that no arc has keeps what it had while the arcs take their tokens.
pub proof fn lemma_consume_untouched(m: Map<u64, usize>, arcs: Seq<Arc>, q: u64)
    requires
        consume(m, arcs) is Some,
        !has_arc_to(arcs, q),
    ensures
        consume(m, arcs)->0.contains_key(q) == m.contains_key(q),
        m.contains_key(q) ==> consume(m, arcs)->0[q] == m[q],
    decreases arcs.len(),
{
    if arcs.len() > 0 {
        let r = arcs.drop_last();
        assert(!has_arc_to(r, q)) by {
            if has_arc_to(r, q) {
                let k = choose|k: int| 0 <= k < r.len() && r[k].place_id == q;
                assert(arcs[k].place_id == q);
            }
        }
        assert(arcs.last().place_id != q) by {
            assert(arcs[arcs.len() - 1] == arcs.last());
        }
        lemma_consume_untouched(m, r, q);
    }
}

/// Where no two arcs share a place, the arcs can take their tokens exactly
/// when each finds its place holding at least as many as it takes; then
/// each such place keeps the difference (and is left out when nothing is
/// left), and every other place keeps what it had.
pub proof fn lemma_consume_meaning(m: Map<u64, usize>, arcs: Seq<Arc>)
    requires
        distinct_places(arcs),
    ensures
        (consume(m, arcs) is Some) <==> (forall|k: int| #![trigger arcs[k]] 0 <= k < arcs.len()
            ==> m.contains_key(arcs[k].place_id) && m[arcs[k].place_id] >= arcs[k].tokens_count),
        consume(m, arcs) is Some ==> forall|k: int| #![trigger arcs[k]] 0 <= k < arcs.len() ==> {
            &&& (consume(m, arcs)->0.contains_key(arcs[k].place_id) <==> m[arcs[k].place_id] > arcs[k].tokens_count)
            &&& (m[arcs[k].place_id] > arcs[k].tokens_count
                ==> consume(m, arcs)->0[arcs[k].place_id] == m[arcs[k].place_id] - arcs[k].tokens_count)
        },
        consume(m, arcs) is Some ==> forall|q: u64| #![trigger consume(m, arcs)->0.contains_key(q)] !has_arc_to(arcs, q)
            ==> (consume(m, arcs)->0.contains_key(q) == m.contains_key(q)
                && (m.contains_key(q) ==> consume(m, arcs)->0[q] == m[q])),
    decreases arcs.len(),
{
    if consume(m, arcs) is Some {
        assert forall|q: u64| #![trigger consume(m, arcs)->0.contains_key(q)] !has_arc_to(arcs, q)
            implies (consume(m, arcs)->0.contains_key(q) == m.contains_key(q)
                && (m.contains_key(q) ==> consume(m, arcs)->0[q] == m[q])) by {
            lemma_consume_untouched(m, arcs, q);
        }
    }
    if arcs.len() > 0 {
        let r = arcs.drop_last();
        let l = arcs.last();
        let p = l.place_id;
        let n = arcs.len() - 1;
        assert(arcs[n] == l);
        assert forall|i: int, j: int| 0 <= i < j < r.len() implies r[i].place_id != r[j].place_id by {
            assert(r[i] == arcs[i] && r[j] == arcs[j]);
        }
        lemma_consume_meaning(m, r);
        assert(!has_arc_to(r, p)) by {
            if has_arc_to(r, p) {
                let k = choose|k: int| 0 <= k < r.len() && r[k].place_id == p;
                assert(arcs[k].place_id == arcs[n].place_id);
            }
        }
        match consume(m, r) {
            None => {
                let k = choose|k: int| #![trigger r[k]] 0 <= k < r.len()
                    && !(m.contains_key(r[k].place_id) && m[r[k].place_id] >= r[k].tokens_count);
                assert(arcs[k] == r[k]);
            },
            Some(m1) => {
                lemma_consume_untouched(m, r, p);
                if consume(m, arcs) is Some {
                    let m2 = consume(m, arcs)->0;
                    assert forall|k: int| #![trigger arcs[k]] 0 <= k < arcs.len() implies {
                        &&& (m2.contains_key(arcs[k].place_id) <==> m[arcs[k].place_id] > arcs[k].tokens_count)
                        &&& (m[arcs[k].place_id] > arcs[k].tokens_count
                            ==> m2[arcs[k].place_id] == m[arcs[k].place_id] - arcs[k].tokens_count)
                    } by {
                        if k < n {
                            assert(r[k] == arcs[k]);
                            assert(arcs[k].place_id != p);
                        }
                    }
                    assert forall|k: int| #![trigger arcs[k]] 0 <= k < arcs.len()
                        implies m.contains_key(arcs[k].place_id) && m[arcs[k].place_id] >= arcs[k].tokens_count by {
                        if k < n {
                            assert(r[k] == arcs[k]);
                        }
                    }
                } else {
                    assert(!(m.contains_key(arcs[n].place_id) && m[arcs[n].place_id] >= arcs[n].tokens_count));
                }
            },
        }
    }
}

/// Where no two arcs share a place, the arcs can add their tokens exactly
/// when no place ends with more than `usize` can count; then each arc's
/// place holds what it had (nothing when it was left out) and the arc's
/// tokens, and every other place keeps what it had.
pub proof fn lemma_produce_meaning(m: Map<u64, usize>, arcs: Seq<Arc>)
    requires
        distinct_places(arcs),
    ensures
        (produce(m, arcs) is Some) <==> (forall|k: int| #![trigger arcs[k]] 0 <= k < arcs.len()
            ==> (m.contains_key(arcs[k].place_id) ==> m[arcs[k].place_id] + arcs[k].tokens_count <= usize::MAX)),
        produce(m, arcs) is Some ==> forall|k: int| #![trigger arcs[k]] 0 <= k < arcs.len() ==> {
            &&& produce(m, arcs)->0.contains_key(arcs[k].place_id)
            &&& produce(m, arcs)->0[arcs[k].place_id] == (if m.contains_key(arcs[k].place_id) {
                    m[arcs[k].place_id] + arcs[k].tokens_count
                } else {
                    arcs[k].tokens_count as int
                })
        },
        produce(m, arcs) is Some ==> forall|q: u64| #![trigger produce(m, arcs)->0.contains_key(q)] !has_arc_to(arcs, q)
            ==> (produce(m, arcs)->0.contains_key(q) == m.contains_key(q)
                && (m.contains_key(q) ==> produce(m, arcs)->0[q] == m[q])),
    decreases arcs.len(),
{
    if arcs.len() > 0 {
        let r = arcs.drop_last();
        let l = arcs.last();
        let p = l.place_id;
        let n = arcs.len() - 1;
        assert(arcs[n] == l);
        assert forall|i: int, j: int| 0 <= i < j < r.len() implies r[i].place_id != r[j].place_id by {
            assert(r[i] == arcs[i] && r[j] == arcs[j]);
        }
        lemma_produce_meaning(m, r);
        assert(!has_arc_to(r, p)) by {
            if has_arc_to(r, p) {
                let k = choose|k: int| 0 <= k < r.len() && r[k].place_id == p;
                assert(arcs[k].place_id == arcs[n].place_id);
            }
        }
        match produce(m, r) {
            None => {
                let k = choose|k: int| #![trigger r[k]] 0 <= k < r.len()
                    && !(m.contains_key(r[k].place_id) ==> m[r[k].place_id] + r[k].tokens_count <= usize::MAX);
                assert(arcs[k] == r[k]);
            },
            Some(m1) => {
                assert(m1.contains_key(p) == m.contains_key(p));
                if m.contains_key(p) {
                    assert(m1[p] == m[p]);
                }
                if produce(m, arcs) is Some {
                    let m2 = produce(m, arcs)->0;
                    assert forall|k: int| #![trigger arcs[k]] 0 <= k < arcs.len() implies {
                        &&& m2.contains_key(arcs[k].place_id)
                        &&& m2[arcs[k].place_id] == (if m.contains_key(arcs[k].place_id) {
                                m[arcs[k].place_id] + arcs[k].tokens_count
                            } else {
                                arcs[k].tokens_count as int
                            })
                    } by {
                        if k < n {
                            assert(r[k] == arcs[k]);
                            assert(arcs[k].place_id != p);
                        }
                    }
                    assert forall|q: u64| #![trigger m2.contains_key(q)] !has_arc_to(arcs, q)
                        implies (m2.contains_key(q) == m.contains_key(q) && (m.contains_key(q) ==> m2[q] == m[q])) by {
                        assert(q != p);
                        if has_arc_to(r, q) {
                            let k = choose|k: int| 0 <= k < r.len() && r[k].place_id == q;
                            assert(arcs[k].place_id == q);
                        }
                    }
                    assert forall|k: int| #![trigger arcs[k]] 0 <= k < arcs.len()
                        implies (m.contains_key(arcs[k].place_id) ==> m[arcs[k].place_id] + arcs[k].tokens_count <= usize::MAX) by {
                        if k < n {
                            assert(r[k] == arcs[k]);
                        }
                    }
                } else {
                    assert(!(m.contains_key(arcs[n].place_id) ==> m[arcs[n].place_id] + arcs[n].tokens_count <= usize::MAX));
                }
            },
        }
    }
}

pub proof fn lemma_consume_prefix(m: Map<u64, usize>, arcs: Seq<Arc>, k: int)
    requires
        0 <= k <= arcs.len(),
        consume(m, arcs) is Some,
    ensures
        consume(m, arcs.take(k)) is Some,
    decreases arcs.len(),
{
    if k < arcs.len() {
        lemma_consume_prefix(m, arcs.drop_last(), k);
        assert(arcs.drop_last().take(k) =~= arcs.take(k));
    } else {
        assert(arcs.take(k) =~= arcs);
    }
}

pub proof fn lemma_produce_prefix(m: Map<u64, usize>, arcs: Seq<Arc>, k: int)
    requires
        0 <= k <= arcs.len(),
        produce(m, arcs) is Some,
    ensures
        produce(m, arcs.take(k)) is Some,
    decreases arcs.len(),
{
    if k < arcs.len() {
        lemma_produce_prefix(m, arcs.drop_last(), k);
        assert(arcs.drop_last().take(k) =~= arcs.take(k));
    } else {
        assert(arcs.take(k) =~= arcs);
    }
}

impl ReplayState {
    pub fn fired_transitions(&self) -> (res: &Vec<u64>)
        ensures
            res@ == self.fired_transitions@,
    {
        &self.fired_transitions
    }

    pub fn new_raw(markings: HashMap<u64, usize>, fired_transitions: Vec<u64>) -> (res: Self)
        ensures
            res.markings@ == markings@,
            res.fired_transitions@ == fired_transitions@,
    {
        Self { markings, fired_transitions }
    }

    /// The state before anything fires: the tokens of the initial marking.
    pub fn new(initial_marking: Marking) -> (res: Self)
        ensures
            res.markings@ == markings_of(initial_marking.active_places@),
            res.fired_transitions@.len() == 0,
    {
        let places = initial_marking.active_places();
        let mut markings: HashMap<u64, usize> = HashMap::new();
        let mut i: usize = 0;
        while i < places.len()
            invariant
                i <= places@.len(),
                markings@ == markings_of(places@.take(i as int)),
            decreases places@.len() - i,
        {
            let single = places[i];
            markings.insert(single.place_id(), single.tokens_count());
            proof {
                assert(places@.take(i + 1).drop_last() =~= places@.take(i as int));
            }
            i = i + 1;
        }
        proof {
            assert(places@.take(i as int) =~= places@);
        }
        Self { fired_transitions: Vec::new(), markings }
    }

    fn markings_after_firing(markings: &HashMap<u64, usize>, transition: &Transition) -> (res: HashMap<u64, usize>)
        requires
            fire(markings@, *transition) is Some,
        ensures
            res@ == fire(markings@, *transition).unwrap(),
    {
        let ghost m = markings@;
        let incoming = transition.incoming_arcs();
        let outgoing = transition.outgoing_arcs();
        proof {
            lemma_consume_prefix(m, incoming@, 0);
            assert(incoming@.take(0) =~= Seq::<Arc>::empty());
        }
        let mut new_markings = markings.clone();
        let mut k: usize = 0;
        while k < incoming.len()
            invariant
                k <= incoming@.len(),
                incoming@ == transition.incoming_arcs@,
                consume(m, incoming@) is Some,
                consume(m, incoming@.take(k as int)) == Some(new_markings@),
            decreases incoming@.len() - k,
        {
            let arc = incoming[k];
            let place_id = arc.place_id();
            proof {
                lemma_consume_prefix(m, incoming@, k + 1);
                assert(incoming@.take(k + 1).drop_last() =~= incoming@.take(k as int));
            }
            let count = *new_markings.get(&place_id).unwrap();
            let new_count = count - arc.tokens_count();
            if new_count == 0 {
                new_markings.remove(&place_id);
            } else {
                new_markings.insert(place_id, new_count);
            }
            k = k + 1;
        }
        proof {
            assert(incoming@.take(k as int) =~= incoming@);
            lemma_produce_prefix(new_markings@, outgoing@, 0);
            assert(outgoing@.take(0) =~= Seq::<Arc>::empty());
        }
        let ghost m1 = new_markings@;
        let mut j: usize = 0;
        while j < outgoing.len()
            invariant
                j <= outgoing@.len(),
                outgoing@ == transition.outgoing_arcs@,
                produce(m1, outgoing@) is Some,
                produce(m1, outgoing@.take(j as int)) == Some(new_markings@),
            decreases outgoing@.len() - j,
        {
            let arc = outgoing[j];
            let place_id = arc.place_id();
            proof {
                lemma_produce_prefix(m1, outgoing@, j + 1);
                assert(outgoing@.take(j + 1).drop_last() =~= outgoing@.take(j as int));
            }
            match new_markings.get(&place_id) {
                Some(count) => {
                    let new_count = *count + arc.tokens_count();
                    new_markings.insert(place_id, new_count);
                },
                None => {
                    new_markings.insert(place_id, arc.tokens_count());
                },
            }
            j = j + 1;
        }
        proof {
            assert(outgoing@.take(j as int) =~= outgoing@);
        }
        new_markings
    }

    fn can_fire(markings: &HashMap<u64, usize>, transition: &Transition) -> (res: bool)
        ensures
            res == enabled(markings@, *transition),
    {
        let incoming = transition.incoming_arcs();
        let mut k: usize = 0;
        while k < incoming.len()
            invariant
                k <= incoming@.len(),
                incoming@ == transition.incoming_arcs@,
                forall|j: int| 0 <= j < k ==> markings@.contains_key(#[trigger] incoming@[j].place_id),
            decreases incoming@.len() - k,
        {
            if !markings.contains_key(&incoming[k].place_id()) {
                return false;
            }
            k = k + 1;
        }
        true
    }

    /// The states that one step of the replay of `transition` (a symbol of the
    /// trace) can reach: for each enabled transition named so, then for each
    /// enabled silent one, whether a symbol was consumed and the state after it fires.
    pub fn handle_transition(state: &ReplayState, net: &DefaultPetriNet, transition: &str) -> (res: Option<Vec<(bool, ReplayState)>>)
        requires
            replay_step_defined(state.markings@, candidates(*net, transition@)),
        ensures
            res is Some,
            res.unwrap()@.map_values(|s: (bool, ReplayState)| (s.0, s.1.markings@, s.1.fired_transitions@))
                == successors(state.markings@, state.fired_transitions@, candidates(*net, transition@)),
    {
        let symbol = transition.to_owned();
        let cands = Self::find_transitions_to_fire(net, &symbol);
        let ghost all = candidates(*net, transition@);
        let ghost m = state.markings@;
        let ghost fired = state.fired_transitions@;
        let ghost pred = |t: Transition| enabled(m, t);
        let ghost f = |t: Transition| successor(m, fired, t);
        let ghost g = |s: (bool, ReplayState)| (s.0, s.1.markings@, s.1.fired_transitions@);
        let mut new_states: Vec<(bool, ReplayState)> = Vec::new();
        let mut i: usize = 0;
        while i < cands.len()
            invariant
                i <= cands@.len(),
                cands@.map_values(|t: &Transition| *t) == all,
                m == state.markings@,
                fired == state.fired_transitions@,
                pred == (|t: Transition| enabled(m, t)),
                f == (|t: Transition| successor(m, fired, t)),
                g == (|s: (bool, ReplayState)| (s.0, s.1.markings@, s.1.fired_transitions@)),
                replay_step_defined(m, all),
                new_states@.map_values(g) == all.take(i as int).filter(pred).map_values(f),
            decreases cands@.len() - i,
        {
            let candidate = cands[i];
            proof {
                assert(all[i as int] == *candidate);
                reveal_with_fuel(Seq::<_>::filter, 1);
                assert(all.take(i + 1).drop_last() =~= all.take(i as int));
            }
            let ghost old_states = new_states@;
            if Self::can_fire(&state.markings, candidate) {
                let new_markings = Self::markings_after_firing(&state.markings, candidate);
                let mut new_fired_transitions = state.fired_transitions.clone();
                new_fired_transitions.push(candidate.id());
                let new_state = ReplayState::new_raw(new_markings, new_fired_transitions);
                new_states.push((!candidate.is_silent(), new_state));
                proof {
                    assert(new_states@.map_values(g) =~= old_states.map_values(g).push(f(*candidate)));
                    assert(all.take(i + 1).filter(pred) =~= all.take(i as int).filter(pred).push(*candidate));
                    assert(all.take(i + 1).filter(pred).map_values(f) =~= all.take(i as int).filter(pred).map_values(f).push(f(*candidate)));
                }
            } else {
                proof {
                    assert(all.take(i + 1).filter(pred) =~= all.take(i as int).filter(pred));
                }
            }
            i = i + 1;
        }
        proof {
            assert(all.take(i as int) =~= all);
        }
        Some(new_states)
    }

    /// The transitions named `symbol`, then every silent transition.
    fn find_transitions_to_fire<'a>(net: &'a DefaultPetriNet, symbol: &String) -> (res: Vec<&'a Transition>)
        ensures
            res@.map_values(|t: &Transition| *t) == candidates(*net, symbol@),
    {
        let ghost named = |t: Transition| t.name@ == symbol@;
        let ghost silent = |t: Transition| t.is_silent;
        let ghost deref = |t: &Transition| *t;
        let transitions = net.all_transitions();
        let mut result: Vec<&Transition> = Vec::new();
        let mut i: usize = 0;
        while i < transitions.len()
            invariant
                i <= transitions@.len(),
                transitions@ == net.transitions@,
                named == (|t: Transition| t.name@ == symbol@),
                deref == (|t: &Transition| *t),
                result@.map_values(deref) == transitions@.take(i as int).filter(named),
            decreases transitions@.len() - i,
        {
            let ghost old_result = result@;
            proof {
                reveal_with_fuel(Seq::<_>::filter, 1);
                assert(transitions@.take(i + 1).drop_last() =~= transitions@.take(i as int));
            }
            if transitions[i].name == *symbol {
                result.push(&transitions[i]);
                proof {
                    assert(result@.map_values(deref) =~= old_result.map_values(deref).push(transitions@[i as int]));
                }
            }
            proof {
                assert(result@.map_values(deref) =~= transitions@.take(i + 1).filter(named));
            }
            i = i + 1;
        }
        proof {
            assert(transitions@.take(i as int) =~= transitions@);
        }
        let ghost first = result@.map_values(deref);
        let mut k: usize = 0;
        while k < transitions.len()
            invariant
                k <= transitions@.len(),
                transitions@ == net.transitions@,
                silent == (|t: Transition| t.is_silent),
                deref == (|t: &Transition| *t),
                result@.map_values(deref) == first + transitions@.take(k as int).filter(silent),
            decreases transitions@.len() - k,
        {
            let ghost old_result = result@;
            proof {
                reveal_with_fuel(Seq::<_>::filter, 1);
                assert(transitions@.take(k + 1).drop_last() =~= transitions@.take(k as int));
            }
            if transitions[k].is_silent() {
                result.push(&transitions[k]);
                proof {
                    assert(result@.map_values(deref) =~= old_result.map_values(deref).push(transitions@[k as int]));
                }
            }
            proof {
                assert(result@.map_values(deref) =~= first + transitions@.take(k + 1).filter(silent));
            }
            k = k + 1;
        }
        proof {
            assert(transitions@.take(k as int) =~= transitions@);
        }
        result
    }
}

/// A search state: the position in the trace, the tokens, the fired transitions.
pub type SearchEntry = (int, Map<u64, usize>, Seq<u64>);

/// The entries that the successors of `(i, m, fired)` push, in order.
pub open spec fn pushed_entries(i: int, succ: Seq<(bool, Map<u64, usize>, Seq<u64>)>) -> Seq<SearchEntry> {
    succ.map_values(|s: (bool, Map<u64, usize>, Seq<u64>)| (if s.0 { i + 1 } else { i }, s.1, s.2))
}

/// The depth-first replay of a trace from a stack of entries, with `fuel`
/// steps: `Some(Some(..))` when a state that has consumed the whole trace is
/// popped, `Some(None)` when the stack runs empty, and `None` when the fuel
/// runs out first or a step would fail.
pub open spec fn replay_search(net: DefaultPetriNet, trace: Seq<Seq<char>>, stack: Seq<SearchEntry>, fuel: nat)
    -> Option<Option<(Map<u64, usize>, Seq<u64>)>>
    decreases fuel,
{
    if fuel == 0 {
        None
    } else if stack.len() == 0 {
        Some(None)
    } else {
        let (i, m, fired) = stack.last();
        if i >= trace.len() {
            Some(Some((m, fired)))
        } else if !replay_step_defined(m, candidates(net, trace[i])) {
            None
        } else {
            replay_search(
                net,
                trace,
                stack.drop_last() + pushed_entries(i, successors(m, fired, candidates(net, trace[i]))),
                (fuel - 1) as nat,
            )
        }
    }
}

/// The search of the trace from the initial marking.
pub open spec fn initial_stack(net: DefaultPetriNet) -> Seq<SearchEntry> {
    seq![(0int, markings_of(net.initial_marking->0.active_places@), Seq::<u64>::empty())]
}

/// The depth-first replay of the trace finishes without failing.
pub open spec fn replay_finishes(net: DefaultPetriNet, trace: Seq<Seq<char>>) -> bool {
    exists|fuel: nat| #[trigger] replay_search(net, trace, initial_stack(net), fuel) is Some
}

/// What the depth-first replay of the trace ends with: the first state found
/// that has consumed the whole trace, or `None` when there is none.
pub open spec fn replay_result(net: DefaultPetriNet, trace: Seq<Seq<char>>) -> Option<(Map<u64, usize>, Seq<u64>)> {
    replay_search(net, trace, initial_stack(net), choose|fuel: nat| #[trigger] replay_search(net, trace, initial_stack(net), fuel) is Some)->0
}

/// The names of the events.
pub open spec fn names_of(events: Seq<SimpleEvent>) -> Seq<Seq<char>> {
    events.map_values(|e: SimpleEvent| e.name@)
}

/// The view of a replay state.
pub open spec fn state_view(state: ReplayState) -> (Map<u64, usize>, Seq<u64>) {
    (state.markings@, state.fired_transitions@)
}

/// The stack's entries as search entries.
pub open spec fn stack_view(stack: Seq<(usize, ReplayState)>) -> Seq<SearchEntry> {
    Seq::new(stack.len(), |k: int| (stack[k].0 as int, stack[k].1.markings@, stack[k].1.fired_transitions@))
}

/// A copy of the marking.
fn copy_marking(marking: &Marking) -> (res: Marking)
    ensures
        res.active_places@ == marking.active_places@,
{
    let mut places: Vec<SingleMarking> = Vec::new();
    let mut i: usize = 0;
    while i < marking.active_places.len()
        invariant
            i <= marking.active_places@.len(),
            places@ == marking.active_places@.take(i as int),
        decreases marking.active_places@.len() - i,
    {
        places.push(marking.active_places[i]);
        proof {
            assert(places@ =~= marking.active_places@.take(i + 1));
        }
        i = i + 1;
    }
    proof {
        assert(marking.active_places@.take(i as int) =~= marking.active_places@);
    }
    Marking::new(places)
}

/// Replays one trace depth first, from the initial marking.
fn replay_trace(events: &Vec<SimpleEvent>, net: &DefaultPetriNet) -> (res: Option<ReplayState>)
    requires
        net.initial_marking is Some,
        replay_finishes(*net, names_of(events@)),
    ensures
        match res {
            Some(state) => replay_result(*net, names_of(events@)) == Some(state_view(state)),
            None => replay_result(*net, names_of(events@)) is None,
        },
{
    let ghost trace = names_of(events@);
    let ghost fuel0 = choose|fuel: nat| #[trigger] replay_search(*net, trace, initial_stack(*net), fuel) is Some;
    let ghost result = replay_result(*net, trace);
    let marking = match &net.initial_marking {
        Some(marking) => copy_marking(marking),
        None => {
            assert(false);
            Marking::new(Vec::new())
        },
    };
    let initial_state = ReplayState::new(marking);
    let mut stack: Vec<(usize, ReplayState)> = Vec::new();
    stack.push((0, initial_state));
    let ghost mut fuel: nat = fuel0;
    proof {
        assert(initial_state.fired_transitions@ =~= Seq::<u64>::empty());
        assert(stack_view(stack@) =~= initial_stack(*net));
    }
    loop
        invariant
            trace == names_of(events@),
            result == replay_result(*net, names_of(events@)),
            replay_search(*net, trace, stack_view(stack@), fuel) == Some(result),
        decreases fuel,
    {
        proof {
            assert(fuel > 0);
        }
        if stack.len() == 0 {
            proof {
                assert(stack_view(stack@) =~= Seq::<SearchEntry>::empty());
                assert(replay_search(*net, trace, stack_view(stack@), fuel) == Some(None::<(Map<u64, usize>, Seq<u64>)>));
            }
            return None;
        }
        let ghost before = stack_view(stack@);
        let current = stack.pop().unwrap();
        proof {
            assert(stack_view(stack@) =~= before.drop_last());
            assert(before.last() == (current.0 as int, current.1.markings@, current.1.fired_transitions@));
        }
        if current.0 >= events.len() {
            proof {
                assert(replay_search(*net, trace, before, fuel) == Some(Some(state_view(current.1))));
            }
            return Some(current.1);
        }
        let index = current.0;
        proof {
            assert(trace[index as int] == events@[index as int].name@);
        }
        let new_states = ReplayState::handle_transition(&current.1, net, events[index].name.as_str());
        let mut new_states = match new_states {
            Some(states) => states,
            None => Vec::new(),
        };
        let ghost succ = successors(current.1.markings@, current.1.fired_transitions@, candidates(*net, trace[index as int]));
        let ghost base = stack_view(stack@);
        let ghost g = |s: (bool, ReplayState)| (s.0, s.1.markings@, s.1.fired_transitions@);
        proof {
            assert(new_states@.map_values(g) == succ);
            assert(stack_view(stack@) =~= base + pushed_entries(index as int, succ).take(0));
        }
        let total_len = new_states.len();
        let ghost total = total_len as nat;
        let n_events = events.len();
        let mut taken: usize = 0;
        while new_states.len() > 0
            invariant
                taken + new_states@.len() == total,
                total <= usize::MAX,
                total == succ.len(),
                index < n_events,
                g == (|s: (bool, ReplayState)| (s.0, s.1.markings@, s.1.fired_transitions@)),
                new_states@.map_values(g) == succ.skip(taken as int),
                stack_view(stack@) == base + pushed_entries(index as int, succ).take(taken as int),
            decreases new_states@.len(),
        {
            let ghost remaining = new_states@;
            let (fired_visible, state) = new_states.remove(0);
            proof {
                assert(remaining.map_values(g)[0] == succ.skip(taken as int)[0]);
                assert(new_states@ =~= remaining.subrange(1, remaining.len() as int));
                assert forall|k: int| 0 <= k < new_states@.len() implies new_states@.map_values(g)[k] == succ.skip(taken + 1)[k] by {
                    assert(new_states@[k] == remaining[k + 1]);
                    assert(remaining.map_values(g)[k + 1] == succ.skip(taken as int)[k + 1]);
                }
                assert(new_states@.map_values(g) =~= succ.skip(taken + 1));
            }
            let new_index = if fired_visible { index + 1 } else { index };
            let ghost stack_before = stack@;
            stack.push((new_index, state));
            proof {
                assert(pushed_entries(index as int, succ).take(taken + 1)
                    =~= pushed_entries(index as int, succ).take(taken as int).push(pushed_entries(index as int, succ)[taken as int]));
                assert(stack_view(stack@) =~= stack_view(stack_before).push((new_index as int, state.markings@, state.fired_transitions@)));
                assert(stack_view(stack@) =~= base + pushed_entries(index as int, succ).take(taken + 1));
            }
            taken = taken + 1;
        }
        proof {
            assert(pushed_entries(index as int, succ).take(taken as int) =~= pushed_entries(index as int, succ));
            fuel = (fuel - 1) as nat;
        }
    }
}

/// Replays each trace of the log on the net, depth first, from the initial
/// marking: for each trace, the first state found that has consumed the
/// whole trace, or `None` when there is none. `None` for the whole log when
/// the net has no initial marking and the log has a trace. The replay of each
/// trace must finish.
pub fn replay_petri_net(log: &SimpleEventLog, net: &DefaultPetriNet) -> (res: Option<Vec<Option<ReplayState>>>)
    requires
        net.initial_marking is Some ==> forall|t: int| 0 <= t < log.traces@.len() ==> replay_finishes(*net, #[trigger] log_names(*log)[t]),
    ensures
        res is None <==> (log.traces@.len() > 0 && net.initial_marking is None),
        res matches Some(states) ==> states@.len() == log.traces@.len() && forall|t: int| 0 <= t < states@.len() ==>
            match #[trigger] states@[t] {
                Some(state) => replay_result(*net, log_names(*log)[t]) == Some(state_view(state))
                    && fires_trace(*net, log_names(*log)[t], state),
                None => replay_result(*net, log_names(*log)[t]) is None,
            },
{
    let mut result: Vec<Option<ReplayState>> = Vec::new();
    let traces = log.traces();
    let mut t: usize = 0;
    while t < traces.len()
        invariant
            t <= traces@.len(),
            traces@ == log.traces@,
            net.initial_marking is Some ==> forall|k: int| 0 <= k < log.traces@.len() ==> replay_finishes(*net, #[trigger] log_names(*log)[k]),
            result@.len() == t,
            t > 0 ==> net.initial_marking is Some,
            forall|k: int| 0 <= k < t ==>
                match #[trigger] result@[k] {
                    Some(state) => replay_result(*net, log_names(*log)[k]) == Some(state_view(state))
                        && fires_trace(*net, log_names(*log)[k], state),
                    None => replay_result(*net, log_names(*log)[k]) is None,
                },
        decreases traces@.len() - t,
    {
        if net.initial_marking.is_none() {
            return None;
        }
        let events = traces[t].events();
        proof {
            assert(log_names(*log)[t as int] =~= names_of(events@));
        }
        let outcome = replay_trace(events, net);
        proof {
            if outcome is Some {
                lemma_replay_result_fires(*net, log_names(*log)[t as int]);
            }
        }
        result.push(outcome);
        t = t + 1;
    }
    Some(result)
}

/// The state's fired transitions are transitions of the net that fire one
/// after another from the initial marking and leave the state's tokens, and
/// the names of those that are not silent are the trace.
pub open spec fn fires_trace(net: DefaultPetriNet, trace: Seq<Seq<char>>, state: ReplayState) -> bool {
    exists|ts: Seq<Transition>| #[trigger] run(markings_of(net.initial_marking->0.active_places@), ts)
        == Some(state.markings@) && ids_of(ts) == state.fired_transitions@
        && visible_names(ts) == trace && forall|k: int| 0 <= k < ts.len() ==> net.transitions@.contains(ts[k])
}

/// The tokens of a replay outcome.
pub open spec fn outcome_tokens(r: Option<(Map<u64, usize>, Seq<u64>)>) -> Map<u64, usize> {
    match r {
        Some((m, _)) => m,
        None => Map::empty(),
    }
}

/// The fired transitions of a replay outcome.
pub open spec fn outcome_fired(r: Option<(Map<u64, usize>, Seq<u64>)>) -> Seq<u64> {
    match r {
        Some((_, f)) => f,
        None => Seq::empty(),
    }
}

/// The tokens after firing the transitions in order; `None` where a firing fails.
pub open spec fn run(m: Map<u64, usize>, ts: Seq<Transition>) -> Option<Map<u64, usize>>
    decreases ts.len(),
{
    if ts.len() == 0 {
        Some(m)
    } else {
        match run(m, ts.drop_last()) {
            None => None,
            Some(m1) => fire(m1, ts.last()),
        }
    }
}

/// Firing two sequences of transitions one after the other is firing the
/// first, then the second from the tokens that the first left.
pub proof fn lemma_run_append(m: Map<u64, usize>, first: Seq<Transition>, second: Seq<Transition>)
    ensures
        run(m, first + second) == match run(m, first) {
            None => None,
            Some(m1) => run(m1, second),
        },
    decreases second.len(),
{
    if second.len() == 0 {
        assert(first + second =~= first);
    } else {
        lemma_run_append(m, first, second.drop_last());
        assert((first + second).drop_last() =~= first + second.drop_last());
        assert((first + second).last() == second.last());
    }
}

/// The names of the transitions that are not silent, in order.
pub open spec fn visible_names(ts: Seq<Transition>) -> Seq<Seq<char>>
    decreases ts.len(),
{
    if ts.len() == 0 {
        Seq::empty()
    } else if ts.last().is_silent {
        visible_names(ts.drop_last())
    } else {
        visible_names(ts.drop_last()).push(ts.last().name@)
    }
}

/// The visible names are the names of the transitions that are not silent,
/// in order.
pub proof fn lemma_visible_names_filter(ts: Seq<Transition>)
    ensures
        visible_names(ts) == ts.filter(|t: Transition| !t.is_silent).map_values(|t: Transition| t.name@),
    decreases ts.len(),
{
    reveal(Seq::filter);
    if ts.len() > 0 {
        lemma_visible_names_filter(ts.drop_last());
        let p = |t: Transition| !t.is_silent;
        let f = |t: Transition| t.name@;
        let rest = ts.drop_last().filter(p);
        assert(ts.filter(p) == (if p(ts.last()) { rest.push(ts.last()) } else { rest }));
        if p(ts.last()) {
            assert(rest.push(ts.last()).map_values(f) =~= rest.map_values(f).push(ts.last().name@));
        }
    }
}

/// The ids of the transitions.
pub open spec fn ids_of(ts: Seq<Transition>) -> Seq<u64> {
    ts.map_values(|t: Transition| t.id)
}

/// Some sequence of transitions of the net fires from `m0` to the entry's
/// tokens, has the entry's ids, and its visible names are the first
/// `e.0` symbols of the trace.
pub open spec fn replays(net: DefaultPetriNet, trace: Seq<Seq<char>>, m0: Map<u64, usize>, e: SearchEntry) -> bool {
    &&& 0 <= e.0 <= trace.len()
    &&& exists|ts: Seq<Transition>| #[trigger] run(m0, ts) == Some(e.1) && ids_of(ts) == e.2
        && visible_names(ts) == trace.take(e.0) && forall|k: int| 0 <= k < ts.len() ==> net.transitions@.contains(ts[k])
}

proof fn lemma_search_replays(net: DefaultPetriNet, trace: Seq<Seq<char>>, m0: Map<u64, usize>, stack: Seq<SearchEntry>, fuel: nat)
    requires
        forall|k: int| 0 <= k < stack.len() ==> replays(net, trace, m0, #[trigger] stack[k]),
        replay_search(net, trace, stack, fuel) matches Some(Some(r)),
    ensures
        replays(net, trace, m0, (trace.len() as int, outcome_tokens(replay_search(net, trace, stack, fuel)->0), outcome_fired(replay_search(net, trace, stack, fuel)->0))),
    decreases fuel,
{
    broadcast use vstd::seq_lib::group_filter_ensures;
    let (i, m, fired) = stack.last();
    assert(replays(net, trace, m0, stack[stack.len() - 1]));
    if i >= trace.len() {
        assert(i == trace.len());
    } else {
        let cands = candidates(net, trace[i]);
        let en = cands.filter(|t: Transition| enabled(m, t));
        let succ = successors(m, fired, cands);
        let next = stack.drop_last() + pushed_entries(i, succ);
        assert forall|k: int| 0 <= k < next.len() implies replays(net, trace, m0, #[trigger] next[k]) by {
            if k < stack.len() - 1 {
                assert(next[k] == stack[k]);
            } else {
                let j = k - (stack.len() - 1);
                let t = en[j];
                assert(en.contains(t));
                cands.lemma_filter_contains_rev(|t: Transition| enabled(m, t), t);
                let c = choose|c: int| 0 <= c < cands.len() && cands[c] == t;
                assert(enabled(m, cands[c]));
                assert(fire(m, t) is Some);
                let named = net.transitions@.filter(|x: Transition| x.name@ == trace[i]);
                let silent = net.transitions@.filter(|x: Transition| x.is_silent);
                if c < named.len() {
                    assert(named.contains(named[c]));
                    net.transitions@.lemma_filter_contains_rev(|x: Transition| x.name@ == trace[i], t);
                } else {
                    assert(silent[c - named.len()] == t);
                    assert(silent.contains(silent[c - named.len()]));
                    net.transitions@.lemma_filter_contains_rev(|x: Transition| x.is_silent, t);
                }
                let ts = choose|ts: Seq<Transition>| #[trigger] run(m0, ts) == Some(m) && ids_of(ts) == fired
                    && visible_names(ts) == trace.take(i) && forall|q: int| 0 <= q < ts.len() ==> net.transitions@.contains(ts[q]);
                let ts2 = ts.push(t);
                assert(ts2.drop_last() =~= ts);
                assert(run(m0, ts2) == fire(m, t));
                assert(ids_of(ts2) =~= fired.push(t.id));
                assert(next[k] == (if !t.is_silent { i + 1 } else { i }, fire(m, t).unwrap(), fired.push(t.id)));
                if !t.is_silent {
                    assert(t.name@ == trace[i]);
                    assert(trace.take(i + 1) =~= trace.take(i).push(trace[i]));
                }
                assert forall|q: int| 0 <= q < ts2.len() implies net.transitions@.contains(ts2[q]) by {
                    if q < ts.len() {
                        assert(ts2[q] == ts[q]);
                    }
                }
                assert(run(m0, ts2) == Some(next[k].1) && ids_of(ts2) == next[k].2
                    && visible_names(ts2) == trace.take(next[k].0)
                    && forall|q: int| 0 <= q < ts2.len() ==> net.transitions@.contains(ts2[q]));
            }
        }
        lemma_search_replays(net, trace, m0, next, (fuel - 1) as nat);
    }
}

/// When the replay of a trace finishes with a state, the transitions fired
/// are transitions of the net that fire one after another from the initial
/// marking to the final tokens, and the names of those that are not silent
/// are the trace's event names.
pub proof fn lemma_replay_result_fires(net: DefaultPetriNet, trace: Seq<Seq<char>>)
    requires
        replay_finishes(net, trace),
        replay_result(net, trace) is Some,
    ensures
        exists|ts: Seq<Transition>| #[trigger] run(markings_of(net.initial_marking->0.active_places@), ts)
            == Some(outcome_tokens(replay_result(net, trace))) && ids_of(ts) == outcome_fired(replay_result(net, trace))
            && visible_names(ts) == trace && forall|k: int| 0 <= k < ts.len() ==> net.transitions@.contains(ts[k]),
{
    let m0 = markings_of(net.initial_marking->0.active_places@);
    let fuel = choose|fuel: nat| #[trigger] replay_search(net, trace, initial_stack(net), fuel) is Some;
    let stack = initial_stack(net);
    assert(replays(net, trace, m0, stack[0])) by {
        let ts = Seq::<Transition>::empty();
        assert(ids_of(ts) =~= Seq::<u64>::empty());
        assert(trace.take(0) =~= Seq::<Seq<char>>::empty());
        assert(run(m0, ts) == Some(m0));
    }
    lemma_search_replays(net, trace, m0, stack, fuel);
    assert(trace.take(trace.len() as int) =~= trace);
}

} // verus!
