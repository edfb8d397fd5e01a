use vstd::prelude::*;

use crate::event_log::simple_event_log::{log_names, SimpleEventLog};
use crate::features::analysis::event_log_info::{log_dfg, pair_set, EventLogInfo};
use crate::features::discovery::alpha::alpha::{alpha_net_with_sets, discover_alpha_net_with_sets, ClassSets};
use crate::features::discovery::alpha::alpha_plus_nfc::AlphaPlusNfcRelationsProvider;
use crate::features::discovery::alpha::alpha_set::{alpha_name, AlphaSet};
use crate::features::petri_net::marking::{arcs_of_side, arcs_place_ids, lemma_same_transition_ids, same_header, same_transition_ids};
use crate::features::petri_net::net::{DefaultPetriNet, PetriNet, Transition};

verus! {

/// The alpha set of a one-length loop of `class`: the other classes that
/// directly precede it on the left, those that directly follow it on the right.
pub open spec fn loop_alpha_set(dfg: Set<(Seq<char>, Seq<char>)>, class: Seq<char>) -> ClassSets {
    (
        Set::new(|a: Seq<char>| dfg.contains((a, class)) && a != class),
        Set::new(|b: Seq<char>| dfg.contains((class, b)) && b != class),
    )
}

/// The transition `t` is the loop transition of `class`: named after it,
/// with the class as its data, not silent, with one arc into it and one arc
/// out of it, both moving one token and both at a place of `net` that is
/// named after the class's loop alpha set.
pub open spec fn loop_transition(net: PetriNet, t: Transition, class: Seq<char>, dfg: Set<(Seq<char>, Seq<char>)>) -> bool {
    &&& t.name@ == class
    &&& t.data matches Some(d) && d@ == class
    &&& !t.is_silent
    &&& t.incoming_arcs@.len() == 1
    &&& t.outgoing_arcs@.len() == 1
    &&& t.incoming_arcs@[0].place_id == t.outgoing_arcs@[0].place_id
    &&& t.incoming_arcs@[0].tokens_count == 1
    &&& t.outgoing_arcs@[0].tokens_count == 1
    &&& exists|q: int| 0 <= q < net.places@.len() && #[trigger] net.places@[q].id == t.incoming_arcs@[0].place_id
        && net.places@[q].name@ == alpha_name(loop_alpha_set(dfg, class))
}

/// `after` is `before` with a loop transition for each class of `loops`
/// appended, in order, and places only appended.
pub open spec fn loops_added(before: PetriNet, after: PetriNet, loops: Seq<String>, dfg: Set<(Seq<char>, Seq<char>)>) -> bool {
    &&& after.transitions@.len() == before.transitions@.len() + loops.len()
    &&& after.transitions@.take(before.transitions@.len() as int) == before.transitions@
    &&& after.places@.take(before.places@.len() as int) == before.places@
    &&& forall|k: int| 0 <= k < loops.len() ==> loop_transition(
        after,
        #[trigger] after.transitions@[before.transitions@.len() + k],
        loops[k]@,
        dfg,
    )
    &&& after.initial_marking == before.initial_marking
    &&& after.final_marking == before.final_marking
}

/// The alpha set of the one-length loop of the class, from the log's
/// directly-follows pairs.
fn loop_set_of(info: &EventLogInfo, class: &String) -> (res: AlphaSet)
    ensures
        res@ == loop_alpha_set(pair_set(info.dfg@), class@),
{
    let mut set = AlphaSet::empty();
    let mut i: usize = 0;
    while i < info.dfg.len()
        invariant
            i <= info.dfg@.len(),
            set@.0 == Set::new(|a: Seq<char>| exists|j: int| 0 <= j < i && #[trigger] info.dfg@[j].0@ == a && info.dfg@[j].1@ == class@ && a != class@),
            set@.1 == Set::new(|b: Seq<char>| exists|j: int| 0 <= j < i && info.dfg@[j].0@ == class@ && #[trigger] info.dfg@[j].1@ == b && b != class@),
        decreases info.dfg@.len() - i,
    {
        let ghost before = set@;
        let pair = &info.dfg[i];
        if pair.0 == *class && pair.1 != *class {
            set.insert_right_class(pair.1.clone());
        }
        if pair.1 == *class && pair.0 != *class {
            set.insert_left_class(pair.0.clone());
        }
        proof {
            assert(set@.0 =~= Set::new(|a: Seq<char>| exists|j: int| 0 <= j < i + 1 && #[trigger] info.dfg@[j].0@ == a && info.dfg@[j].1@ == class@ && a != class@)) by {
                assert forall|a: Seq<char>| (exists|j: int| 0 <= j < i + 1 && #[trigger] info.dfg@[j].0@ == a && info.dfg@[j].1@ == class@ && a != class@)
                    implies set@.0.contains(a) by {
                    let j = choose|j: int| 0 <= j < i + 1 && #[trigger] info.dfg@[j].0@ == a && info.dfg@[j].1@ == class@ && a != class@;
                    if j < i {
                        assert(before.0.contains(a));
                    }
                }
            }
            assert(set@.1 =~= Set::new(|b: Seq<char>| exists|j: int| 0 <= j < i + 1 && info.dfg@[j].0@ == class@ && #[trigger] info.dfg@[j].1@ == b && b != class@)) by {
                assert forall|b: Seq<char>| (exists|j: int| 0 <= j < i + 1 && info.dfg@[j].0@ == class@ && #[trigger] info.dfg@[j].1@ == b && b != class@)
                    implies set@.1.contains(b) by {
                    let j = choose|j: int| 0 <= j < i + 1 && info.dfg@[j].0@ == class@ && #[trigger] info.dfg@[j].1@ == b && b != class@;
                    if j < i {
                        assert(before.1.contains(b));
                    }
                }
            }
        }
        i = i + 1;
    }
    proof {
        let dfg = pair_set(info.dfg@);
        assert(set@.0 =~= loop_alpha_set(dfg, class@).0) by {
            assert forall|a: Seq<char>| dfg.contains((a, class@)) && a != class@ implies set@.0.contains(a) by {
                let j = choose|j: int| 0 <= j < info.dfg@.len() && info.dfg@[j].0@ == a && info.dfg@[j].1@ == class@;
                assert(info.dfg@[j].0@ == a);
            }
            assert forall|a: Seq<char>| set@.0.contains(a) implies dfg.contains((a, class@)) && a != class@ by {
                let j = choose|j: int| 0 <= j < i && #[trigger] info.dfg@[j].0@ == a && info.dfg@[j].1@ == class@ && a != class@;
                assert(0 <= j < info.dfg@.len() && info.dfg@[j].0@ == a && info.dfg@[j].1@ == class@);
            }
        }
        assert(set@.1 =~= loop_alpha_set(dfg, class@).1) by {
            assert forall|b: Seq<char>| dfg.contains((class@, b)) && b != class@ implies set@.1.contains(b) by {
                let j = choose|j: int| 0 <= j < info.dfg@.len() && info.dfg@[j].0@ == class@ && info.dfg@[j].1@ == b;
                assert(info.dfg@[j].1@ == b);
            }
            assert forall|b: Seq<char>| set@.1.contains(b) implies dfg.contains((class@, b)) && b != class@ by {
                let j = choose|j: int| 0 <= j < i && info.dfg@[j].0@ == class@ && #[trigger] info.dfg@[j].1@ == b && b != class@;
                assert(0 <= j < info.dfg@.len() && info.dfg@[j].0@ == class@ && info.dfg@[j].1@ == b);
            }
        }
    }
    set
}

/// Adds, for each class of `one_length_loop_transitions` in order, a
/// transition named after it with an arc to and an arc from the place named
/// after its loop alpha set (see `loop_alpha_set`), reusing the first place
/// of that name or adding it.
pub fn add_one_length_loops(log: &SimpleEventLog, one_length_loop_transitions: &Vec<String>, petri_net: &mut PetriNet)
    ensures
        loops_added(*old(petri_net), *final(petri_net), one_length_loop_transitions@, log_dfg(log_names(*log))),
{
    let info = EventLogInfo::create_from(log);
    let ghost dfg = log_dfg(log_names(*log));
    let ghost start = *petri_net;
    let n = one_length_loop_transitions.len();
    let mut k: usize = 0;
    while k < n
        invariant
            k <= n,
            n == one_length_loop_transitions@.len(),
            pair_set(info.dfg@) == dfg,
            petri_net.transitions@.len() == start.transitions@.len() + k,
            petri_net.transitions@.take(start.transitions@.len() as int) == start.transitions@,
            petri_net.places@.take(start.places@.len() as int) == start.places@,
            start.places@.len() <= petri_net.places@.len(),
            forall|q: int| 0 <= q < k ==> loop_transition(
                *petri_net,
                #[trigger] petri_net.transitions@[start.transitions@.len() + q],
                one_length_loop_transitions@[q]@,
                dfg,
            ),
            petri_net.initial_marking == start.initial_marking,
            petri_net.final_marking == start.final_marking,
        decreases n - k,
    {
        let class = &one_length_loop_transitions[k];
        let ghost before = *petri_net;
        let alpha_set = loop_set_of(&info, class);
        petri_net.add_transition(class.clone(), false, Some(class.clone()));
        let ghost with_transition = *petri_net;
        let name = alpha_set.to_string();
        let ghost name_view = name@;
        let ghost mut witness: int = with_transition.places@.len() as int;
        let place_id = match petri_net.find_place_id_by_name(&name) {
            Some(found) => {
                proof {
                    witness = choose|i: int| 0 <= i < with_transition.places@.len() && with_transition.places@[i].id == found
                        && with_transition.places@[i].name@ == name_view
                        && forall|j: int| 0 <= j < i ==> with_transition.places@[j].name@ != name_view;
                }
                found
            },
            None => petri_net.add_place(name),
        };
        let ghost with_place = *petri_net;
        let index = petri_net.transitions.len() - 1;
        petri_net.append_arc(index, place_id, false);
        petri_net.append_arc(index, place_id, true);
        proof {
            assert(with_place.transitions@ == with_transition.transitions@);
            assert(with_place.places@.take(before.places@.len() as int) == before.places@);
            assert(name_view == alpha_name(loop_alpha_set(dfg, class@)));
            assert(petri_net.places@[witness].id == place_id && petri_net.places@[witness].name@ == name_view);
            assert(exists|q: int| 0 <= q < petri_net.places@.len() && #[trigger] petri_net.places@[q].id == place_id
                && petri_net.places@[q].name@ == alpha_name(loop_alpha_set(dfg, class@)));
            assert forall|q: int| 0 <= q < k + 1 implies loop_transition(
                *petri_net,
                #[trigger] petri_net.transitions@[start.transitions@.len() + q],
                one_length_loop_transitions@[q]@,
                dfg,
            ) by {
                if q < k {
                    let t = before.transitions@[start.transitions@.len() + q];
                    assert(with_transition.transitions@[start.transitions@.len() + q] == t);
                    assert(petri_net.transitions@[start.transitions@.len() + q] == t);
                    assert(loop_transition(before, t, one_length_loop_transitions@[q]@, dfg));
                    let p = choose|p: int| 0 <= p < before.places@.len() && #[trigger] before.places@[p].id == t.incoming_arcs@[0].place_id
                        && before.places@[p].name@ == alpha_name(loop_alpha_set(dfg, one_length_loop_transitions@[q]@));
                    assert(petri_net.places@[p] == before.places@[p]);
                }
            }
            assert(petri_net.transitions@.take(start.transitions@.len() as int) =~= start.transitions@) by {
                assert forall|j: int| 0 <= j < start.transitions@.len() implies petri_net.transitions@[j] == start.transitions@[j] by {
                    assert(before.transitions@[j] == start.transitions@[j]);
                    assert(with_transition.transitions@[j] == before.transitions@[j]);
                }
            }
            assert(petri_net.places@.take(start.places@.len() as int) =~= start.places@) by {
                assert forall|j: int| 0 <= j < start.places@.len() implies petri_net.places@[j] == start.places@[j] by {
                    assert(before.places@[j] == start.places@[j]);
                }
            }
        }
        k = k + 1;
    }
}

/// The steps of alpha+ (and, with `plus_plus`, alpha++): `alpha_net` is the
/// alpha net of the provider for `sets` with the alpha sets of its places;
/// `looped` adds the provider's one-length loops to it; the result is
/// `looped`, or, with `plus_plus`, `looped` with the alpha++ connections.
pub open spec fn alpha_plus_steps(
    p: &AlphaPlusNfcRelationsProvider,
    dfg: Set<(Seq<char>, Seq<char>)>,
    plus_plus: bool,
    sets: Seq<ClassSets>,
    alpha_net: PetriNet,
    place_sets: Seq<(u64, AlphaSet)>,
    looped: PetriNet,
    res: PetriNet,
) -> bool {
    &&& alpha_net_with_sets(p, sets, alpha_net, place_sets)
    &&& loops_added(alpha_net, looped, p.loops(), dfg)
    &&& if plus_plus { plus_plus_added(looped, res, p.loops(), place_sets) } else { res == looped }
}

/// Discovers a Petri net with the alpha+ algorithm: the net of the alpha
/// algorithm over the provider's relations, with the provider's one-length
/// loops added to it (see `add_one_length_loops`); with `alpha_plus_plus`,
/// then the alpha++ connections (see `add_alpha_plus_plus_transitions`),
/// read from the alpha sets of the alpha net's places.
pub fn discover_petri_net_alpha_plus(
    log: &SimpleEventLog,
    provider: &AlphaPlusNfcRelationsProvider,
    alpha_plus_plus: bool,
) -> (res: DefaultPetriNet)
    ensures
        exists|sets: Seq<ClassSets>, alpha_net: PetriNet, place_sets: Seq<(u64, AlphaSet)>, looped: PetriNet|
            #[trigger] alpha_plus_steps(provider, log_dfg(log_names(*log)), alpha_plus_plus, sets, alpha_net, place_sets, looped, res),
{
    let (mut petri_net, place_sets) = discover_alpha_net_with_sets(provider);
    let ghost alpha_net = petri_net;
    let ghost sets = choose|sets: Seq<ClassSets>| #[trigger] alpha_net_with_sets(provider, sets, alpha_net, place_sets@);
    add_one_length_loops(log, provider.one_length_loop_transitions(), &mut petri_net);
    let ghost looped = petri_net;
    if alpha_plus_plus {
        add_alpha_plus_plus_transitions(provider.one_length_loop_transitions(), &place_sets, &mut petri_net);
    }
    proof {
        assert(alpha_plus_steps(provider, log_dfg(log_names(*log)), alpha_plus_plus, sets, alpha_net, place_sets@, looped, petri_net));
    }
    petri_net
}

/// Entry `s` is the first entry of `place_sets` for the place `id`.
pub open spec fn first_set_entry(place_sets: Seq<(u64, AlphaSet)>, id: u64, s: int) -> bool {
    &&& 0 <= s < place_sets.len()
    &&& place_sets[s].0 == id
    &&& forall|j: int| 0 <= j < s ==> place_sets[j].0 != id
}

/// Both sides of `a` are among those of `b`.
pub open spec fn full_subset(a: ClassSets, b: ClassSets) -> bool {
    a.0.subset_of(b.0) && a.1.subset_of(b.1)
}

/// Arc `a` of the transition on the side leads to a place other than the
/// place of entry `p`, and the set of entry `p` is a full subset of the set
/// that the arc's place carries.
pub open spec fn plus_plus_link(t: Transition, place_sets: Seq<(u64, AlphaSet)>, outgoing: bool, p: int, a: int) -> bool {
    &&& 0 <= p < place_sets.len()
    &&& 0 <= a < arcs_of_side(t, outgoing).len()
    &&& arcs_of_side(t, outgoing)[a].place_id != place_sets[p].0
    &&& exists|s: int| #[trigger] first_set_entry(place_sets, arcs_of_side(t, outgoing)[a].place_id, s)
        && full_subset(place_sets[p].1@, place_sets[s].1@)
}

/// The places that the transition gets one more arc with on the side.
pub open spec fn plus_plus_places(t: Transition, place_sets: Seq<(u64, AlphaSet)>, outgoing: bool) -> Set<u64> {
    Set::new(|q: u64| exists|p: int, a: int| #[trigger] plus_plus_link(t, place_sets, outgoing, p, a) && arcs_of_side(t, outgoing)[a].place_id == q)
}

/// The first entry for the place.
fn find_set_entry(place_sets: &Vec<(u64, AlphaSet)>, id: u64) -> (res: Option<usize>)
    ensures
        match res {
            Some(s) => first_set_entry(place_sets@, id, s as int),
            None => forall|j: int| 0 <= j < place_sets@.len() ==> place_sets@[j].0 != id,
        },
{
    let mut j: usize = 0;
    while j < place_sets.len()
        invariant
            j <= place_sets@.len(),
            forall|k: int| 0 <= k < j ==> place_sets@[k].0 != id,
        decreases place_sets@.len() - j,
    {
        if place_sets[j].0 == id {
            return Some(j);
        }
        j = j + 1;
    }
    None
}

/// Adds the id unless the vector holds it.
fn push_new(v: &mut Vec<u64>, id: u64)
    ensures
        final(v)@.to_set() == old(v)@.to_set().insert(id),
        final(v)@.no_duplicates() || !old(v)@.no_duplicates(),
{
    let mut i: usize = 0;
    while i < v.len()
        invariant
            i <= v@.len(),
            v@ == old(v)@,
            forall|j: int| 0 <= j < i ==> v@[j] != id,
        decreases v@.len() - i,
    {
        if v[i] == id {
            assert(v@.to_set().insert(id) =~= v@.to_set()) by {
                assert(v@.to_set().contains(v@[i as int]));
            }
            return;
        }
        i = i + 1;
    }
    let ghost before = v@;
    v.push(id);
    assert(v@.to_set() =~= before.to_set().insert(id)) by {
        assert forall|x: u64| v@.to_set().contains(x) implies before.to_set().insert(id).contains(x) by {
            let q = choose|q: int| 0 <= q < v@.len() && v@[q] == x;
            if q < before.len() {
                assert(before[q] == x);
            }
        }
        assert forall|x: u64| before.to_set().insert(id).contains(x) implies v@.to_set().contains(x) by {
            if x == id {
                assert(v@[before.len() as int] == x);
            } else {
                let q = choose|q: int| 0 <= q < before.len() && before[q] == x;
                assert(v@[q] == x);
            }
        }
    }
}

/// The places that the transition gets one more arc with on the side (see
/// `plus_plus_places`), each once.
fn plus_plus_places_of(t: &Transition, place_sets: &Vec<(u64, AlphaSet)>, outgoing: bool) -> (res: Vec<u64>)
    ensures
        res@.no_duplicates(),
        res@.to_set() == plus_plus_places(*t, place_sets@, outgoing),
{
    let arcs = if outgoing { &t.outgoing_arcs } else { &t.incoming_arcs };
    let ghost sets = place_sets@;
    let mut res: Vec<u64> = Vec::new();
    let mut p: usize = 0;
    while p < place_sets.len()
        invariant
            p <= place_sets@.len(),
            sets == place_sets@,
            arcs@ == arcs_of_side(*t, outgoing),
            res@.no_duplicates(),
            res@.to_set() == Set::new(|q: u64| exists|p2: int, a: int| 0 <= p2 < p && #[trigger] plus_plus_link(*t, sets, outgoing, p2, a)
                && arcs@[a].place_id == q),
        decreases place_sets@.len() - p,
    {
        let mut a: usize = 0;
        while a < arcs.len()
            invariant
                p < place_sets@.len(),
                a <= arcs@.len(),
                sets == place_sets@,
                arcs@ == arcs_of_side(*t, outgoing),
                res@.no_duplicates(),
                res@.to_set() == Set::new(|q: u64| exists|p2: int, a2: int| (0 <= p2 < p || (p2 == p && 0 <= a2 < a))
                    && #[trigger] plus_plus_link(*t, sets, outgoing, p2, a2) && arcs@[a2].place_id == q),
            decreases arcs@.len() - a,
        {
            let q = arcs[a].place_id;
            let ghost before = res@;
            if q != place_sets[p].0 {
                match find_set_entry(place_sets, q) {
                    Some(s) => {
                        if place_sets[p].1.is_full_subset(&place_sets[s].1) {
                            push_new(&mut res, q);
                        }
                    },
                    None => {},
                }
            }
            proof {
                let target = Set::new(|x: u64| exists|p2: int, a2: int| (0 <= p2 < p || (p2 == p && 0 <= a2 < a + 1))
                    && #[trigger] plus_plus_link(*t, sets, outgoing, p2, a2) && arcs@[a2].place_id == x);
                let linked = plus_plus_link(*t, sets, outgoing, p as int, a as int);
                if linked {
                    let s = choose|s: int| #[trigger] first_set_entry(sets, arcs@[a as int].place_id, s)
                        && full_subset(sets[p as int].1@, sets[s].1@);
                    assert(q != place_sets@[p as int].0);
                }
                assert(res@.to_set() =~= target) by {
                    assert forall|x: u64| target.contains(x) implies res@.to_set().contains(x) by {
                        let (p2, a2) = choose|p2: int, a2: int| (0 <= p2 < p || (p2 == p && 0 <= a2 < a + 1))
                            && #[trigger] plus_plus_link(*t, sets, outgoing, p2, a2) && arcs@[a2].place_id == x;
                        if p2 == p && a2 == a {
                            let s = choose|s: int| #[trigger] first_set_entry(sets, arcs@[a as int].place_id, s)
                                && full_subset(sets[p as int].1@, sets[s].1@);
                        } else {
                            assert(before.to_set().contains(x));
                        }
                    }
                    assert forall|x: u64| res@.to_set().contains(x) implies target.contains(x) by {
                        if before.to_set().contains(x) {
                            let (p2, a2) = choose|p2: int, a2: int| (0 <= p2 < p || (p2 == p && 0 <= a2 < a))
                                && #[trigger] plus_plus_link(*t, sets, outgoing, p2, a2) && arcs@[a2].place_id == x;
                        } else {
                            assert(x == q);
                            assert(plus_plus_link(*t, sets, outgoing, p as int, a as int));
                        }
                    }
                }
            }
            a = a + 1;
        }
        proof {
            assert(res@.to_set() =~= Set::new(|q: u64| exists|p2: int, a2: int| 0 <= p2 < p + 1 && #[trigger] plus_plus_link(*t, sets, outgoing, p2, a2)
                && arcs@[a2].place_id == q)) by {
                assert forall|x: u64| (exists|p2: int, a2: int| 0 <= p2 < p + 1 && #[trigger] plus_plus_link(*t, sets, outgoing, p2, a2)
                    && arcs@[a2].place_id == x) implies res@.to_set().contains(x) by {
                    let (p2, a2) = choose|p2: int, a2: int| 0 <= p2 < p + 1 && #[trigger] plus_plus_link(*t, sets, outgoing, p2, a2)
                        && arcs@[a2].place_id == x;
                    assert(0 <= a2 < arcs@.len());
                }
            }
        }
        p = p + 1;
    }
    proof {
        assert(res@.to_set() =~= plus_plus_places(*t, place_sets@, outgoing));
    }
    res
}

/// Transition `i` is the first one named `name`.
pub open spec fn first_named_at(net: PetriNet, name: Seq<char>, i: int) -> bool {
    &&& 0 <= i < net.transitions@.len()
    &&& net.transitions@[i].name@ == name
    &&& forall|j: int| 0 <= j < i ==> net.transitions@[j].name@ != name
}

/// The (transition id, place id) pairs that alpha++ connects on the side: the
/// first transition named after a loop class, with each place of
/// `plus_plus_places` of it.
pub open spec fn plus_plus_pairs(net: PetriNet, loops: Seq<String>, place_sets: Seq<(u64, AlphaSet)>, outgoing: bool) -> Set<(u64, u64)> {
    Set::new(|pr: (u64, u64)| exists|l: int, i: int| 0 <= l < loops.len() && #[trigger] first_named_at(net, loops[l]@, i)
        && pr.0 == net.transitions@[i].id && plus_plus_places(net.transitions@[i], place_sets, outgoing).contains(pr.1))
}

/// Adds the pair unless the vector holds it.
fn push_new_pair(v: &mut Vec<(u64, u64)>, pair: (u64, u64))
    ensures
        final(v)@.to_set() == old(v)@.to_set().insert(pair),
        final(v)@.no_duplicates() || !old(v)@.no_duplicates(),
        forall|k: int| 0 <= k < final(v)@.len() ==> #[trigger] final(v)@[k] == pair || old(v)@.contains(final(v)@[k]),
{
    let mut i: usize = 0;
    while i < v.len()
        invariant
            i <= v@.len(),
            v@ == old(v)@,
            forall|j: int| 0 <= j < i ==> v@[j] != pair,
        decreases v@.len() - i,
    {
        if v[i].0 == pair.0 && v[i].1 == pair.1 {
            assert(v@[i as int] == pair);
            assert(v@.to_set().insert(pair) =~= v@.to_set()) by {
                assert(v@.to_set().contains(v@[i as int]));
            }
            return;
        }
        i = i + 1;
    }
    let ghost before = v@;
    v.push(pair);
    assert(v@.to_set() =~= before.to_set().insert(pair)) by {
        assert forall|x: (u64, u64)| v@.to_set().contains(x) implies before.to_set().insert(pair).contains(x) by {
            let q = choose|q: int| 0 <= q < v@.len() && v@[q] == x;
            if q < before.len() {
                assert(before[q] == x);
            }
        }
        assert forall|x: (u64, u64)| before.to_set().insert(pair).contains(x) implies v@.to_set().contains(x) by {
            if x == pair {
                assert(v@[before.len() as int] == x);
            } else {
                let q = choose|q: int| 0 <= q < before.len() && before[q] == x;
                assert(v@[q] == x);
            }
        }
    }
    assert forall|k: int| 0 <= k < v@.len() implies #[trigger] v@[k] == pair || before.contains(v@[k]) by {
        if k < before.len() {
            assert(before[k] == v@[k]);
        }
    }
}

/// The pairs of `plus_plus_pairs`, each once.
fn plus_plus_pairs_of(loops: &Vec<String>, place_sets: &Vec<(u64, AlphaSet)>, net: &PetriNet, outgoing: bool) -> (res: Vec<(u64, u64)>)
    ensures
        res@.no_duplicates(),
        res@.to_set() == plus_plus_pairs(*net, loops@, place_sets@, outgoing),
        forall|k: int| 0 <= k < res@.len() ==> net.has_transition(#[trigger] res@[k].0),
{
    let mut res: Vec<(u64, u64)> = Vec::new();
    let mut l: usize = 0;
    while l < loops.len()
        invariant
            l <= loops@.len(),
            res@.no_duplicates(),
            res@.to_set() == Set::new(|pr: (u64, u64)| exists|l2: int, i: int| 0 <= l2 < l && #[trigger] first_named_at(*net, loops@[l2]@, i)
                && pr.0 == net.transitions@[i].id && plus_plus_places(net.transitions@[i], place_sets@, outgoing).contains(pr.1)),
            forall|k: int| 0 <= k < res@.len() ==> net.has_transition(#[trigger] res@[k].0),
        decreases loops@.len() - l,
    {
        let ghost start = res@;
        match net.find_transition_by_name(&loops[l]) {
            Some(t) => {
                let ghost i = choose|i: int| 0 <= i < net.transitions@.len() && net.transitions@[i] == *t
                    && t.name@ == loops@[l as int]@
                    && forall|j: int| 0 <= j < i ==> net.transitions@[j].name@ != loops@[l as int]@;
                assert(first_named_at(*net, loops@[l as int]@, i));
                let places = plus_plus_places_of(t, place_sets, outgoing);
                let mut m: usize = 0;
                while m < places.len()
                    invariant
                        m <= places@.len(),
                        res@.no_duplicates(),
                        net.has_transition(t.id),
                        forall|k: int| 0 <= k < res@.len() ==> net.has_transition(#[trigger] res@[k].0),
                        res@.to_set() == start.to_set() + Set::new(|pr: (u64, u64)| exists|m2: int| 0 <= m2 < m && pr == (t.id, #[trigger] places@[m2])),
                    decreases places@.len() - m,
                {
                    let ghost before = res@;
                    push_new_pair(&mut res, (t.id, places[m]));
                    proof {
                        assert forall|k: int| 0 <= k < res@.len() implies net.has_transition(#[trigger] res@[k].0) by {
                            if res@[k] != (t.id, places@[m as int]) {
                                let q = choose|q: int| 0 <= q < before.len() && before[q] == res@[k];
                                assert(net.has_transition(before[q].0));
                            }
                        }
                        assert(res@.to_set() =~= start.to_set() + Set::new(|pr: (u64, u64)| exists|m2: int| 0 <= m2 < m + 1 && pr == (t.id, #[trigger] places@[m2]))) by {
                            assert forall|pr: (u64, u64)| (exists|m2: int| 0 <= m2 < m + 1 && pr == (t.id, #[trigger] places@[m2]))
                                implies res@.to_set().contains(pr) by {
                                let m2 = choose|m2: int| 0 <= m2 < m + 1 && pr == (t.id, #[trigger] places@[m2]);
                                if m2 < m {
                                    assert(before.to_set().contains(pr));
                                }
                            }
                        }
                    }
                    m = m + 1;
                }
                proof {
                    assert(t.id == net.transitions@[i].id);
                    assert(res@.to_set() =~= Set::new(|pr: (u64, u64)| exists|l2: int, i2: int| 0 <= l2 < l + 1 && #[trigger] first_named_at(*net, loops@[l2]@, i2)
                        && pr.0 == net.transitions@[i2].id && plus_plus_places(net.transitions@[i2], place_sets@, outgoing).contains(pr.1))) by {
                        assert forall|pr: (u64, u64)| res@.to_set().contains(pr) implies (exists|l2: int, i2: int| 0 <= l2 < l + 1 && #[trigger] first_named_at(*net, loops@[l2]@, i2)
                            && pr.0 == net.transitions@[i2].id && plus_plus_places(net.transitions@[i2], place_sets@, outgoing).contains(pr.1)) by {
                            if !start.to_set().contains(pr) {
                                let m2 = choose|m2: int| 0 <= m2 < m && pr == (t.id, #[trigger] places@[m2]);
                                assert(places@.to_set().contains(places@[m2]));
                                assert(first_named_at(*net, loops@[l as int]@, i));
                            }
                        }
                        assert forall|pr: (u64, u64)| (exists|l2: int, i2: int| 0 <= l2 < l + 1 && #[trigger] first_named_at(*net, loops@[l2]@, i2)
                            && pr.0 == net.transitions@[i2].id && plus_plus_places(net.transitions@[i2], place_sets@, outgoing).contains(pr.1))
                            implies res@.to_set().contains(pr) by {
                            let (l2, i2) = choose|l2: int, i2: int| 0 <= l2 < l + 1 && #[trigger] first_named_at(*net, loops@[l2]@, i2)
                                && pr.0 == net.transitions@[i2].id && plus_plus_places(net.transitions@[i2], place_sets@, outgoing).contains(pr.1);
                            if l2 == l {
                                if i2 < i {
                                    assert(net.transitions@[i2].name@ != loops@[l as int]@);
                                }
                                if i < i2 {
                                    assert(net.transitions@[i].name@ != loops@[l as int]@);
                                }
                                assert(i2 == i);
                                assert(places@.to_set().contains(pr.1));
                                let m2 = choose|m2: int| 0 <= m2 < places@.len() && places@[m2] == pr.1;
                                assert(pr == (t.id, places@[m2]));
                            } else {
                                assert(start.to_set().contains(pr));
                            }
                        }
                    }
                }
            },
            None => {
                proof {
                    assert(res@.to_set() =~= Set::new(|pr: (u64, u64)| exists|l2: int, i2: int| 0 <= l2 < l + 1 && #[trigger] first_named_at(*net, loops@[l2]@, i2)
                        && pr.0 == net.transitions@[i2].id && plus_plus_places(net.transitions@[i2], place_sets@, outgoing).contains(pr.1))) by {
                        assert forall|pr: (u64, u64)| (exists|l2: int, i2: int| 0 <= l2 < l + 1 && #[trigger] first_named_at(*net, loops@[l2]@, i2)
                            && pr.0 == net.transitions@[i2].id && plus_plus_places(net.transitions@[i2], place_sets@, outgoing).contains(pr.1))
                            implies res@.to_set().contains(pr) by {
                            let (l2, i2) = choose|l2: int, i2: int| 0 <= l2 < l + 1 && #[trigger] first_named_at(*net, loops@[l2]@, i2)
                                && pr.0 == net.transitions@[i2].id && plus_plus_places(net.transitions@[i2], place_sets@, outgoing).contains(pr.1);
                            if l2 == l {
                                assert(net.transitions@[i2].name@ != loops@[l as int]@);
                            }
                        }
                    }
                }
            },
        }
        l = l + 1;
    }
    proof {
        assert(res@.to_set() =~= plus_plus_pairs(*net, loops@, place_sets@, outgoing));
    }
    res
}

/// The places that the pairs connect to the transition at index `j`, in the
/// pairs' order.
pub open spec fn pair_places_at(net: PetriNet, pairs: Seq<(u64, u64)>, j: int) -> Seq<u64>
    decreases pairs.len(),
{
    if pairs.len() == 0 {
        Seq::empty()
    } else {
        let before = pair_places_at(net, pairs.drop_last(), j);
        if net.transition_index(pairs.last().0) == j {
            before.push(pairs.last().1)
        } else {
            before
        }
    }
}

/// The places that the pairs connect to the transition at index `j`.
pub open spec fn pair_places_set(net: PetriNet, pairs: Set<(u64, u64)>, j: int) -> Set<u64> {
    Set::new(|q: u64| exists|tid: u64| pairs.contains((tid, q)) && net.transition_index(tid) == j)
}

proof fn lemma_push_to_set<A>(s: Seq<A>, x: A)
    ensures
        s.push(x).to_set() == s.to_set().insert(x),
{
    assert forall|y: A| s.push(x).to_set().contains(y) implies s.to_set().insert(x).contains(y) by {
        let w = choose|w: int| 0 <= w < s.push(x).len() && s.push(x)[w] == y;
        if w < s.len() {
            assert(s[w] == y);
        }
    }
    assert forall|y: A| s.to_set().insert(x).contains(y) implies s.push(x).to_set().contains(y) by {
        if y == x {
            assert(s.push(x)[s.len() as int] == y);
        } else {
            let w = choose|w: int| 0 <= w < s.len() && s[w] == y;
            assert(s.push(x)[w] == y);
        }
    }
    assert(s.push(x).to_set() =~= s.to_set().insert(x));
}

proof fn lemma_push_no_duplicates<A>(s: Seq<A>, x: A)
    requires
        s.no_duplicates(),
        !s.contains(x),
    ensures
        s.push(x).no_duplicates(),
{
    assert forall|a: int, b: int| 0 <= a < s.push(x).len() && 0 <= b < s.push(x).len() && a != b
        implies s.push(x)[a] != s.push(x)[b] by {
        if a < s.len() && b < s.len() {
            assert(s[a] != s[b]);
        } else if a < s.len() {
            assert(s.contains(s[a]));
        } else {
            assert(s.contains(s[b]));
        }
    }
}

proof fn lemma_pair_places_set_insert(net: PetriNet, pairs: Set<(u64, u64)>, last: (u64, u64), j: int)
    ensures
        pair_places_set(net, pairs.insert(last), j) == (if net.transition_index(last.0) == j {
            pair_places_set(net, pairs, j).insert(last.1)
        } else {
            pair_places_set(net, pairs, j)
        }),
{
    let after = pair_places_set(net, pairs.insert(last), j);
    let expected = if net.transition_index(last.0) == j {
        pair_places_set(net, pairs, j).insert(last.1)
    } else {
        pair_places_set(net, pairs, j)
    };
    assert forall|q: u64| after.contains(q) implies expected.contains(q) by {
        let tid = choose|tid: u64| pairs.insert(last).contains((tid, q)) && net.transition_index(tid) == j;
        if (tid, q) != last {
            assert(pairs.contains((tid, q)));
        }
    }
    assert forall|q: u64| expected.contains(q) implies after.contains(q) by {
        if net.transition_index(last.0) == j && q == last.1 {
            assert(pairs.insert(last).contains((last.0, q)));
        } else {
            let tid = choose|tid: u64| pairs.contains((tid, q)) && net.transition_index(tid) == j;
            assert(pairs.insert(last).contains((tid, q)));
        }
    }
    assert(after =~= expected);
}

proof fn lemma_pair_place_fresh(net: PetriNet, rest: Seq<(u64, u64)>, last: (u64, u64), j: int, before: Seq<u64>)
    requires
        rest.push(last).no_duplicates(),
        net.has_transition(last.0),
        forall|k: int| 0 <= k < rest.len() ==> net.has_transition(#[trigger] rest[k].0),
        net.transition_index(last.0) == j,
        before.to_set() == pair_places_set(net, rest.to_set(), j),
    ensures
        !before.contains(last.1),
{
    if before.contains(last.1) {
        assert(before.to_set().contains(last.1));
        assert(pair_places_set(net, rest.to_set(), j).contains(last.1));
        let tid = choose|tid: u64| rest.to_set().contains((tid, last.1)) && net.transition_index(tid) == j;
        assert(rest.contains((tid, last.1)));
        let k = choose|k: int| 0 <= k < rest.len() && rest[k] == (tid, last.1);
        assert(net.has_transition(rest[k].0));
        net.lemma_transition_index(tid);
        net.lemma_transition_index(last.0);
        assert(tid == last.0);
        let full = rest.push(last);
        assert(full[k] == last);
        assert(full[rest.len() as int] == last);
        assert(false);
    }
}

proof fn lemma_pair_places(net: PetriNet, pairs: Seq<(u64, u64)>, j: int)
    requires
        pairs.no_duplicates(),
        forall|k: int| 0 <= k < pairs.len() ==> net.has_transition(#[trigger] pairs[k].0),
    ensures
        pair_places_at(net, pairs, j).to_set() == pair_places_set(net, pairs.to_set(), j),
        pair_places_at(net, pairs, j).no_duplicates(),
    decreases pairs.len(),
{
    if pairs.len() > 0 {
        let rest = pairs.drop_last();
        let last = pairs.last();
        assert(rest.push(last) =~= pairs);
        assert forall|k: int| 0 <= k < rest.len() implies net.has_transition(#[trigger] rest[k].0) by {
            assert(rest[k] == pairs[k]);
        }
        assert(rest.no_duplicates()) by {
            assert forall|a: int, b: int| 0 <= a < rest.len() && 0 <= b < rest.len() && a != b implies rest[a] != rest[b] by {
                assert(pairs[a] != pairs[b]);
            }
        }
        assert(net.has_transition(pairs[pairs.len() - 1].0));
        lemma_pair_places(net, rest, j);
        let before = pair_places_at(net, rest, j);
        lemma_push_to_set(rest, last);
        lemma_pair_places_set_insert(net, rest.to_set(), last, j);
        if net.transition_index(last.0) == j {
            lemma_pair_place_fresh(net, rest, last, j, before);
            lemma_push_to_set(before, last.1);
            lemma_push_no_duplicates(before, last.1);
        }
    } else {
        assert(pair_places_set(net, pairs.to_set(), j) =~= Set::empty());
        assert(pair_places_at(net, pairs, j).to_set() =~= Set::empty());
    }
}

/// Adds an arc for each pair: from the transition to the place (`outgoing`)
/// or back.
fn connect_pairs(net: &mut PetriNet, pairs: &Vec<(u64, u64)>, outgoing: bool)
    requires
        forall|k: int| 0 <= k < pairs@.len() ==> old(net).has_transition(#[trigger] pairs@[k].0),
    ensures
        same_transition_ids(*old(net), *final(net)),
        final(net).places == old(net).places,
        final(net).initial_marking == old(net).initial_marking,
        final(net).final_marking == old(net).final_marking,
        forall|j: int| 0 <= j < old(net).transitions@.len() ==> same_header(#[trigger] final(net).transitions@[j], old(net).transitions@[j]),
        forall|j: int| 0 <= j < old(net).transitions@.len() ==> arcs_place_ids(arcs_of_side(#[trigger] final(net).transitions@[j], outgoing))
            == arcs_place_ids(arcs_of_side(old(net).transitions@[j], outgoing)) + pair_places_at(*old(net), pairs@, j),
        forall|j: int| 0 <= j < old(net).transitions@.len()
            ==> arcs_of_side(#[trigger] final(net).transitions@[j], !outgoing) == arcs_of_side(old(net).transitions@[j], !outgoing),
{
    let ghost start = *net;
    let mut k: usize = 0;
    proof {
        assert(pairs@.take(0) =~= Seq::<(u64, u64)>::empty());
        assert forall|j: int| 0 <= j < start.transitions@.len() implies arcs_place_ids(arcs_of_side(#[trigger] net.transitions@[j], outgoing))
            =~= arcs_place_ids(arcs_of_side(start.transitions@[j], outgoing)) + pair_places_at(start, pairs@.take(0), j) by {}
    }
    while k < pairs.len()
        invariant
            k <= pairs@.len(),
            forall|q: int| 0 <= q < pairs@.len() ==> start.has_transition(#[trigger] pairs@[q].0),
            same_transition_ids(start, *net),
            net.places == start.places,
            net.initial_marking == start.initial_marking,
            net.final_marking == start.final_marking,
            forall|j: int| 0 <= j < start.transitions@.len() ==> same_header(#[trigger] net.transitions@[j], start.transitions@[j]),
            forall|j: int| 0 <= j < start.transitions@.len() ==> arcs_place_ids(arcs_of_side(#[trigger] net.transitions@[j], outgoing))
                == arcs_place_ids(arcs_of_side(start.transitions@[j], outgoing)) + pair_places_at(start, pairs@.take(k as int), j),
            forall|j: int| 0 <= j < start.transitions@.len()
                ==> arcs_of_side(#[trigger] net.transitions@[j], !outgoing) == arcs_of_side(start.transitions@[j], !outgoing),
        decreases pairs@.len() - k,
    {
        let (tid, place_id) = pairs[k];
        let ghost before = *net;
        proof {
            assert(start.has_transition(pairs@[k as int].0));
            lemma_same_transition_ids(start, before, tid);
        }
        if outgoing {
            net.connect_transition_to_place(tid, place_id);
        } else {
            net.connect_place_to_transition(place_id, tid);
        }
        proof {
            let target = start.transition_index(tid);
            start.lemma_transition_index(tid);
            assert(pairs@.take(k + 1).drop_last() =~= pairs@.take(k as int));
            assert(pairs@.take(k + 1).last() == (tid, place_id));
            assert(same_transition_ids(start, *net)) by {
                assert forall|i: int| 0 <= i < start.transitions@.len() implies (#[trigger] start.transitions@[i]).id == net.transitions@[i].id by {
                    assert(before.transitions@[i].id == start.transitions@[i].id);
                }
            }
            assert forall|j: int| 0 <= j < start.transitions@.len() implies
                same_header(#[trigger] net.transitions@[j], start.transitions@[j])
                && arcs_place_ids(arcs_of_side(net.transitions@[j], outgoing))
                    == arcs_place_ids(arcs_of_side(start.transitions@[j], outgoing)) + pair_places_at(start, pairs@.take(k + 1), j)
                && arcs_of_side(net.transitions@[j], !outgoing) == arcs_of_side(start.transitions@[j], !outgoing) by {
                assert(same_header(before.transitions@[j], start.transitions@[j]));
                assert(arcs_of_side(before.transitions@[j], !outgoing) == arcs_of_side(start.transitions@[j], !outgoing));
                if j == target {
                    assert(arcs_place_ids(arcs_of_side(net.transitions@[j], outgoing))
                        =~= arcs_place_ids(arcs_of_side(before.transitions@[j], outgoing)).push(place_id));
                } else {
                    assert(net.transitions@[j] == before.transitions@[j]);
                }
            }
        }
        k = k + 1;
    }
    proof {
        assert(pairs@.take(k as int) =~= pairs@);
    }
}

proof fn lemma_pair_places_set_same(a: PetriNet, b: PetriNet, pairs: Set<(u64, u64)>, j: int)
    requires
        same_transition_ids(a, b),
        forall|pr: (u64, u64)| #[trigger] pairs.contains(pr) ==> a.has_transition(pr.0),
    ensures
        pair_places_set(a, pairs, j) == pair_places_set(b, pairs, j),
{
    assert forall|q: u64| pair_places_set(a, pairs, j).contains(q) implies pair_places_set(b, pairs, j).contains(q) by {
        let tid = choose|tid: u64| pairs.contains((tid, q)) && a.transition_index(tid) == j;
        lemma_same_transition_ids(a, b, tid);
    }
    assert forall|q: u64| pair_places_set(b, pairs, j).contains(q) implies pair_places_set(a, pairs, j).contains(q) by {
        let tid = choose|tid: u64| pairs.contains((tid, q)) && b.transition_index(tid) == j;
        lemma_same_transition_ids(a, b, tid);
    }
    assert(pair_places_set(a, pairs, j) =~= pair_places_set(b, pairs, j));
}

/// On the side, `after` keeps the arcs of `before` and has one more arc to
/// each place of `places`, each once, in some order.
pub open spec fn arcs_added(before: Transition, after: Transition, places: Set<u64>, outgoing: bool) -> bool {
    let old_ids = arcs_place_ids(arcs_of_side(before, outgoing));
    let new_ids = arcs_place_ids(arcs_of_side(after, outgoing));
    &&& old_ids.len() <= new_ids.len()
    &&& new_ids.take(old_ids.len() as int) == old_ids
    &&& new_ids.skip(old_ids.len() as int).no_duplicates()
    &&& new_ids.skip(old_ids.len() as int).to_set() == places
}

/// `after` is `before` with the alpha++ connections of the loop classes and
/// the place sets made (see `add_alpha_plus_plus_transitions`).
pub open spec fn plus_plus_added(before: PetriNet, after: PetriNet, loops: Seq<String>, place_sets: Seq<(u64, AlphaSet)>) -> bool {
    &&& same_transition_ids(before, after)
    &&& after.places == before.places
    &&& after.initial_marking == before.initial_marking
    &&& after.final_marking == before.final_marking
    &&& forall|j: int| 0 <= j < before.transitions@.len() ==> same_header(#[trigger] after.transitions@[j], before.transitions@[j])
    &&& forall|j: int| 0 <= j < before.transitions@.len() ==> arcs_added(
        before.transitions@[j],
        #[trigger] after.transitions@[j],
        pair_places_set(before, plus_plus_pairs(before, loops, place_sets, true), j),
        true,
    )
    &&& forall|j: int| 0 <= j < before.transitions@.len() ==> arcs_added(
        before.transitions@[j],
        after.transitions@[j],
        pair_places_set(before, plus_plus_pairs(before, loops, place_sets, false), j),
        false,
    )
}

/// The alpha++ connections: for each loop class, the first transition named
/// after it gets one more arc to each place of `plus_plus_places` on its
/// outgoing side, and one more arc from each such place on its incoming
/// side; `place_sets` lists the places that carry an alpha set, with their
/// sets. Both sets of connections are found on the net as it was given, and
/// each connection is made once, in an order that is not stated.
pub fn add_alpha_plus_plus_transitions(
    one_length_loop_transitions: &Vec<String>,
    place_sets: &Vec<(u64, AlphaSet)>,
    petri_net: &mut PetriNet,
)
    ensures
        plus_plus_added(*old(petri_net), *final(petri_net), one_length_loop_transitions@, place_sets@),
{
    let outs = plus_plus_pairs_of(one_length_loop_transitions, place_sets, petri_net, true);
    let ins = plus_plus_pairs_of(one_length_loop_transitions, place_sets, petri_net, false);
    let ghost start = *petri_net;
    connect_pairs(petri_net, &outs, true);
    let ghost mid = *petri_net;
    proof {
        assert forall|k: int| 0 <= k < ins@.len() implies mid.has_transition(#[trigger] ins@[k].0) by {
            lemma_same_transition_ids(start, mid, ins@[k].0);
        }
    }
    connect_pairs(petri_net, &ins, false);
    proof {
        assert(same_transition_ids(start, *petri_net)) by {
            assert forall|i: int| 0 <= i < start.transitions@.len() implies (#[trigger] start.transitions@[i]).id == petri_net.transitions@[i].id by {
                assert(mid.transitions@[i].id == start.transitions@[i].id);
            }
        }
        assert forall|pr: (u64, u64)| #[trigger] ins@.to_set().contains(pr) implies start.has_transition(pr.0) by {
            let k = choose|k: int| 0 <= k < ins@.len() && ins@[k] == pr;
            assert(start.has_transition(ins@[k].0));
        }
        assert forall|j: int| 0 <= j < start.transitions@.len() implies same_header(#[trigger] petri_net.transitions@[j], start.transitions@[j]) by {
            assert(same_header(mid.transitions@[j], start.transitions@[j]));
        }
        assert forall|j: int| 0 <= j < start.transitions@.len() implies arcs_added(
            start.transitions@[j],
            #[trigger] petri_net.transitions@[j],
            pair_places_set(start, plus_plus_pairs(start, one_length_loop_transitions@, place_sets@, true), j),
            true,
        ) && arcs_added(
            start.transitions@[j],
            petri_net.transitions@[j],
            pair_places_set(start, plus_plus_pairs(start, one_length_loop_transitions@, place_sets@, false), j),
            false,
        ) by {
            lemma_pair_places(start, outs@, j);
            lemma_pair_places(mid, ins@, j);
            lemma_pair_places_set_same(start, mid, ins@.to_set(), j);
            assert(arcs_of_side(petri_net.transitions@[j], true) == arcs_of_side(mid.transitions@[j], true));
            assert(arcs_of_side(mid.transitions@[j], false) == arcs_of_side(start.transitions@[j], false));
            let added_out = pair_places_at(start, outs@, j);
            let added_in = pair_places_at(mid, ins@, j);
            let old_out = arcs_place_ids(arcs_of_side(start.transitions@[j], true));
            let old_in = arcs_place_ids(arcs_of_side(start.transitions@[j], false));
            let new_out = arcs_place_ids(arcs_of_side(petri_net.transitions@[j], true));
            let new_in = arcs_place_ids(arcs_of_side(petri_net.transitions@[j], false));
            assert(new_out == old_out + added_out);
            assert(new_in == old_in + added_in);
            assert(new_out.take(old_out.len() as int) =~= old_out);
            assert(new_out.skip(old_out.len() as int) =~= added_out);
            assert(new_in.take(old_in.len() as int) =~= old_in);
            assert(new_in.skip(old_in.len() as int) =~= added_in);
        }
        assert(plus_plus_added(start, *petri_net, one_length_loop_transitions@, place_sets@));
    }
}

} // verus!
