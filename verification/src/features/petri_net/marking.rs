use vstd::prelude::*;

use super::net::{arcs_touch_place, Arc, PetriNet, Place, Transition};
use crate::event_log::simple_event_log::{log_names, SimpleEvent, SimpleEventLog};
use crate::features::analysis::event_log_info::{lemma_prefix_step, log_ends, log_starts};

verus! {

/// How many tokens lie in one place.
#[derive(Clone, Copy, Debug, PartialEq, Eq)]
pub struct SingleMarking {
    pub place_id: u64,
    pub tokens_count: usize,
}

impl SingleMarking {
    pub fn new(place_id: u64, tokens_count: usize) -> (res: Self)
        ensures
            res.place_id == place_id,
            res.tokens_count == tokens_count,
    {
        Self { place_id, tokens_count }
    }

    pub fn place_id(&self) -> (res: u64)
        ensures
            res == self.place_id,
    {
        self.place_id
    }

    pub fn tokens_count(&self) -> (res: usize)
        ensures
            res == self.tokens_count,
    {
        self.tokens_count
    }
}

/// A marking of a Petri net: the places that hold tokens.
#[derive(Clone, Debug)]
pub struct Marking {
    pub active_places: Vec<SingleMarking>,
}

impl Marking {
    pub fn new(single_markings: Vec<SingleMarking>) -> (res: Self)
        ensures
            res.active_places@ == single_markings@,
    {
        Self { active_places: single_markings }
    }

    pub fn active_places(&self) -> (res: &Vec<SingleMarking>)
        ensures
            res@ == self.active_places@,
    {
        &self.active_places
    }
}

/// The transitions have the same ids in the two nets.
pub open spec fn same_transition_ids(a: PetriNet, b: PetriNet) -> bool {
    &&& a.transitions@.len() == b.transitions@.len()
    &&& forall|i: int| 0 <= i < a.transitions@.len() ==> (#[trigger] a.transitions@[i]).id == b.transitions@[i].id
}

pub(crate) proof fn lemma_same_transition_ids(a: PetriNet, b: PetriNet, id: u64)
    requires
        same_transition_ids(a, b),
        a.has_transition(id),
    ensures
        b.has_transition(id),
        a.transition_index(id) == b.transition_index(id),
{
    a.lemma_transition_index(id);
    let i = a.transition_index(id);
    assert(b.transitions@[i].id == id);
    b.lemma_transition_index(id);
    let j = b.transition_index(id);
    assert(a.transitions@[j].id == id);
    if i < j {
        assert(b.transitions@[i].id != id);
    }
    if j < i {
        assert(a.transitions@[j].id != id);
    }
}

/// The id of the first transition named `name`, if some transition has the name.
pub open spec fn first_named(net: PetriNet, name: Seq<char>, id: u64) -> bool {
    exists|i: int| 0 <= i < net.transitions@.len() && #[trigger] net.transitions@[i].id == id
        && net.transitions@[i].name@ == name
        && forall|j: int| 0 <= j < i ==> net.transitions@[j].name@ != name
}

/// The ids of the first transitions named after the given names.
pub open spec fn named_transition_ids(net: PetriNet, names: Set<Seq<char>>) -> Set<u64> {
    Set::new(|id: u64| exists|n: Seq<char>| names.contains(n) && #[trigger] first_named(net, n, id))
}

/// The one id when some id of the set stands for the transition at index `j`.
pub open spec fn id_for_target(net: PetriNet, targets: Set<u64>, j: int, place_id: u64) -> Seq<u64> {
    if exists|id: u64| targets.contains(id) && net.transition_index(id) == j {
        seq![place_id]
    } else {
        Seq::empty()
    }
}

/// The ids of the places at the other end of the arcs, in order.
pub open spec fn arcs_place_ids(arcs: Seq<Arc>) -> Seq<u64> {
    Seq::new(arcs.len(), |i: int| arcs[i].place_id)
}

/// The transitions agree on everything but their arcs.
pub open spec fn same_header(a: Transition, b: Transition) -> bool {
    a.id == b.id && a.name == b.name && a.data == b.data && a.is_silent == b.is_silent
}

/// `net` is `start` with an arc between the place and each transition that an
/// id of `targets` stands for: from the transition to the place (`outgoing`)
/// or back.
pub open spec fn connected_to_targets(start: PetriNet, net: PetriNet, targets: Set<u64>, place_id: u64, outgoing: bool) -> bool {
    &&& same_transition_ids(start, net)
    &&& net.places == start.places
    &&& net.initial_marking == start.initial_marking
    &&& net.final_marking == start.final_marking
    &&& forall|j: int| 0 <= j < start.transitions@.len() ==> same_header(#[trigger] net.transitions@[j], start.transitions@[j])
    &&& forall|j: int| 0 <= j < start.transitions@.len() ==> arcs_place_ids(#[trigger] net.transitions@[j].outgoing_arcs@)
        == arcs_place_ids(start.transitions@[j].outgoing_arcs@)
            + (if outgoing { id_for_target(start, targets, j, place_id) } else { Seq::empty() })
    &&& forall|j: int| 0 <= j < start.transitions@.len() ==> arcs_place_ids(#[trigger] net.transitions@[j].incoming_arcs@)
        == arcs_place_ids(start.transitions@[j].incoming_arcs@)
            + (if outgoing { Seq::empty() } else { id_for_target(start, targets, j, place_id) })
}

proof fn lemma_connect_step(
    start: PetriNet,
    before: PetriNet,
    after: PetriNet,
    targets: Set<u64>,
    id: u64,
    place_id: u64,
    outgoing: bool,
)
    requires
        connected_to_targets(start, before, targets, place_id, outgoing),
        !targets.contains(id),
        start.has_transition(id),
        forall|x: u64| targets.contains(x) ==> start.has_transition(x),
        before.has_transition(id),
        before.transition_index(id) == start.transition_index(id),
        after.transitions@.len() == before.transitions@.len(),
        forall|j: int| 0 <= j < before.transitions@.len() && j != before.transition_index(id)
            ==> after.transitions@[j] == before.transitions@[j],
        PetriNet::arc_appended(
            before.transitions@[before.transition_index(id)],
            after.transitions@[before.transition_index(id)],
            Arc { id: before.next_id, place_id, tokens_count: 1 },
            !outgoing,
        ),
        after.places == before.places,
        after.initial_marking == before.initial_marking,
        after.final_marking == before.final_marking,
    ensures
        connected_to_targets(start, after, targets.insert(id), place_id, outgoing),
{
    let target = start.transition_index(id);
    let s1 = targets.insert(id);
    start.lemma_transition_index(id);
    assert(same_transition_ids(start, after)) by {
        assert forall|i: int| 0 <= i < start.transitions@.len() implies (#[trigger] start.transitions@[i]).id == after.transitions@[i].id by {
            assert(before.transitions@[i].id == start.transitions@[i].id);
        }
    }
    assert forall|j: int| 0 <= j < start.transitions@.len() implies
        id_for_target(start, s1, j, place_id) == (if j == target { seq![place_id] } else { id_for_target(start, targets, j, place_id) }) by {
        if j == target {
            assert(s1.contains(id) && start.transition_index(id) == j);
        } else if exists|x: u64| s1.contains(x) && start.transition_index(x) == j {
            let x = choose|x: u64| s1.contains(x) && start.transition_index(x) == j;
            assert(x != id);
            assert(targets.contains(x));
        }
    }
    if exists|x: u64| targets.contains(x) && start.transition_index(x) == target {
        let x = choose|x: u64| targets.contains(x) && start.transition_index(x) == target;
        start.lemma_transition_index(x);
        assert(x == id);
    }
    assert(id_for_target(start, targets, target, place_id) =~= Seq::<u64>::empty());
    assert forall|j: int| 0 <= j < start.transitions@.len() implies same_header(#[trigger] after.transitions@[j], start.transitions@[j]) by {
        assert(same_header(before.transitions@[j], start.transitions@[j]));
    }
    assert forall|j: int| 0 <= j < start.transitions@.len() implies arcs_place_ids(#[trigger] after.transitions@[j].outgoing_arcs@)
        == arcs_place_ids(start.transitions@[j].outgoing_arcs@)
            + (if outgoing { id_for_target(start, s1, j, place_id) } else { Seq::empty() }) by {
        let b = before.transitions@[j].outgoing_arcs@;
        let a = after.transitions@[j].outgoing_arcs@;
        assert(arcs_place_ids(b) == arcs_place_ids(start.transitions@[j].outgoing_arcs@)
            + (if outgoing { id_for_target(start, targets, j, place_id) } else { Seq::empty() }));
        if j == target && outgoing {
            assert(arcs_place_ids(a) =~= arcs_place_ids(b).push(place_id));
        } else {
            assert(arcs_place_ids(a) =~= arcs_place_ids(b));
        }
    }
    assert forall|j: int| 0 <= j < start.transitions@.len() implies arcs_place_ids(#[trigger] after.transitions@[j].incoming_arcs@)
        == arcs_place_ids(start.transitions@[j].incoming_arcs@)
            + (if outgoing { Seq::empty() } else { id_for_target(start, s1, j, place_id) }) by {
        let b = before.transitions@[j].incoming_arcs@;
        let a = after.transitions@[j].incoming_arcs@;
        assert(arcs_place_ids(b) == arcs_place_ids(start.transitions@[j].incoming_arcs@)
            + (if outgoing { Seq::empty() } else { id_for_target(start, targets, j, place_id) }));
        if j == target && !outgoing {
            assert(arcs_place_ids(a) =~= arcs_place_ids(b).push(place_id));
        } else {
            assert(arcs_place_ids(a) =~= arcs_place_ids(b));
        }
    }
}

proof fn lemma_take_to_set_step(ids: Seq<u64>, k: int)
    requires
        0 <= k < ids.len(),
    ensures
        ids.take(k + 1).to_set() == ids.take(k).to_set().insert(ids[k]),
{
    let t0 = ids.take(k);
    let t1 = ids.take(k + 1);
    assert forall|x: u64| t1.to_set().contains(x) implies t0.to_set().insert(ids[k]).contains(x) by {
        let q = choose|q: int| 0 <= q < t1.len() && t1[q] == x;
        if q < k {
            assert(t0[q] == x);
        }
    }
    assert forall|x: u64| t0.to_set().insert(ids[k]).contains(x) implies t1.to_set().contains(x) by {
        if x == ids[k] {
            assert(t1[k] == x);
        } else {
            let q = choose|q: int| 0 <= q < t0.len() && t0[q] == x;
            assert(t1[q] == x);
        }
    }
    assert(t1.to_set() =~= t0.to_set().insert(ids[k]));
}

/// The id handed out `n` ids after `id`.
pub open spec fn id_after(id: u64, n: nat) -> u64
    decreases n,
{
    if n == 0 {
        id
    } else {
        super::net::next_id_after(id_after(id, (n - 1) as nat))
    }
}

proof fn lemma_id_after_add(id: u64, a: nat, b: nat)
    ensures
        id_after(id_after(id, a), b) == id_after(id, a + b),
    decreases b,
{
    if b > 0 {
        lemma_id_after_add(id, a, (b - 1) as nat);
    }
}

/// The arcs of the transition on one side: those leaving it (`outgoing`) or
/// those entering it.
pub open spec fn arcs_of_side(t: Transition, outgoing: bool) -> Seq<Arc> {
    if outgoing {
        t.outgoing_arcs@
    } else {
        t.incoming_arcs@
    }
}

proof fn lemma_connect_arcs_step(start: PetriNet, before: PetriNet, after: PetriNet, ids: Seq<u64>, k: int, place_id: u64, outgoing: bool)
    requires
        0 <= k < ids.len(),
        forall|q: int| 0 <= q < ids.len() ==> start.has_transition(#[trigger] ids[q]),
        forall|a: int, b: int| 0 <= a < b < ids.len() ==> ids[a] != ids[b],
        before.transitions@.len() == start.transitions@.len(),
        before.transition_index(ids[k]) == start.transition_index(ids[k]),
        forall|q: int| 0 <= q < k ==> arcs_of_side(#[trigger] before.transitions@[start.transition_index(ids[q])], outgoing).last()
            == (Arc { id: id_after(start.next_id, q as nat), place_id, tokens_count: 1 }),
        forall|j: int| 0 <= j < start.transitions@.len()
            ==> arcs_of_side(#[trigger] before.transitions@[j], !outgoing) == arcs_of_side(start.transitions@[j], !outgoing),
        before.next_id == id_after(start.next_id, k as nat),
        after.transitions@.len() == before.transitions@.len(),
        forall|j: int| 0 <= j < before.transitions@.len() && j != before.transition_index(ids[k])
            ==> after.transitions@[j] == before.transitions@[j],
        PetriNet::arc_appended(
            before.transitions@[before.transition_index(ids[k])],
            after.transitions@[before.transition_index(ids[k])],
            Arc { id: before.next_id, place_id, tokens_count: 1 },
            !outgoing,
        ),
    ensures
        forall|q: int| 0 <= q < k + 1 ==> arcs_of_side(#[trigger] after.transitions@[start.transition_index(ids[q])], outgoing).last()
            == (Arc { id: id_after(start.next_id, q as nat), place_id, tokens_count: 1 }),
        forall|j: int| 0 <= j < start.transitions@.len()
            ==> arcs_of_side(#[trigger] after.transitions@[j], !outgoing) == arcs_of_side(start.transitions@[j], !outgoing),
{
    let id = ids[k];
    let target = start.transition_index(id);
    start.lemma_transition_index(id);
    assert forall|q: int| 0 <= q < k + 1 implies arcs_of_side(#[trigger] after.transitions@[start.transition_index(ids[q])], outgoing).last()
        == (Arc { id: id_after(start.next_id, q as nat), place_id, tokens_count: 1 }) by {
        if q < k {
            start.lemma_transition_index(ids[q]);
            assert(ids[q] != id);
            assert(start.transition_index(ids[q]) != target);
            assert(after.transitions@[start.transition_index(ids[q])] == before.transitions@[start.transition_index(ids[q])]);
        }
    }
    assert forall|j: int| 0 <= j < start.transitions@.len()
        implies arcs_of_side(#[trigger] after.transitions@[j], !outgoing) == arcs_of_side(start.transitions@[j], !outgoing) by {
        assert(arcs_of_side(before.transitions@[j], !outgoing) == arcs_of_side(start.transitions@[j], !outgoing));
        if j != target {
            assert(after.transitions@[j] == before.transitions@[j]);
        }
    }
}

/// Adds the arc between the place and each transition of `ids`.
fn connect_all(net: &mut PetriNet, ids: &Vec<u64>, place_id: u64, outgoing: bool)
    requires
        forall|q: int| 0 <= q < ids@.len() ==> old(net).has_transition(#[trigger] ids@[q]),
        forall|a: int, b: int| 0 <= a < b < ids@.len() ==> ids@[a] != ids@[b],
    ensures
        connected_to_targets(*old(net), *final(net), ids@.to_set(), place_id, outgoing),
        final(net).next_id == id_after(old(net).next_id, ids@.len()),
        forall|k: int| 0 <= k < ids@.len() ==> arcs_of_side(
            #[trigger] final(net).transitions@[old(net).transition_index(ids@[k])],
            outgoing,
        ).last() == (Arc { id: id_after(old(net).next_id, k as nat), place_id, tokens_count: 1 }),
        forall|j: int| 0 <= j < old(net).transitions@.len()
            ==> arcs_of_side(#[trigger] final(net).transitions@[j], !outgoing) == arcs_of_side(old(net).transitions@[j], !outgoing),
{
    let ghost start = *net;
    let mut k: usize = 0;
    proof {
        assert(ids@.take(0).to_set() =~= Set::empty());
        assert forall|j: int| 0 <= j < start.transitions@.len() implies
            arcs_place_ids(net.transitions@[j].outgoing_arcs@) =~= arcs_place_ids(start.transitions@[j].outgoing_arcs@) + Seq::<u64>::empty()
            && arcs_place_ids(net.transitions@[j].incoming_arcs@) =~= arcs_place_ids(start.transitions@[j].incoming_arcs@) + Seq::<u64>::empty()
            && id_for_target(start, ids@.take(0).to_set(), j, place_id) == Seq::<u64>::empty() by {}
    }
    while k < ids.len()
        invariant
            k <= ids@.len(),
            forall|q: int| 0 <= q < ids@.len() ==> start.has_transition(#[trigger] ids@[q]),
            forall|a: int, b: int| 0 <= a < b < ids@.len() ==> ids@[a] != ids@[b],
            connected_to_targets(start, *net, ids@.take(k as int).to_set(), place_id, outgoing),
            net.next_id == id_after(start.next_id, k as nat),
            forall|q: int| 0 <= q < k ==> arcs_of_side(#[trigger] net.transitions@[start.transition_index(ids@[q])], outgoing).last()
                == (Arc { id: id_after(start.next_id, q as nat), place_id, tokens_count: 1 }),
            forall|j: int| 0 <= j < start.transitions@.len()
                ==> arcs_of_side(#[trigger] net.transitions@[j], !outgoing) == arcs_of_side(start.transitions@[j], !outgoing),
        decreases ids@.len() - k,
    {
        let id = ids[k];
        let ghost before = *net;
        let ghost t0 = ids@.take(k as int);
        proof {
            lemma_same_transition_ids(start, before, id);
            assert(!t0.to_set().contains(id)) by {
                if t0.to_set().contains(id) {
                    let q = choose|q: int| 0 <= q < t0.len() && t0[q] == id;
                    assert(ids@[q] != ids@[k as int]);
                }
            }
            assert forall|x: u64| t0.to_set().contains(x) implies start.has_transition(x) by {
                let q = choose|q: int| 0 <= q < t0.len() && t0[q] == x;
                assert(ids@[q] == x);
            }
        }
        if outgoing {
            net.connect_transition_to_place(id, place_id);
            proof {
                assert(connected_to_targets(start, *net, ids@.take(k + 1).to_set(), place_id, outgoing)) by {
                    lemma_connect_step(start, before, *net, t0.to_set(), id, place_id, outgoing);
                    lemma_take_to_set_step(ids@, k as int);
                }
                lemma_connect_arcs_step(start, before, *net, ids@, k as int, place_id, outgoing);
            }
        } else {
            net.connect_place_to_transition(place_id, id);
            proof {
                assert(connected_to_targets(start, *net, ids@.take(k + 1).to_set(), place_id, outgoing)) by {
                    lemma_connect_step(start, before, *net, t0.to_set(), id, place_id, outgoing);
                    lemma_take_to_set_step(ids@, k as int);
                }
                lemma_connect_arcs_step(start, before, *net, ids@, k as int, place_id, outgoing);
            }
        }
        k = k + 1;
    }
    proof {
        assert(ids@.take(ids@.len() as int) =~= ids@);
    }
}

/// Adds the id unless the vector already holds it.
fn push_unique_id(v: &mut Vec<u64>, id: u64)
    requires
        forall|a: int, b: int| 0 <= a < b < old(v)@.len() ==> old(v)@[a] != old(v)@[b],
    ensures
        forall|a: int, b: int| 0 <= a < b < final(v)@.len() ==> final(v)@[a] != final(v)@[b],
        final(v)@.to_set() == old(v)@.to_set().insert(id),
        final(v)@ == (if old(v)@.contains(id) { old(v)@ } else { old(v)@.push(id) }),
{
    let mut i: usize = 0;
    while i < v.len()
        invariant
            i <= v@.len(),
            v@ == old(v)@,
            forall|a: int, b: int| 0 <= a < b < v@.len() ==> v@[a] != v@[b],
            forall|j: int| 0 <= j < i ==> v@[j] != id,
        decreases v@.len() - i,
    {
        if v[i] == id {
            assert(v@.contains(id));
            assert(v@.to_set().insert(id) =~= v@.to_set()) by {
                assert(v@.to_set().contains(v@[i as int]));
            }
            return;
        }
        i = i + 1;
    }
    let ghost before = v@;
    assert(!before.contains(id));
    v.push(id);
    assert(v@.to_set() =~= before.to_set().insert(id)) by {
        assert forall|x: u64| v@.to_set().contains(x) implies before.to_set().insert(id).contains(x) by {
            let q = choose|q: int| 0 <= q < v@.len() && v@[q] == x;
            if q < before.len() {
                assert(before[q] == x);
            }
        }
        assert forall|x: u64| before.to_set().insert(id).contains(x) implies v@.to_set().contains(x) by {
            if x == id {
                assert(v@[before.len() as int] == x);
            } else {
                let q = choose|q: int| 0 <= q < before.len() && before[q] == x;
                assert(v@[q] == x);
            }
        }
    }
}

proof fn lemma_id_for_target_same_ids(a: PetriNet, b: PetriNet, targets: Set<u64>, j: int, place_id: u64)
    requires
        same_transition_ids(a, b),
        forall|x: u64| targets.contains(x) ==> a.has_transition(x),
    ensures
        id_for_target(a, targets, j, place_id) == id_for_target(b, targets, j, place_id),
{
    if exists|x: u64| targets.contains(x) && a.transition_index(x) == j {
        let x = choose|x: u64| targets.contains(x) && a.transition_index(x) == j;
        lemma_same_transition_ids(a, b, x);
    }
    if exists|x: u64| targets.contains(x) && b.transition_index(x) == j {
        let x = choose|x: u64| targets.contains(x) && b.transition_index(x) == j;
        lemma_same_transition_ids(a, b, x);
    }
}

/// Every id of the named transitions is an id of a transition.
proof fn lemma_named_ids_exist(net: PetriNet, names: Set<Seq<char>>)
    ensures
        forall|x: u64| named_transition_ids(net, names).contains(x) ==> net.has_transition(x),
{
    assert forall|x: u64| named_transition_ids(net, names).contains(x) implies net.has_transition(x) by {
        let n = choose|n: Seq<char>| names.contains(n) && #[trigger] first_named(net, n, x);
        let i = choose|i: int| 0 <= i < net.transitions@.len() && #[trigger] net.transitions@[i].id == x
            && net.transitions@[i].name@ == n && forall|j: int| 0 <= j < i ==> net.transitions@[j].name@ != n;
    }
}

/// The ids found for the names of a set, with one more name.
proof fn lemma_named_ids_insert(net: PetriNet, names: Set<Seq<char>>, name: Seq<char>, found: Option<u64>)
    requires
        match found {
            Some(id) => first_named(net, name, id),
            None => forall|j: int| 0 <= j < net.transitions@.len() ==> net.transitions@[j].name@ != name,
        },
    ensures
        named_transition_ids(net, names.insert(name)) == match found {
            Some(id) => named_transition_ids(net, names).insert(id),
            None => named_transition_ids(net, names),
        },
{
    let after = named_transition_ids(net, names.insert(name));
    let expected = match found {
        Some(id) => named_transition_ids(net, names).insert(id),
        None => named_transition_ids(net, names),
    };
    assert forall|x: u64| after.contains(x) implies expected.contains(x) by {
        let n = choose|n: Seq<char>| names.insert(name).contains(n) && #[trigger] first_named(net, n, x);
        if n == name {
            let i = choose|i: int| 0 <= i < net.transitions@.len() && #[trigger] net.transitions@[i].id == x
                && net.transitions@[i].name@ == n && forall|j: int| 0 <= j < i ==> net.transitions@[j].name@ != n;
            match found {
                Some(id) => {
                    let k = choose|k: int| 0 <= k < net.transitions@.len() && #[trigger] net.transitions@[k].id == id
                        && net.transitions@[k].name@ == name && forall|j: int| 0 <= j < k ==> net.transitions@[j].name@ != name;
                    if i < k {
                        assert(net.transitions@[i].name@ != name);
                    }
                    if k < i {
                        assert(net.transitions@[k].name@ != name);
                    }
                },
                None => {
                    assert(net.transitions@[i].name@ != name);
                },
            }
        } else {
            assert(names.contains(n));
            assert(named_transition_ids(net, names).contains(x));
        }
    }
    assert forall|x: u64| expected.contains(x) implies after.contains(x) by {
        if named_transition_ids(net, names).contains(x) {
            let n = choose|n: Seq<char>| names.contains(n) && #[trigger] first_named(net, n, x);
            assert(names.insert(name).contains(n));
        } else {
            assert(first_named(net, name, x));
            assert(names.insert(name).contains(name));
        }
    }
    assert(after =~= expected);
}

/// The id of the first transition named `name`, if some transition has the name.
#[verifier::opaque]
pub open spec fn named_id(net: PetriNet, name: Seq<char>) -> Option<u64> {
    if exists|id: u64| first_named(net, name, id) {
        Some(choose|id: u64| first_named(net, name, id))
    } else {
        None
    }
}

proof fn lemma_first_named_unique(net: PetriNet, name: Seq<char>, a: u64, b: u64)
    requires
        first_named(net, name, a),
        first_named(net, name, b),
    ensures
        a == b,
{
    let i = choose|i: int| 0 <= i < net.transitions@.len() && #[trigger] net.transitions@[i].id == a
        && net.transitions@[i].name@ == name && forall|j: int| 0 <= j < i ==> net.transitions@[j].name@ != name;
    let k = choose|k: int| 0 <= k < net.transitions@.len() && #[trigger] net.transitions@[k].id == b
        && net.transitions@[k].name@ == name && forall|j: int| 0 <= j < k ==> net.transitions@[j].name@ != name;
    if i < k {
        assert(net.transitions@[i].name@ != name);
    }
    if k < i {
        assert(net.transitions@[k].name@ != name);
    }
}

/// The ids of the first transitions named after the first event (or, with
/// `last`, the last event) of each trace, each once, in the order in which
/// the traces first name them.
#[verifier::opaque]
pub open spec fn named_ids_in_order(net: PetriNet, names: Seq<Seq<Seq<char>>>, last: bool) -> Seq<u64>
    decreases names.len(),
{
    if names.len() == 0 {
        Seq::empty()
    } else {
        let before = named_ids_in_order(net, names.drop_last(), last);
        let trace = names.last();
        let name = if last { trace[trace.len() - 1] } else { trace[0] };
        match named_id(net, name) {
            Some(id) => if before.contains(id) { before } else { before.push(id) },
            None => before,
        }
    }
}

/// The event name of the trace that picks its transition: the last one
/// with `last`, the first one otherwise.
pub open spec fn picked_name(trace: Seq<Seq<char>>, last: bool) -> Seq<char> {
    if last { trace[trace.len() - 1] } else { trace[0] }
}

/// An id is in the order exactly when it is the first transition named
/// after the picked event of some trace, and no id is there twice.
pub proof fn lemma_named_ids_members(net: PetriNet, names: Seq<Seq<Seq<char>>>, last: bool)
    ensures
        forall|id: u64| #[trigger] named_ids_in_order(net, names, last).contains(id)
            <==> exists|t: int| 0 <= t < names.len() && named_id(net, picked_name(#[trigger] names[t], last)) == Some(id),
        named_ids_in_order(net, names, last).no_duplicates(),
    decreases names.len(),
{
    reveal(named_ids_in_order);
    if names.len() > 0 {
        let rest = names.drop_last();
        lemma_named_ids_members(net, rest, last);
        let before = named_ids_in_order(net, rest, last);
        let all = named_ids_in_order(net, names, last);
        let n = names.len() - 1;
        assert(names[n] == names.last());
        assert(picked_name(names.last(), last) == (if last { names.last()[names.last().len() - 1] } else { names.last()[0] }));
        assert forall|id: u64| #[trigger] all.contains(id)
            <==> exists|t: int| 0 <= t < names.len() && named_id(net, picked_name(#[trigger] names[t], last)) == Some(id) by {
            if all.contains(id) {
                if before.contains(id) {
                    let t = choose|t: int| 0 <= t < rest.len() && named_id(net, picked_name(#[trigger] rest[t], last)) == Some(id);
                    assert(names[t] == rest[t]);
                } else {
                    let w = choose|w: int| 0 <= w < all.len() && all[w] == id;
                    assert(named_id(net, picked_name(names[n], last)) == Some(id));
                }
            }
            if exists|t: int| 0 <= t < names.len() && named_id(net, picked_name(#[trigger] names[t], last)) == Some(id) {
                let t = choose|t: int| 0 <= t < names.len() && named_id(net, picked_name(#[trigger] names[t], last)) == Some(id);
                if t < n {
                    assert(rest[t] == names[t]);
                    assert(before.contains(id));
                    let w = choose|w: int| 0 <= w < before.len() && before[w] == id;
                    if all != before {
                        assert(all == before.push(all.last()));
                        assert(all[w] == id);
                    }
                } else {
                    if !before.contains(id) {
                        assert(all == before.push(id));
                        assert(all[before.len() as int] == id);
                    }
                }
            }
        }
        if all != before {
            let id = named_id(net, picked_name(names[n], last))->0;
            assert(all == before.push(id));
            assert(!before.contains(id));
            assert forall|i: int, j: int| 0 <= i < all.len() && 0 <= j < all.len() && i != j implies all[i] != all[j] by {
                if i < before.len() && j < before.len() {
                } else if i < before.len() {
                    assert(before.contains(before[i]));
                } else {
                    assert(before.contains(before[j]));
                }
            }
        }
    }
}

/// What the search for the first transition with the name found is `named_id`.
proof fn lemma_named_id(net: PetriNet, name: Seq<char>, found: Option<u64>)
    requires
        match found {
            Some(id) => first_named(net, name, id),
            None => forall|j: int| 0 <= j < net.transitions@.len() ==> net.transitions@[j].name@ != name,
        },
    ensures
        named_id(net, name) == found,
{
    reveal(named_id);
    match found {
        Some(id) => {
            let c = choose|c: u64| first_named(net, name, c);
            lemma_first_named_unique(net, name, id, c);
        },
        None => {
            if exists|id: u64| first_named(net, name, id) {
                let c = choose|c: u64| first_named(net, name, c);
                let i = choose|i: int| 0 <= i < net.transitions@.len() && #[trigger] net.transitions@[i].id == c
                    && net.transitions@[i].name@ == name && forall|j: int| 0 <= j < i ==> net.transitions@[j].name@ != name;
                assert(net.transitions@[i].name@ != name);
            }
        },
    }
}

/// One more trace extends the order by the id found for it, unless the order
/// already holds that id.
proof fn lemma_order_step(net: PetriNet, names: Seq<Seq<Seq<char>>>, t: int, last: bool, found: Option<u64>)
    requires
        0 <= t < names.len(),
        names[t].len() > 0,
        named_id(net, if last { names[t][names[t].len() - 1] } else { names[t][0] }) == found,
    ensures
        named_ids_in_order(net, names.take(t + 1), last) == match found {
            Some(id) => if named_ids_in_order(net, names.take(t), last).contains(id) {
                named_ids_in_order(net, names.take(t), last)
            } else {
                named_ids_in_order(net, names.take(t), last).push(id)
            },
            None => named_ids_in_order(net, names.take(t), last),
        },
{
    reveal(named_ids_in_order);
    assert(names.take(t + 1).drop_last() =~= names.take(t));
    assert(names.take(t + 1).last() == names[t]);
}

proof fn lemma_order_empty(net: PetriNet, names: Seq<Seq<Seq<char>>>, last: bool)
    ensures
        named_ids_in_order(net, names.take(0), last) == Seq::<u64>::empty(),
{
    reveal(named_ids_in_order);
    assert(names.take(0) =~= Seq::<Seq<Seq<char>>>::empty());
}

/// The arcs that the two places get, and the ids that they use up.
proof fn lemma_initial_arcs(start: PetriNet, with_places: PetriNet, after_start: PetriNet, done: PetriNet, starts: Seq<u64>, ends: Seq<u64>)
    requires
        with_places.transitions@ == start.transitions@,
        with_places.next_id == id_after(start.next_id, 2),
        forall|q: int| 0 <= q < starts.len() ==> start.has_transition(#[trigger] starts[q]),
        forall|q: int| 0 <= q < ends.len() ==> with_places.has_transition(#[trigger] ends[q]),
        same_transition_ids(with_places, after_start),
        after_start.next_id == id_after(with_places.next_id, starts.len()),
        forall|k: int| 0 <= k < starts.len() ==> arcs_of_side(
            #[trigger] after_start.transitions@[with_places.transition_index(starts[k])],
            false,
        ).last() == (Arc { id: id_after(with_places.next_id, k as nat), place_id: start.next_id, tokens_count: 1 }),
        done.next_id == id_after(after_start.next_id, ends.len()),
        done.transitions@.len() == after_start.transitions@.len(),
        forall|k: int| 0 <= k < ends.len() ==> arcs_of_side(
            #[trigger] done.transitions@[after_start.transition_index(ends[k])],
            true,
        ).last() == (Arc { id: id_after(after_start.next_id, k as nat), place_id: super::net::next_id_after(start.next_id), tokens_count: 1 }),
        forall|j: int| 0 <= j < after_start.transitions@.len()
            ==> arcs_of_side(#[trigger] done.transitions@[j], false) == arcs_of_side(after_start.transitions@[j], false),
    ensures
        done.next_id == id_after(start.next_id, 2 + starts.len() + ends.len()),
        forall|k: int| 0 <= k < starts.len() ==> (#[trigger] done.transitions@[start.transition_index(starts[k])]).incoming_arcs@.last()
            == (Arc { id: id_after(start.next_id, (2 + k) as nat), place_id: start.next_id, tokens_count: 1 }),
        forall|k: int| 0 <= k < ends.len() ==> (#[trigger] done.transitions@[start.transition_index(ends[k])]).outgoing_arcs@.last()
            == (Arc {
                id: id_after(start.next_id, (2 + starts.len() + k) as nat),
                place_id: super::net::next_id_after(start.next_id),
                tokens_count: 1,
            }),
{
    lemma_id_after_add(start.next_id, 2, starts.len());
    lemma_id_after_add(start.next_id, (2 + starts.len()) as nat, ends.len());
    assert forall|k: int| 0 <= k < starts.len() implies (#[trigger] done.transitions@[start.transition_index(starts[k])]).incoming_arcs@.last()
        == (Arc { id: id_after(start.next_id, (2 + k) as nat), place_id: start.next_id, tokens_count: 1 }) by {
        let x = starts[k];
        lemma_id_after_add(start.next_id, 2, k as nat);
        assert(with_places.transition_index(x) == start.transition_index(x));
        start.lemma_transition_index(x);
        assert(arcs_of_side(done.transitions@[start.transition_index(x)], false)
            == arcs_of_side(after_start.transitions@[start.transition_index(x)], false));
    }
    assert forall|k: int| 0 <= k < ends.len() implies (#[trigger] done.transitions@[start.transition_index(ends[k])]).outgoing_arcs@.last()
        == (Arc {
            id: id_after(start.next_id, (2 + starts.len() + k) as nat),
            place_id: super::net::next_id_after(start.next_id),
            tokens_count: 1,
        }) by {
        let x = ends[k];
        lemma_same_transition_ids(with_places, after_start, x);
        assert(with_places.transition_index(x) == start.transition_index(x));
        lemma_id_after_add(start.next_id, (2 + starts.len()) as nat, k as nat);
    }
}

/// The ids of the first transitions named after the first and after the last
/// event of each trace, each once, in the order in which the traces name them.
fn named_ids_of_log(log: &SimpleEventLog, petri_net: &PetriNet) -> (res: (Vec<u64>, Vec<u64>))
    requires
        forall|t: int| 0 <= t < log.traces@.len() ==> (#[trigger] log.traces@[t]).events@.len() > 0,
    ensures
        res.0@ == named_ids_in_order(*petri_net, log_names(*log), false),
        res.1@ == named_ids_in_order(*petri_net, log_names(*log), true),
        res.0@.to_set() == named_transition_ids(*petri_net, log_starts(log_names(*log))),
        res.1@.to_set() == named_transition_ids(*petri_net, log_ends(log_names(*log))),
        forall|a: int, b: int| 0 <= a < b < res.0@.len() ==> res.0@[a] != res.0@[b],
        forall|a: int, b: int| 0 <= a < b < res.1@.len() ==> res.1@[a] != res.1@[b],
        forall|x: u64| #[trigger] named_transition_ids(*petri_net, log_starts(log_names(*log))).contains(x) ==> petri_net.has_transition(x),
        forall|x: u64| #[trigger] named_transition_ids(*petri_net, log_ends(log_names(*log))).contains(x) ==> petri_net.has_transition(x),
{
    let ghost start = *petri_net;
    let ghost names = log_names(*log);
    let mut start_transitions: Vec<u64> = Vec::new();
    let mut end_transitions: Vec<u64> = Vec::new();
    let traces = log.traces();
    proof {
        assert(start_transitions@.to_set() =~= named_transition_ids(start, log_starts(names.take(0)))) by {
            assert(log_starts(names.take(0)) =~= Set::empty());
        }
        assert(end_transitions@.to_set() =~= named_transition_ids(start, log_ends(names.take(0)))) by {
            assert(log_ends(names.take(0)) =~= Set::empty());
        }
        lemma_order_empty(start, names, false);
        lemma_order_empty(start, names, true);
    }
    let mut t: usize = 0;
    while t < traces.len()
        invariant
            t <= traces@.len(),
            traces@ == log.traces@,
            names == log_names(*log),
            *petri_net == start,
            forall|k: int| 0 <= k < log.traces@.len() ==> (#[trigger] log.traces@[k]).events@.len() > 0,
            forall|a: int, b: int| 0 <= a < b < start_transitions@.len() ==> start_transitions@[a] != start_transitions@[b],
            forall|a: int, b: int| 0 <= a < b < end_transitions@.len() ==> end_transitions@[a] != end_transitions@[b],
            start_transitions@.to_set() == named_transition_ids(start, log_starts(names.take(t as int))),
            end_transitions@.to_set() == named_transition_ids(start, log_ends(names.take(t as int))),
            start_transitions@ == named_ids_in_order(start, names.take(t as int), false),
            end_transitions@ == named_ids_in_order(start, names.take(t as int), true),
        decreases traces@.len() - t,
    {
        let events = traces[t].events();
        proof {
            assert(log.traces@[t as int].events@.len() > 0);
            assert(names[t as int] == events@.map_values(|e: SimpleEvent| e.name@));
            lemma_prefix_step(names, t as int);
            assert(names[t as int][0] == events@[0].name@);
            assert(names[t as int][names[t as int].len() - 1] == events@[events@.len() - 1].name@);
        }
        let first = petri_net.find_transition_by_name(&events[0].name);
        let first_id = match first {
            Some(transition) => Some(transition.id),
            None => None,
        };
        proof {
            lemma_named_ids_insert(start, log_starts(names.take(t as int)), events@[0].name@, first_id);
            lemma_named_id(start, events@[0].name@, first_id);
            lemma_order_step(start, names, t as int, false, first_id);
        }
        match first_id {
            Some(id) => push_unique_id(&mut start_transitions, id),
            None => {},
        }
        let last = petri_net.find_transition_by_name(&events[events.len() - 1].name);
        let last_id = match last {
            Some(transition) => Some(transition.id),
            None => None,
        };
        proof {
            lemma_named_ids_insert(start, log_ends(names.take(t as int)), events@[events@.len() - 1].name@, last_id);
            lemma_named_id(start, events@[events@.len() - 1].name@, last_id);
            lemma_order_step(start, names, t as int, true, last_id);
        }
        match last_id {
            Some(id) => push_unique_id(&mut end_transitions, id),
            None => {},
        }
        t = t + 1;
    }
    proof {
        assert(names.take(t as int) =~= names);
        lemma_named_ids_exist(start, log_starts(names));
        lemma_named_ids_exist(start, log_ends(names));
    }
    (start_transitions, end_transitions)
}

/// Adds a place "Start" that feeds the first transition named after the first
/// event of each trace, and a place "End" that the first transition named
/// after the last event of each trace feeds; the start place gets the
/// initial token. Every trace must hold an event.
pub fn ensure_initial_marking(log: &SimpleEventLog, petri_net: &mut PetriNet)
    requires
        forall|t: int| 0 <= t < log.traces@.len() ==> (#[trigger] log.traces@[t]).events@.len() > 0,
    ensures
        final(petri_net).places@.len() == old(petri_net).places@.len() + 2,
        final(petri_net).places@.take(old(petri_net).places@.len() as int) == old(petri_net).places@,
        final(petri_net).places@[old(petri_net).places@.len() as int].id == old(petri_net).next_id,
        final(petri_net).places@[old(petri_net).places@.len() as int].name@ == "Start"@,
        final(petri_net).places@[old(petri_net).places@.len() as int + 1].id == super::net::next_id_after(old(petri_net).next_id),
        final(petri_net).places@[old(petri_net).places@.len() as int + 1].name@ == "End"@,
        final(petri_net).transitions@.len() == old(petri_net).transitions@.len(),
        forall|j: int| 0 <= j < old(petri_net).transitions@.len()
            ==> same_header(#[trigger] final(petri_net).transitions@[j], old(petri_net).transitions@[j]),
        forall|j: int| 0 <= j < old(petri_net).transitions@.len() ==> arcs_place_ids(#[trigger] final(petri_net).transitions@[j].incoming_arcs@)
            == arcs_place_ids(old(petri_net).transitions@[j].incoming_arcs@) + id_for_target(
                *old(petri_net),
                named_transition_ids(*old(petri_net), log_starts(log_names(*log))),
                j,
                old(petri_net).next_id,
            ),
        forall|j: int| 0 <= j < old(petri_net).transitions@.len() ==> arcs_place_ids(#[trigger] final(petri_net).transitions@[j].outgoing_arcs@)
            == arcs_place_ids(old(petri_net).transitions@[j].outgoing_arcs@) + id_for_target(
                *old(petri_net),
                named_transition_ids(*old(petri_net), log_ends(log_names(*log))),
                j,
                super::net::next_id_after(old(petri_net).next_id),
            ),
        final(petri_net).initial_marking is Some,
        final(petri_net).initial_marking->0.active_places@ == seq![SingleMarking { place_id: old(petri_net).next_id, tokens_count: 1 }],
        final(petri_net).final_marking == old(petri_net).final_marking,
        ({
            let starts = named_ids_in_order(*old(petri_net), log_names(*log), false);
            let ends = named_ids_in_order(*old(petri_net), log_names(*log), true);
            &&& final(petri_net).next_id == id_after(old(petri_net).next_id, 2 + starts.len() + ends.len())
            &&& forall|k: int| 0 <= k < starts.len() ==> (#[trigger] final(petri_net).transitions@[old(petri_net).transition_index(starts[k])]).incoming_arcs@.last()
                == (Arc { id: id_after(old(petri_net).next_id, (2 + k) as nat), place_id: old(petri_net).next_id, tokens_count: 1 })
            &&& forall|k: int| 0 <= k < ends.len() ==> (#[trigger] final(petri_net).transitions@[old(petri_net).transition_index(ends[k])]).outgoing_arcs@.last()
                == (Arc {
                    id: id_after(old(petri_net).next_id, (2 + starts.len() + k) as nat),
                    place_id: super::net::next_id_after(old(petri_net).next_id),
                    tokens_count: 1,
                })
        }),
{
    let ghost start = *petri_net;
    let ghost names = log_names(*log);
    let (start_transitions, end_transitions) = named_ids_of_log(log, petri_net);
    let start_place_id = petri_net.add_place("Start".to_owned());
    let end_place_id = petri_net.add_place("End".to_owned());
    let ghost with_places = *petri_net;
    proof {
        assert forall|q: int| 0 <= q < start_transitions@.len() implies with_places.has_transition(#[trigger] start_transitions@[q]) by {
            assert(start_transitions@.to_set().contains(start_transitions@[q]));
        }
        assert forall|q: int| 0 <= q < end_transitions@.len() implies with_places.has_transition(#[trigger] end_transitions@[q]) by {
            assert(end_transitions@.to_set().contains(end_transitions@[q]));
        }
    }
    connect_all(petri_net, &start_transitions, start_place_id, false);
    let ghost after_start = *petri_net;
    proof {
        assert forall|q: int| 0 <= q < end_transitions@.len() implies after_start.has_transition(#[trigger] end_transitions@[q]) by {
            lemma_same_transition_ids(with_places, after_start, end_transitions@[q]);
        }
    }
    connect_all(petri_net, &end_transitions, end_place_id, true);
    let ghost before_marking = *petri_net;
    proof {
        assert forall|q: int| 0 <= q < start_transitions@.len() implies start.has_transition(#[trigger] start_transitions@[q]) by {
            assert(with_places.has_transition(start_transitions@[q]));
        }
        assert(id_after(start.next_id, 0) == start.next_id);
        assert(id_after(start.next_id, 1) == super::net::next_id_after(start.next_id));
        assert(id_after(start.next_id, 2) == super::net::next_id_after(id_after(start.next_id, 1)));
        let starts = named_ids_in_order(start, log_names(*log), false);
        let ends = named_ids_in_order(start, log_names(*log), true);
        assert({
            &&& before_marking.next_id == id_after(start.next_id, 2 + starts.len() + ends.len())
            &&& forall|k: int| 0 <= k < starts.len() ==> (#[trigger] before_marking.transitions@[start.transition_index(starts[k])]).incoming_arcs@.last()
                == (Arc { id: id_after(start.next_id, (2 + k) as nat), place_id: start.next_id, tokens_count: 1 })
            &&& forall|k: int| 0 <= k < ends.len() ==> (#[trigger] before_marking.transitions@[start.transition_index(ends[k])]).outgoing_arcs@.last()
                == (Arc {
                    id: id_after(start.next_id, (2 + starts.len() + k) as nat),
                    place_id: super::net::next_id_after(start.next_id),
                    tokens_count: 1,
                })
        }) by {
            lemma_initial_arcs(start, with_places, after_start, before_marking, start_transitions@, end_transitions@);
        }
    }
    let mut initial: Vec<SingleMarking> = Vec::new();
    initial.push(SingleMarking::new(start_place_id, 1));
    petri_net.set_initial_marking(Marking::new(initial));
    proof {
        assert(petri_net.places@.take(start.places@.len() as int) =~= start.places@);
        assert forall|j: int| 0 <= j < start.transitions@.len() implies
            same_header(#[trigger] petri_net.transitions@[j], start.transitions@[j])
            && arcs_place_ids(petri_net.transitions@[j].incoming_arcs@)
                == arcs_place_ids(start.transitions@[j].incoming_arcs@)
                    + id_for_target(start, named_transition_ids(start, log_starts(names)), j, start.next_id)
            && arcs_place_ids(petri_net.transitions@[j].outgoing_arcs@)
                == arcs_place_ids(start.transitions@[j].outgoing_arcs@)
                    + id_for_target(start, named_transition_ids(start, log_ends(names)), j, super::net::next_id_after(start.next_id)) by {
            assert(same_header(after_start.transitions@[j], with_places.transitions@[j]));
            lemma_id_for_target_same_ids(with_places, after_start, end_transitions@.to_set(), j, end_place_id);
            assert(with_places.transitions@ == start.transitions@);
            assert(id_for_target(with_places, start_transitions@.to_set(), j, start_place_id)
                == id_for_target(start, start_transitions@.to_set(), j, start_place_id));
            assert(id_for_target(with_places, end_transitions@.to_set(), j, end_place_id)
                == id_for_target(start, end_transitions@.to_set(), j, end_place_id));
            assert(arcs_place_ids(after_start.transitions@[j].outgoing_arcs@) =~= arcs_place_ids(with_places.transitions@[j].outgoing_arcs@));
            assert(arcs_place_ids(petri_net.transitions@[j].incoming_arcs@) =~= arcs_place_ids(after_start.transitions@[j].incoming_arcs@));
        }
        assert(petri_net.initial_marking->0.active_places@ =~= seq![SingleMarking { place_id: start.next_id, tokens_count: 1 }]);
    }
}

} // verus!
