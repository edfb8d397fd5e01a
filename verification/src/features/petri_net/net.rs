use vstd::prelude::*;

use super::marking::Marking;

verus! {

/// A place of a Petri net.
#[derive(Clone, Debug)]
pub struct Place {
    pub id: u64,
    pub name: String,
}

/// An arc between a transition and a place; `place_id` is the place at its
/// other end and `tokens_count` the number of tokens that it moves.
#[derive(Clone, Copy, Debug, PartialEq, Eq)]
pub struct Arc {
    pub id: u64,
    pub place_id: u64,
    pub tokens_count: usize,
}

/// A transition with the arcs that enter it (from places) and leave it (to places).
#[derive(Clone, Debug)]
pub struct Transition {
    pub id: u64,
    pub name: String,
    pub data: Option<String>,
    pub is_silent: bool,
    pub incoming_arcs: Vec<Arc>,
    pub outgoing_arcs: Vec<Arc>,
}

/// A Petri net. Every place, transition and arc gets its id from `next_id`,
/// which advances by one (wrapping) at each creation.
#[derive(Debug)]
pub struct PetriNet {
    pub places: Vec<Place>,
    pub transitions: Vec<Transition>,
    pub initial_marking: Option<Marking>,
    pub final_marking: Option<Marking>,
    pub next_id: u64,
}

pub type DefaultPetriNet = PetriNet;

/// Whether some arc in `arcs` has the place `place_id` at its other end.
pub open spec fn arcs_touch_place(arcs: Seq<Arc>, place_id: u64) -> bool {
    exists|k: int| 0 <= k < arcs.len() && arcs[k].place_id == place_id
}

/// Whether the transition has an arc to the place.
pub open spec fn sends_to_place(t: Transition, place_id: u64) -> bool {
    arcs_touch_place(t.outgoing_arcs@, place_id)
}

/// Whether the transition has an arc from the place.
pub open spec fn takes_from_place(t: Transition, place_id: u64) -> bool {
    arcs_touch_place(t.incoming_arcs@, place_id)
}

/// `takes_from_place` when `incoming`, `sends_to_place` otherwise.
pub open spec fn touches_place(t: Transition, place_id: u64, incoming: bool) -> bool {
    if incoming { takes_from_place(t, place_id) } else { sends_to_place(t, place_id) }
}

/// Whether some arc of the vector has the place at its other end.
pub fn arcs_contain_place(arcs: &Vec<Arc>, place_id: u64) -> (res: bool)
    ensures
        res == arcs_touch_place(arcs@, place_id),
{
    let mut k: usize = 0;
    while k < arcs.len()
        invariant
            k <= arcs@.len(),
            forall|j: int| 0 <= j < k ==> arcs@[j].place_id != place_id,
        decreases arcs@.len() - k,
    {
        if arcs[k].place_id == place_id {
            return true;
        }
        k = k + 1;
    }
    false
}

proof fn lemma_first_with_id(s: Seq<Transition>, id: u64, n: int)
    requires
        0 <= n <= s.len(),
        exists|i: int| 0 <= i < n && s[i].id == id,
    ensures
        exists|i: int| 0 <= i < n && s[i].id == id && forall|j: int| 0 <= j < i ==> s[j].id != id,
    decreases n,
{
    if exists|i: int| 0 <= i < n - 1 && s[i].id == id {
        lemma_first_with_id(s, id, n - 1);
    } else {
        assert(s[n - 1].id == id);
    }
}

/// The id that follows `id`.
pub open spec fn next_id_after(id: u64) -> u64 {
    if id == u64::MAX { 0 } else { (id + 1) as u64 }
}

impl Place {
    pub fn id(&self) -> (res: u64)
        ensures
            res == self.id,
    {
        self.id
    }

    pub fn name(&self) -> (res: &String)
        ensures
            res@ == self.name@,
    {
        &self.name
    }
}

impl Arc {
    pub fn id(&self) -> (res: u64)
        ensures
            res == self.id,
    {
        self.id
    }

    pub fn place_id(&self) -> (res: u64)
        ensures
            res == self.place_id,
    {
        self.place_id
    }

    pub fn tokens_count(&self) -> (res: usize)
        ensures
            res == self.tokens_count,
    {
        self.tokens_count
    }
}

impl Transition {
    pub fn id(&self) -> (res: u64)
        ensures
            res == self.id,
    {
        self.id
    }

    pub fn name(&self) -> (res: &String)
        ensures
            res@ == self.name@,
    {
        &self.name
    }

    pub fn is_silent(&self) -> (res: bool)
        ensures
            res == self.is_silent,
    {
        self.is_silent
    }

    pub fn incoming_arcs(&self) -> (res: &Vec<Arc>)
        ensures
            res@ == self.incoming_arcs@,
    {
        &self.incoming_arcs
    }

    pub fn outgoing_arcs(&self) -> (res: &Vec<Arc>)
        ensures
            res@ == self.outgoing_arcs@,
    {
        &self.outgoing_arcs
    }
}

impl PetriNet {
    /// The index of the first transition with the given id.
    pub open spec fn transition_index(&self, id: u64) -> int {
        choose|i: int| 0 <= i < self.transitions@.len() && self.transitions@[i].id == id
            && forall|j: int| 0 <= j < i ==> self.transitions@[j].id != id
    }

    pub open spec fn has_transition(&self, id: u64) -> bool {
        exists|i: int| 0 <= i < self.transitions@.len() && self.transitions@[i].id == id
    }

    /// A transition with the id is found by `transition_index`, the first one.
    pub proof fn lemma_transition_index(&self, id: u64)
        requires
            self.has_transition(id),
        ensures
            0 <= self.transition_index(id) < self.transitions@.len(),
            self.transitions@[self.transition_index(id)].id == id,
            forall|j: int| 0 <= j < self.transition_index(id) ==> self.transitions@[j].id != id,
    {
        lemma_first_with_id(self.transitions@, id, self.transitions@.len() as int);
    }

    pub open spec fn has_place(&self, id: u64) -> bool {
        exists|i: int| 0 <= i < self.places@.len() && self.places@[i].id == id
    }

    pub fn empty() -> (res: Self)
        ensures
            res.places@.len() == 0,
            res.transitions@.len() == 0,
            res.initial_marking is None,
            res.final_marking is None,
            res.next_id == 0,
    {
        Self { places: Vec::new(), transitions: Vec::new(), initial_marking: None, final_marking: None, next_id: 0 }
    }

    fn take_id(&mut self) -> (res: u64)
        ensures
            res == old(self).next_id,
            final(self).next_id == next_id_after(old(self).next_id),
            final(self).places == old(self).places,
            final(self).transitions == old(self).transitions,
            final(self).initial_marking == old(self).initial_marking,
            final(self).final_marking == old(self).final_marking,
    {
        let id = self.next_id;
        self.next_id = self.next_id.wrapping_add(1);
        id
    }

    /// Adds a place with the given name and returns its id.
    pub fn add_place(&mut self, name: String) -> (res: u64)
        ensures
            res == old(self).next_id,
            final(self).next_id == next_id_after(old(self).next_id),
            final(self).places@ == old(self).places@.push(Place { id: res, name }),
            final(self).transitions@ == old(self).transitions@,
            final(self).initial_marking == old(self).initial_marking,
            final(self).final_marking == old(self).final_marking,
    {
        let id = self.take_id();
        self.places.push(Place { id, name });
        id
    }

    /// Adds a transition without arcs and returns its id.
    pub fn add_transition(&mut self, name: String, is_silent: bool, data: Option<String>) -> (res: u64)
        ensures
            res == old(self).next_id,
            final(self).next_id == next_id_after(old(self).next_id),
            final(self).transitions@.len() == old(self).transitions@.len() + 1,
            final(self).transitions@.drop_last() == old(self).transitions@,
            final(self).transitions@.last().id == res,
            final(self).transitions@.last().name == name,
            final(self).transitions@.last().data == data,
            final(self).transitions@.last().is_silent == is_silent,
            final(self).transitions@.last().incoming_arcs@.len() == 0,
            final(self).transitions@.last().outgoing_arcs@.len() == 0,
            final(self).places@ == old(self).places@,
            final(self).initial_marking == old(self).initial_marking,
            final(self).final_marking == old(self).final_marking,
    {
        let id = self.take_id();
        self.transitions.push(Transition {
            id,
            name,
            data,
            is_silent,
            incoming_arcs: Vec::new(),
            outgoing_arcs: Vec::new(),
        });
        id
    }

    /// `after` is `before` with `arc` appended to its incoming arcs (`incoming`)
    /// or to its outgoing arcs (otherwise).
    pub open spec fn arc_appended(before: Transition, after: Transition, arc: Arc, incoming: bool) -> bool {
        &&& after.id == before.id
        &&& after.name == before.name
        &&& after.data == before.data
        &&& after.is_silent == before.is_silent
        &&& if incoming {
            &&& after.incoming_arcs@ == before.incoming_arcs@.push(arc)
            &&& after.outgoing_arcs@ == before.outgoing_arcs@
        } else {
            &&& after.incoming_arcs@ == before.incoming_arcs@
            &&& after.outgoing_arcs@ == before.outgoing_arcs@.push(arc)
        }
    }

    /// The index of the first transition with the given id, if there is one.
    pub fn find_transition_index(&self, id: u64) -> (res: Option<usize>)
        ensures
            match res {
                Some(i) => i < self.transitions@.len() && self.transitions@[i as int].id == id
                    && forall|j: int| 0 <= j < i ==> self.transitions@[j].id != id,
                None => !self.has_transition(id),
            },
    {
        let mut i: usize = 0;
        while i < self.transitions.len()
            invariant
                i <= self.transitions@.len(),
                forall|j: int| 0 <= j < i ==> self.transitions@[j].id != id,
            decreases self.transitions@.len() - i,
        {
            if self.transitions[i].id == id {
                return Some(i);
            }
            i = i + 1;
        }
        None
    }

    pub(crate) fn append_arc(&mut self, index: usize, place_id: u64, incoming: bool)
        requires
            index < old(self).transitions@.len(),
        ensures
            final(self).next_id == next_id_after(old(self).next_id),
            final(self).transitions@.len() == old(self).transitions@.len(),
            forall|j: int| 0 <= j < old(self).transitions@.len() && j != index ==> final(self).transitions@[j] == old(self).transitions@[j],
            Self::arc_appended(
                old(self).transitions@[index as int],
                final(self).transitions@[index as int],
                Arc { id: old(self).next_id, place_id, tokens_count: 1 },
                incoming,
            ),
            final(self).places == old(self).places,
            final(self).initial_marking == old(self).initial_marking,
            final(self).final_marking == old(self).final_marking,
    {
        let id = self.take_id();
        let arc = Arc { id, place_id, tokens_count: 1 };
        let mut transition = self.transitions.remove(index);
        if incoming {
            transition.incoming_arcs.push(arc);
        } else {
            transition.outgoing_arcs.push(arc);
        }
        self.transitions.insert(index, transition);
    }

    /// Adds an arc from the place to the (first) transition with the given id;
    /// the arc moves one token.
    pub fn connect_place_to_transition(&mut self, place_id: u64, transition_id: u64)
        requires
            old(self).has_transition(transition_id),
        ensures
            final(self).next_id == next_id_after(old(self).next_id),
            final(self).transitions@.len() == old(self).transitions@.len(),
            forall|j: int| 0 <= j < old(self).transitions@.len() && j != old(self).transition_index(transition_id)
                ==> final(self).transitions@[j] == old(self).transitions@[j],
            Self::arc_appended(
                old(self).transitions@[old(self).transition_index(transition_id)],
                final(self).transitions@[old(self).transition_index(transition_id)],
                Arc { id: old(self).next_id, place_id, tokens_count: 1 },
                true,
            ),
            final(self).places == old(self).places,
            final(self).initial_marking == old(self).initial_marking,
            final(self).final_marking == old(self).final_marking,
    {
        let index = self.find_transition_index(transition_id).unwrap();
        self.append_arc(index, place_id, true);
    }

    /// Adds an arc from the (first) transition with the given id to the place;
    /// the arc moves one token.
    pub fn connect_transition_to_place(&mut self, transition_id: u64, place_id: u64)
        requires
            old(self).has_transition(transition_id),
        ensures
            final(self).next_id == next_id_after(old(self).next_id),
            final(self).transitions@.len() == old(self).transitions@.len(),
            forall|j: int| 0 <= j < old(self).transitions@.len() && j != old(self).transition_index(transition_id)
                ==> final(self).transitions@[j] == old(self).transitions@[j],
            Self::arc_appended(
                old(self).transitions@[old(self).transition_index(transition_id)],
                final(self).transitions@[old(self).transition_index(transition_id)],
                Arc { id: old(self).next_id, place_id, tokens_count: 1 },
                false,
            ),
            final(self).places == old(self).places,
            final(self).initial_marking == old(self).initial_marking,
            final(self).final_marking == old(self).final_marking,
    {
        let index = self.find_transition_index(transition_id).unwrap();
        self.append_arc(index, place_id, false);
    }

    /// The first transition with the given name.
    pub fn find_transition_by_name(&self, name: &String) -> (res: Option<&Transition>)
        ensures
            match res {
                Some(t) => exists|i: int| 0 <= i < self.transitions@.len() && self.transitions@[i] == *t
                    && t.name@ == name@
                    && forall|j: int| 0 <= j < i ==> self.transitions@[j].name@ != name@,
                None => forall|j: int| 0 <= j < self.transitions@.len() ==> self.transitions@[j].name@ != name@,
            },
    {
        let mut i: usize = 0;
        while i < self.transitions.len()
            invariant
                i <= self.transitions@.len(),
                forall|j: int| 0 <= j < i ==> self.transitions@[j].name@ != name@,
            decreases self.transitions@.len() - i,
        {
            if self.transitions[i].name == *name {
                return Some(&self.transitions[i]);
            }
            i = i + 1;
        }
        None
    }

    /// The id of the first place with the given name.
    pub fn find_place_id_by_name(&self, name: &String) -> (res: Option<u64>)
        ensures
            match res {
                Some(id) => exists|i: int| 0 <= i < self.places@.len() && self.places@[i].id == id
                    && self.places@[i].name@ == name@
                    && forall|j: int| 0 <= j < i ==> self.places@[j].name@ != name@,
                None => forall|j: int| 0 <= j < self.places@.len() ==> self.places@[j].name@ != name@,
            },
    {
        let mut i: usize = 0;
        while i < self.places.len()
            invariant
                i <= self.places@.len(),
                forall|j: int| 0 <= j < i ==> self.places@[j].name@ != name@,
            decreases self.places@.len() - i,
        {
            if self.places[i].name == *name {
                return Some(self.places[i].id);
            }
            i = i + 1;
        }
        None
    }

    /// The first place with the given id.
    pub fn place(&self, id: u64) -> (res: Option<&Place>)
        ensures
            match res {
                Some(p) => exists|i: int| 0 <= i < self.places@.len() && self.places@[i] == *p
                    && p.id == id
                    && forall|j: int| 0 <= j < i ==> self.places@[j].id != id,
                None => !self.has_place(id),
            },
    {
        let mut i: usize = 0;
        while i < self.places.len()
            invariant
                i <= self.places@.len(),
                forall|j: int| 0 <= j < i ==> self.places@[j].id != id,
            decreases self.places@.len() - i,
        {
            if self.places[i].id == id {
                return Some(&self.places[i]);
            }
            i = i + 1;
        }
        None
    }

    pub fn all_places(&self) -> (res: &Vec<Place>)
        ensures
            res@ == self.places@,
    {
        &self.places
    }

    pub fn all_transitions(&self) -> (res: &Vec<Transition>)
        ensures
            res@ == self.transitions@,
    {
        &self.transitions
    }

    pub fn initial_marking(&self) -> (res: &Option<Marking>)
        ensures
            *res == self.initial_marking,
    {
        &self.initial_marking
    }

    pub fn final_marking(&self) -> (res: &Option<Marking>)
        ensures
            *res == self.final_marking,
    {
        &self.final_marking
    }

    pub fn set_initial_marking(&mut self, marking: Marking)
        ensures
            final(self).initial_marking == Some(marking),
            final(self).places == old(self).places,
            final(self).transitions == old(self).transitions,
            final(self).final_marking == old(self).final_marking,
            final(self).next_id == old(self).next_id,
    {
        self.initial_marking = Some(marking);
    }

    pub fn set_final_marking(&mut self, marking: Marking)
        ensures
            final(self).final_marking == Some(marking),
            final(self).places == old(self).places,
            final(self).transitions == old(self).transitions,
            final(self).initial_marking == old(self).initial_marking,
            final(self).next_id == old(self).next_id,
    {
        self.final_marking = Some(marking);
    }

    /// The transitions that have an arc into the place, in the net's order.
    pub fn get_incoming_transitions(&self, place_id: u64) -> (res: Vec<&Transition>)
        ensures
            res@.map_values(|t: &Transition| *t) == self.transitions@.filter(|t: Transition| sends_to_place(t, place_id)),
    {
        let res = self.transitions_touching(place_id, false);
        proof {
            assert((|t: Transition| touches_place(t, place_id, false)) =~= (|t: Transition| sends_to_place(t, place_id)));
        }
        res
    }

    /// The transitions that have an arc from the place, in the net's order.
    pub fn get_outgoing_transitions(&self, place_id: u64) -> (res: Vec<&Transition>)
        ensures
            res@.map_values(|t: &Transition| *t) == self.transitions@.filter(|t: Transition| takes_from_place(t, place_id)),
    {
        let res = self.transitions_touching(place_id, true);
        proof {
            assert((|t: Transition| touches_place(t, place_id, true)) =~= (|t: Transition| takes_from_place(t, place_id)));
        }
        res
    }

    fn transitions_touching(&self, place_id: u64, incoming: bool) -> (res: Vec<&Transition>)
        ensures
            res@.map_values(|t: &Transition| *t) == self.transitions@.filter(|t: Transition| touches_place(t, place_id, incoming)),
    {
        let ghost pred = |t: Transition| touches_place(t, place_id, incoming);
        let mut res: Vec<&Transition> = Vec::new();
        let mut i: usize = 0;
        while i < self.transitions.len()
            invariant
                i <= self.transitions@.len(),
                pred == (|t: Transition| touches_place(t, place_id, incoming)),
                res@.map_values(|t: &Transition| *t) == self.transitions@.take(i as int).filter(pred),
            decreases self.transitions@.len() - i,
        {
            let t = &self.transitions[i];
            let arcs = if incoming { &t.incoming_arcs } else { &t.outgoing_arcs };
            let touches = arcs_contain_place(arcs, place_id);
            let ghost old_res = res@;
            proof {
                reveal_with_fuel(Seq::<_>::filter, 1);
                assert(self.transitions@.take(i + 1).drop_last() =~= self.transitions@.take(i as int));
                assert(self.transitions@.take(i + 1).last() == *t);
            }
            if touches {
                res.push(t);
                proof {
                    assert(res@.map_values(|t: &Transition| *t) =~= old_res.map_values(|t: &Transition| *t).push(*t));
                }
            }
            i = i + 1;
        }
        proof {
            assert(self.transitions@.take(i as int) =~= self.transitions@);
        }
        res
    }
}

} // verus!
