use vstd::prelude::*;

use crate::event_log::simple_event_log::{log_names, SimpleEventLog};
use crate::features::analysis::event_log_info::{contains_pair, contains_string, pair_set, string_set, EventLogInfo};
use crate::features::discovery::alpha::alpha_provider::AlphaRelationsProvider;
use crate::features::petri_net::net::{sends_to_place, takes_from_place, Arc, PetriNet, Transition};

verus! {

/// The trace holds `a`, `b`, `a` in a row from position `i` on.
pub open spec fn triangle_at(s: Seq<Seq<char>>, i: int, a: Seq<char>, b: Seq<char>) -> bool {
    0 <= i && i + 2 < s.len() && s[i] == a && s[i + 1] == b && s[i + 2] == a
}

/// The relations of the alpha++ algorithm with non-free choice: those of
/// alpha+ (directly-follows pairs of the log information, and the triangle
/// pattern `a b a` of the log), with causal pairs that can be added.
pub struct AlphaPlusNfcRelationsProvider<'a> {
    additional_causal_relations: Vec<(String, String)>,
    info: &'a EventLogInfo,
    log: &'a SimpleEventLog,
    one_length_loop_transitions: Vec<String>,
}

impl<'a> AlphaPlusNfcRelationsProvider<'a> {
    #[verifier::type_invariant]
    spec fn wf(&self) -> bool {
        self.info.wf()
    }

    pub closed spec fn spec_info(&self) -> EventLogInfo {
        *self.info
    }

    /// The names of the events of the log, trace by trace.
    pub closed spec fn names(&self) -> Seq<Seq<Seq<char>>> {
        log_names(*self.log)
    }

    /// The causal pairs that were added.
    pub closed spec fn additional(&self) -> Set<(Seq<char>, Seq<char>)> {
        pair_set(self.additional_causal_relations@)
    }

    pub closed spec fn loops(&self) -> Seq<String> {
        self.one_length_loop_transitions@
    }

    /// The event classes of the log information, in order.
    pub open spec fn classes(&self) -> Seq<Seq<char>> {
        self.spec_info().event_classes@.map_values(|s: String| s@)
    }

    /// `b` directly follows `a` somewhere.
    pub open spec fn nfc_direct(&self, a: Seq<char>, b: Seq<char>) -> bool {
        pair_set(self.spec_info().dfg@).contains((a, b))
    }

    /// Some trace holds `a`, `b`, `a` in a row.
    pub open spec fn triangle(&self, a: Seq<char>, b: Seq<char>) -> bool {
        exists|t: int, i: int| 0 <= t < self.names().len() && #[trigger] triangle_at(self.names()[t], i, a, b)
    }

    pub open spec fn nfc_causal(&self, a: Seq<char>, b: Seq<char>) -> bool {
        ||| self.additional().contains((a, b))
        ||| (self.nfc_direct(a, b) && (!self.nfc_direct(b, a) || self.triangle(a, b) || self.triangle(b, a)))
    }

    pub open spec fn nfc_parallel(&self, a: Seq<char>, b: Seq<char>) -> bool {
        self.nfc_direct(a, b) && self.nfc_direct(b, a) && !(self.triangle(a, b) || self.triangle(b, a))
    }

    pub open spec fn nfc_unrelated(&self, a: Seq<char>, b: Seq<char>) -> bool {
        !self.nfc_direct(a, b) && !self.nfc_direct(b, a)
    }

    /// `a` and `b` are unrelated and some class causes both.
    pub open spec fn left_triangle(&self, a: Seq<char>, b: Seq<char>) -> bool {
        self.nfc_unrelated(a, b) && exists|k: int| 0 <= k < self.classes().len()
            && #[trigger] self.nfc_causal(self.classes()[k], a) && self.nfc_causal(self.classes()[k], b)
    }

    /// `a` and `b` are unrelated and both cause some class.
    pub open spec fn right_triangle(&self, a: Seq<char>, b: Seq<char>) -> bool {
        self.nfc_unrelated(a, b) && exists|k: int| 0 <= k < self.classes().len()
            && #[trigger] self.nfc_causal(a, self.classes()[k]) && self.nfc_causal(b, self.classes()[k])
    }

    pub fn new(info: &'a EventLogInfo, log: &'a SimpleEventLog, one_length_loop_transitions: Vec<String>) -> (res: Self)
        requires
            info.wf(),
        ensures
            res.spec_info() == *info,
            res.names() == log_names(*log),
            res.additional() == Set::<(Seq<char>, Seq<char>)>::empty(),
            res.loops() == one_length_loop_transitions@,
    {
        let res = Self { additional_causal_relations: Vec::new(), info, log, one_length_loop_transitions };
        assert(pair_set(res.additional_causal_relations@) =~= Set::empty());
        res
    }

    pub fn log_info(&self) -> (res: &EventLogInfo)
        ensures
            *res == self.spec_info(),
            res.wf(),
    {
        proof {
            use_type_invariant(self);
        }
        self.info
    }

    /// The transitions of one-length loops that the provider was made with.
    pub fn one_length_loop_transitions(&self) -> (res: &Vec<String>)
        ensures
            res@ == self.loops(),
    {
        &self.one_length_loop_transitions
    }

    /// Adds `(first, second)` to the causal pairs.
    pub fn add_additional_causal_relation(&mut self, first: &String, second: &String)
        ensures
            final(self).additional() == old(self).additional().insert((first@, second@)),
            final(self).spec_info() == old(self).spec_info(),
            final(self).names() == old(self).names(),
            final(self).loops() == old(self).loops(),
    {
        proof {
            use_type_invariant(&*self);
        }
        let ghost before = self.additional_causal_relations@;
        let mut pairs: Vec<(String, String)> = Vec::new();
        let mut i: usize = 0;
        while i < self.additional_causal_relations.len()
            invariant
                i <= before.len(),
                before == self.additional_causal_relations@,
                pairs@.len() == i,
                forall|j: int| 0 <= j < i ==> (#[trigger] pairs@[j]).0@ == before[j].0@ && pairs@[j].1@ == before[j].1@,
            decreases before.len() - i,
        {
            let pair = (self.additional_causal_relations[i].0.clone(), self.additional_causal_relations[i].1.clone());
            pairs.push(pair);
            i = i + 1;
        }
        pairs.push((first.clone(), second.clone()));
        proof {
            assert(pair_set(pairs@) =~= pair_set(before).insert((first@, second@))) by {
                assert forall|p: (Seq<char>, Seq<char>)| pair_set(pairs@).contains(p)
                    implies pair_set(before).insert((first@, second@)).contains(p) by {
                    let j = choose|j: int| 0 <= j < pairs@.len() && pairs@[j].0@ == p.0 && pairs@[j].1@ == p.1;
                    if j < before.len() {
                        assert(before[j].0@ == p.0 && before[j].1@ == p.1);
                    }
                }
                assert forall|p: (Seq<char>, Seq<char>)| pair_set(before).insert((first@, second@)).contains(p)
                    implies pair_set(pairs@).contains(p) by {
                    if p == (first@, second@) {
                        assert(pairs@[before.len() as int].0@ == p.0);
                    } else {
                        let j = choose|j: int| 0 <= j < before.len() && before[j].0@ == p.0 && before[j].1@ == p.1;
                        assert(pairs@[j].0@ == p.0 && pairs@[j].1@ == p.1);
                    }
                }
            }
        }
        self.additional_causal_relations = pairs;
    }

    /// Whether some trace holds `first`, `second`, `first` in a row.
    pub fn triangle_relation(&self, first: &String, second: &String) -> (res: bool)
        ensures
            res == self.triangle(first@, second@),
    {
        let traces = &self.log.traces;
        let mut t: usize = 0;
        while t < traces.len()
            invariant
                t <= traces@.len(),
                *traces == self.log.traces,
                self.names() == log_names(*self.log),
                forall|u: int, i: int| 0 <= u < t ==> !#[trigger] triangle_at(self.names()[u], i, first@, second@),
            decreases traces@.len() - t,
        {
            let events = &traces[t].events;
            let mut i: usize = 0;
            while events.len() > 2 && i < events.len() - 2
                invariant
                    t < traces@.len(),
                    *events == traces@[t as int].events,
                    self.names() == log_names(*self.log),
                    *traces == self.log.traces,
                    forall|j: int| 0 <= j < i ==> !#[trigger] triangle_at(self.names()[t as int], j, first@, second@),
                decreases events@.len() - i,
            {
                if events[i].name == *first && events[i + 1].name == *second && events[i + 2].name == *first {
                    assert(triangle_at(self.names()[t as int], i as int, first@, second@));
                    return true;
                }
                i = i + 1;
            }
            t = t + 1;
        }
        false
    }

    pub fn romb_relation(&self, first: &String, second: &String) -> (res: bool)
        ensures
            res == (self.triangle(first@, second@) && self.triangle(second@, first@)),
    {
        self.triangle_relation(first, second) && self.triangle_relation(second, first)
    }
}

impl<'a> AlphaRelationsProvider for AlphaPlusNfcRelationsProvider<'a> {
    open spec fn direct(&self, first: Seq<char>, second: Seq<char>) -> bool {
        self.nfc_direct(first, second)
    }

    open spec fn causal(&self, first: Seq<char>, second: Seq<char>) -> bool {
        self.nfc_causal(first, second)
    }

    open spec fn parallel(&self, first: Seq<char>, second: Seq<char>) -> bool {
        self.nfc_parallel(first, second)
    }

    open spec fn unrelated(&self, first: Seq<char>, second: Seq<char>) -> bool {
        self.nfc_unrelated(first, second)
    }

    open spec fn info(&self) -> EventLogInfo {
        self.spec_info()
    }

    fn direct_relation(&self, first: &String, second: &String) -> (res: bool) {
        contains_pair(&self.info.dfg, first, second)
    }

    fn causal_relation(&self, first: &String, second: &String) -> (res: bool) {
        if contains_pair(&self.additional_causal_relations, first, second) {
            return true;
        }
        self.direct_relation(first, second) && (!self.direct_relation(second, first)
            || self.triangle_relation(first, second) || self.triangle_relation(second, first))
    }

    fn parallel_relation(&self, first: &String, second: &String) -> (res: bool) {
        self.direct_relation(first, second) && self.direct_relation(second, first)
            && !(self.triangle_relation(first, second) || self.triangle_relation(second, first))
    }

    fn unrelated_relation(&self, first: &String, second: &String) -> (res: bool) {
        !self.direct_relation(first, second) && !self.direct_relation(second, first)
    }

    fn log_info(&self) -> (res: &EventLogInfo) {
        proof {
            use_type_invariant(self);
        }
        self.info
    }
}

impl<'a> AlphaPlusNfcRelationsProvider<'a> {
    /// Whether the classes are unrelated and some class causes both.
    pub fn left_triangle_relation(&self, first: &String, second: &String) -> (res: bool)
        ensures
            res == self.left_triangle(first@, second@),
    {
        if !self.unrelated_relation(first, second) {
            return false;
        }
        let classes = &self.info.event_classes;
        let mut k: usize = 0;
        while k < classes.len()
            invariant
                k <= classes@.len(),
                *classes == self.spec_info().event_classes,
                self.nfc_unrelated(first@, second@),
                forall|j: int| 0 <= j < k ==> !(#[trigger] self.nfc_causal(self.classes()[j], first@) && self.nfc_causal(self.classes()[j], second@)),
            decreases classes@.len() - k,
        {
            if self.causal_relation(&classes[k], first) && self.causal_relation(&classes[k], second) {
                assert(self.classes()[k as int] == classes@[k as int]@);
                return true;
            }
            assert(self.classes()[k as int] == classes@[k as int]@);
            k = k + 1;
        }
        false
    }

    /// Whether the classes are unrelated and both cause some class.
    pub fn right_triangle_relation(&self, first: &String, second: &String) -> (res: bool)
        ensures
            res == self.right_triangle(first@, second@),
    {
        if !self.unrelated_relation(first, second) {
            return false;
        }
        let classes = &self.info.event_classes;
        let mut k: usize = 0;
        while k < classes.len()
            invariant
                k <= classes@.len(),
                *classes == self.spec_info().event_classes,
                self.nfc_unrelated(first@, second@),
                forall|j: int| 0 <= j < k ==> !(#[trigger] self.nfc_causal(first@, self.classes()[j]) && self.nfc_causal(second@, self.classes()[j])),
            decreases classes@.len() - k,
        {
            if self.causal_relation(first, &classes[k]) && self.causal_relation(second, &classes[k]) {
                assert(self.classes()[k as int] == classes@[k as int]@);
                return true;
            }
            assert(self.classes()[k as int] == classes@[k as int]@);
            k = k + 1;
        }
        false
    }
}

impl<'a> AlphaPlusNfcRelationsProvider<'a> {
    /// The class is one of the classes of the log information (events of
    /// other names count for nothing between two events).
    pub open spec fn class_known(&self, c: Seq<char>) -> bool {
        string_set(self.spec_info().event_classes@).contains(c)
    }

    /// A known class that stands in a left or right triangle with `a`.
    pub open spec fn unsuitable(&self, c: Seq<char>, a: Seq<char>) -> bool {
        self.class_known(c) && (self.left_triangle(c, a) || self.right_triangle(c, a))
    }

    /// Between positions `f` and `i` (both excluded) stand known classes, and
    /// none of them is unsuitable for `a`.
    pub open spec fn segment_ok(&self, s: Seq<Seq<char>>, f: int, i: int, a: Seq<char>) -> bool {
        &&& forall|j: int| f < j < i ==> !#[trigger] self.unsuitable(s[j], a)
        &&& exists|j: int| f < j < i && #[trigger] self.class_known(s[j])
    }

    /// Reading the trace from position `i`, with `last` the position of the
    /// last `a` not yet matched: some `b` closes a suitable segment after an `a`.
    /// An `a` opens a segment; a `b` after an `a` closes it, and a segment
    /// that is not suitable is dropped.
    pub open spec fn scan(&self, s: Seq<Seq<char>>, a: Seq<char>, b: Seq<char>, i: int, last: Option<int>) -> bool
        decreases s.len() - i,
    {
        if i < 0 || i >= s.len() {
            false
        } else if s[i] == a {
            self.scan(s, a, b, i + 1, Some(i))
        } else if s[i] == b && last is Some {
            self.segment_ok(s, last->0, i, a) || self.scan(s, a, b, i + 1, None)
        } else {
            self.scan(s, a, b, i + 1, last)
        }
    }

    /// `b` never directly follows `a`, and in some trace an `a` is followed,
    /// after a suitable segment, by a `b`.
    pub open spec fn right_double_arrow(&self, a: Seq<char>, b: Seq<char>) -> bool {
        !self.nfc_direct(a, b) && exists|t: int| 0 <= t < self.names().len() && #[trigger] self.scan(self.names()[t], a, b, 0, None)
    }

    /// In trace `s`, an `a` at position `f` is followed by a `b` at position
    /// `k` with neither `a` nor `b` strictly between them; some class of the
    /// log information stands between them, and none of those classes is in
    /// a left or a right triangle with `a`.
    pub open spec fn a_then_b_apart(&self, s: Seq<Seq<char>>, a: Seq<char>, b: Seq<char>, f: int, k: int) -> bool {
        &&& 0 <= f < k < s.len()
        &&& s[f] == a
        &&& s[k] == b
        &&& forall|j: int| f < j < k ==> #[trigger] s[j] != a && s[j] != b
        &&& forall|j: int| f < j < k && string_set(self.spec_info().event_classes@).contains(#[trigger] s[j])
            ==> !self.left_triangle(s[j], a) && !self.right_triangle(s[j], a)
        &&& exists|j: int| f < j < k && string_set(self.spec_info().event_classes@).contains(#[trigger] s[j])
    }

    proof fn lemma_scan_sound(&self, s: Seq<Seq<char>>, a: Seq<char>, b: Seq<char>, i: int, last: Option<int>)
        requires
            0 <= i,
            last matches Some(f) ==> 0 <= f < i && s[f] == a && forall|j: int| f < j < i ==> #[trigger] s[j] != a && s[j] != b,
            self.scan(s, a, b, i, last),
        ensures
            a != b,
            exists|f: int, k: int| #[trigger] self.a_then_b_apart(s, a, b, f, k),
        decreases s.len() - i,
    {
        if i < s.len() {
            if s[i] == a {
                self.lemma_scan_sound(s, a, b, i + 1, Some(i));
            } else if s[i] == b && last is Some {
                let f = last->0;
                if self.segment_ok(s, f, i, a) {
                    assert forall|j: int| f < j < i && string_set(self.spec_info().event_classes@).contains(#[trigger] s[j])
                        implies !self.left_triangle(s[j], a) && !self.right_triangle(s[j], a) by {
                        assert(!self.unsuitable(s[j], a));
                    }
                    assert(self.a_then_b_apart(s, a, b, f, i));
                } else {
                    self.lemma_scan_sound(s, a, b, i + 1, None);
                }
            } else {
                if last is Some {
                    let f = last->0;
                    assert forall|j: int| f < j < i + 1 implies #[trigger] s[j] != a && s[j] != b by {
                        if j < i {
                            assert(s[j] != a && s[j] != b);
                        }
                    }
                }
                self.lemma_scan_sound(s, a, b, i + 1, last);
            }
        }
    }

    proof fn lemma_scan_reaches(&self, s: Seq<Seq<char>>, a: Seq<char>, b: Seq<char>, i: int, f: int, last: Option<int>)
        requires
            0 <= i <= f < s.len(),
            s[f] == a,
            self.scan(s, a, b, f + 1, Some(f)),
        ensures
            self.scan(s, a, b, i, last),
        decreases f - i,
    {
        if i < f {
            if s[i] == a {
                self.lemma_scan_reaches(s, a, b, i + 1, f, Some(i));
            } else if s[i] == b && last is Some {
                self.lemma_scan_reaches(s, a, b, i + 1, f, None);
            } else {
                self.lemma_scan_reaches(s, a, b, i + 1, f, last);
            }
        }
    }

    proof fn lemma_scan_closes(&self, s: Seq<Seq<char>>, a: Seq<char>, b: Seq<char>, f: int, k: int, j: int)
        requires
            a != b,
            self.a_then_b_apart(s, a, b, f, k),
            f < j <= k,
        ensures
            self.scan(s, a, b, j, Some(f)),
        decreases k - j,
    {
        if j == k {
            assert forall|q: int| f < q < k implies !#[trigger] self.unsuitable(s[q], a) by {
                if string_set(self.spec_info().event_classes@).contains(s[q]) {
                    assert(!self.left_triangle(s[q], a) && !self.right_triangle(s[q], a));
                }
            }
            let w = choose|q: int| f < q < k && string_set(self.spec_info().event_classes@).contains(#[trigger] s[q]);
            assert(self.class_known(s[w]));
            assert(self.segment_ok(s, f, k, a));
        } else {
            assert(s[j] != a && s[j] != b);
            self.lemma_scan_closes(s, a, b, f, k, j + 1);
        }
    }

    /// The right double arrow `a => b` holds exactly when `b` never directly
    /// follows `a`, `a` and `b` differ, and some trace has an `a` followed by
    /// a `b`, with neither of them between, with some class of the log
    /// information between them, and with none of those classes in a left or
    /// a right triangle with `a`.
    pub proof fn lemma_right_double_arrow_meaning(&self, a: Seq<char>, b: Seq<char>)
        ensures
            self.right_double_arrow(a, b) <==> (!self.nfc_direct(a, b) && a != b
                && exists|t: int, f: int, k: int| 0 <= t < self.names().len() && #[trigger] self.a_then_b_apart(self.names()[t], a, b, f, k)),
    {
        if self.right_double_arrow(a, b) {
            let t = choose|t: int| 0 <= t < self.names().len() && #[trigger] self.scan(self.names()[t], a, b, 0, None);
            self.lemma_scan_sound(self.names()[t], a, b, 0, None);
            let (f, k) = choose|f: int, k: int| #[trigger] self.a_then_b_apart(self.names()[t], a, b, f, k);
            assert(self.a_then_b_apart(self.names()[t], a, b, f, k));
        }
        if !self.nfc_direct(a, b) && a != b
            && exists|t: int, f: int, k: int| 0 <= t < self.names().len() && #[trigger] self.a_then_b_apart(self.names()[t], a, b, f, k) {
            let (t, f, k) = choose|t: int, f: int, k: int| 0 <= t < self.names().len() && #[trigger] self.a_then_b_apart(self.names()[t], a, b, f, k);
            let s = self.names()[t];
            self.lemma_scan_closes(s, a, b, f, k, f + 1);
            self.lemma_scan_reaches(s, a, b, 0, f, None);
            assert(self.scan(self.names()[t], a, b, 0, None));
        }
    }

    /// Whether every known class between positions `from` and `to` of the
    /// trace is suitable for `first`, and at least one stands there.
    fn suitable_segment(&self, t: usize, from: usize, to: usize, first: &String) -> (res: bool)
        requires
            t < self.names().len(),
            from < to <= self.names()[t as int].len(),
        ensures
            res == self.segment_ok(self.names()[t as int], from as int, to as int, first@),
    {
        let ghost s = self.names()[t as int];
        let events = &self.log.traces[t].events;
        let mut ok = true;
        let mut found = false;
        let mut j: usize = from + 1;
        while j < to && ok
            invariant
                from < j <= to,
                to <= s.len(),
                s == self.names()[t as int],
                self.names() == log_names(*self.log),
                t < self.log.traces@.len(),
                *events == self.log.traces@[t as int].events,
                ok == forall|q: int| from < q < j ==> !#[trigger] self.unsuitable(s[q], first@),
                found == exists|q: int| from < q < j && #[trigger] self.class_known(s[q]),
            decreases to - j,
        {
            let name = &events[j].name;
            proof {
                assert(name@ == s[j as int]);
            }
            if contains_string(&self.info.event_classes, name) {
                found = true;
                if self.left_triangle_relation(name, first) || self.right_triangle_relation(name, first) {
                    ok = false;
                    assert(self.unsuitable(s[j as int], first@));
                }
            }
            j = j + 1;
        }
        ok && found
    }

    /// Whether `second` never directly follows `first` and in some trace a
    /// `first` is followed, after a suitable segment, by a `second`.
    pub fn right_double_arrow_relation(&self, first: &String, second: &String) -> (res: bool)
        ensures
            res == self.right_double_arrow(first@, second@),
            res == (!self.nfc_direct(first@, second@) && first@ != second@
                && exists|t: int, f: int, k: int| 0 <= t < self.names().len()
                    && #[trigger] self.a_then_b_apart(self.names()[t], first@, second@, f, k)),
    {
        proof {
            self.lemma_right_double_arrow_meaning(first@, second@);
        }
        if self.direct_relation(first, second) {
            return false;
        }
        let traces = &self.log.traces;
        let mut t: usize = 0;
        while t < traces.len()
            invariant
                t <= traces@.len(),
                *traces == self.log.traces,
                self.names() == log_names(*self.log),
                !self.nfc_direct(first@, second@),
                forall|u: int| 0 <= u < t ==> !#[trigger] self.scan(self.names()[u], first@, second@, 0, None),
            decreases traces@.len() - t,
        {
            let ghost s = self.names()[t as int];
            let events = &traces[t].events;
            let mut last: Option<usize> = None;
            let mut i: usize = 0;
            while i < events.len()
                invariant
                    t < traces@.len(),
                    *traces == self.log.traces,
                    *events == traces@[t as int].events,
                    self.names() == log_names(*self.log),
                    s == self.names()[t as int],
                    i <= s.len(),
                    !self.nfc_direct(first@, second@),
                    match last {
                        Some(f) => f < i,
                        None => true,
                    },
                    self.scan(s, first@, second@, 0, None) == self.scan(s, first@, second@, i as int,
                        match last { Some(f) => Some(f as int), None => None }),
                decreases s.len() - i,
            {
                let name = &events[i].name;
                proof {
                    assert(name@ == s[i as int]);
                }
                if *name == *first {
                    last = Some(i);
                } else if *name == *second {
                    match last {
                        Some(f) => {
                            if self.suitable_segment(t, f, i, first) {
                                assert(self.scan(s, first@, second@, i as int, Some(f as int)));
                                proof {
                                    self.lemma_right_double_arrow_meaning(first@, second@);
                                }
                                return true;
                            }
                            last = None;
                        },
                        None => {},
                    }
                }
                i = i + 1;
            }
            t = t + 1;
        }
        false
    }

    /// Whether `first` causes `second` or `second` stands in the right double
    /// arrow relation to `first`.
    pub fn concave_arrow_relation(&self, first: &String, second: &String) -> (res: bool)
        ensures
            res == (self.nfc_causal(first@, second@) || self.right_double_arrow(first@, second@)),
    {
        self.causal_relation(first, second) || self.right_double_arrow_relation(first, second)
    }
}

/// The transitions with an arc to the place, in the net's order.
pub open spec fn preset(net: PetriNet, place_id: u64) -> Seq<Transition> {
    net.transitions@.filter(|t: Transition| sends_to_place(t, place_id))
}

/// The transitions with an arc from the place, in the net's order.
pub open spec fn postset(net: PetriNet, place_id: u64) -> Seq<Transition> {
    net.transitions@.filter(|t: Transition| takes_from_place(t, place_id))
}

/// Some transition of the sequence has the name.
pub open spec fn names_hold(ts: Seq<Transition>, name: Seq<char>) -> bool {
    exists|k: int| 0 <= k < ts.len() && (#[trigger] ts[k]).name@ == name
}

/// `i` is the first transition of the net with the name.
pub open spec fn first_named(net: PetriNet, name: Seq<char>, i: int) -> bool {
    &&& 0 <= i < net.transitions@.len()
    &&& net.transitions@[i].name@ == name
    &&& forall|j: int| 0 <= j < i ==> net.transitions@[j].name@ != name
}

/// Whether some transition among the references has the name.
fn names_contain(ts: &Vec<&Transition>, name: &String) -> (res: bool)
    ensures
        res == names_hold(ts@.map_values(|t: &Transition| *t), name@),
{
    let ghost v = ts@.map_values(|t: &Transition| *t);
    let mut k: usize = 0;
    while k < ts.len()
        invariant
            k <= ts@.len(),
            v == ts@.map_values(|t: &Transition| *t),
            forall|j: int| 0 <= j < k ==> (#[trigger] v[j]).name@ != name@,
        decreases ts@.len() - k,
    {
        if ts[k].name == *name {
            assert(v[k as int].name@ == name@);
            return true;
        }
        assert(v[k as int] == *ts@[k as int]);
        k = k + 1;
    }
    false
}

impl<'a> AlphaPlusNfcRelationsProvider<'a> {
    /// `a` concave-arrows to `b`: it causes `b` or stands in the right double
    /// arrow relation to it.
    pub open spec fn concave(&self, a: Seq<char>, b: Seq<char>) -> bool {
        self.nfc_causal(a, b) || self.right_double_arrow(a, b)
    }

    /// The places `x` and `y` witness the W1 relation of `a` and `b`: they
    /// differ, `a` feeds `x` but not `y`, `b` takes from `y`, and no
    /// transition that feeds `y` concave-arrows to `a` or runs in parallel with it.
    pub open spec fn w1_places(&self, net: PetriNet, a: Seq<char>, b: Seq<char>, x: u64, y: u64) -> bool {
        &&& x != y
        &&& names_hold(preset(net, x), a)
        &&& !names_hold(preset(net, y), a)
        &&& names_hold(postset(net, y), b)
        &&& forall|k: int| 0 <= k < preset(net, y).len()
            ==> !(self.concave((#[trigger] preset(net, y)[k]).name@, a) || self.nfc_parallel(preset(net, y)[k].name@, a))
    }

    /// The W1 relation: `b` never directly follows `a`, and two incoming
    /// places of the first transition named after some class witness it.
    pub open spec fn w1(&self, net: PetriNet, a: Seq<char>, b: Seq<char>) -> bool {
        &&& !self.nfc_direct(a, b)
        &&& exists|k: int, i: int, p: int, q: int| #![trigger self.classes()[k], net.transitions@[i].incoming_arcs@[p], net.transitions@[i].incoming_arcs@[q]]
            0 <= k < self.classes().len() && first_named(net, self.classes()[k], i)
            && 0 <= p < net.transitions@[i].incoming_arcs@.len() && 0 <= q < net.transitions@[i].incoming_arcs@.len()
            && self.w1_places(net, a, b, net.transitions@[i].incoming_arcs@[p].place_id, net.transitions@[i].incoming_arcs@[q].place_id)
    }

    /// Whether no transition among the references concave-arrows to `first`
    /// or runs in parallel with it.
    fn none_concave_or_parallel(&self, ts: &Vec<&Transition>, first: &String) -> (res: bool)
        ensures
            res == forall|k: int| 0 <= k < ts@.len()
                ==> !(self.concave((#[trigger] ts@[k]).name@, first@) || self.nfc_parallel(ts@[k].name@, first@)),
    {
        let mut k: usize = 0;
        while k < ts.len()
            invariant
                k <= ts@.len(),
                forall|j: int| 0 <= j < k
                    ==> !(self.concave((#[trigger] ts@[j]).name@, first@) || self.nfc_parallel(ts@[j].name@, first@)),
            decreases ts@.len() - k,
        {
            let name = &ts[k].name;
            if self.concave_arrow_relation(name, first) || self.parallel_relation(name, first) {
                return false;
            }
            k = k + 1;
        }
        true
    }

    /// Whether the places `x` and `y` witness the W1 relation.
    fn w1_pair(&self, first: &String, second: &String, net: &PetriNet, x: u64, y: u64) -> (res: bool)
        ensures
            res == self.w1_places(*net, first@, second@, x, y),
    {
        if x == y {
            return false;
        }
        let x_preset = net.get_incoming_transitions(x);
        let y_preset = net.get_incoming_transitions(y);
        if !names_contain(&x_preset, first) {
            return false;
        }
        if names_contain(&y_preset, first) {
            return false;
        }
        let y_postset = net.get_outgoing_transitions(y);
        if !names_contain(&y_postset, second) {
            return false;
        }
        let res = self.none_concave_or_parallel(&y_preset, first);
        proof {
            let v = y_preset@.map_values(|t: &Transition| *t);
            assert(v == preset(*net, y));
            assert(v.len() == y_preset@.len());
            if res {
                assert forall|k: int| 0 <= k < preset(*net, y).len()
                    implies !(self.concave((#[trigger] preset(*net, y)[k]).name@, first@) || self.nfc_parallel(preset(*net, y)[k].name@, first@)) by {
                    assert(preset(*net, y)[k] == *y_preset@[k]);
                }
            } else {
                let k = choose|k: int| 0 <= k < y_preset@.len()
                    && (self.concave((#[trigger] y_preset@[k]).name@, first@) || self.nfc_parallel(y_preset@[k].name@, first@));
                assert(preset(*net, y)[k] == *y_preset@[k]);
            }
        }
        res
    }
}

impl<'a> AlphaPlusNfcRelationsProvider<'a> {
    /// Whether `first` and `second` stand in the W1 relation in the net.
    pub fn calculate_w1_relation(&self, first: &String, second: &String, net: &PetriNet) -> (res: bool)
        ensures
            res == self.w1(*net, first@, second@),
    {
        if self.direct_relation(first, second) {
            return false;
        }
        let classes = &self.info.event_classes;
        let mut k: usize = 0;
        while k < classes.len()
            invariant
                k <= classes@.len(),
                *classes == self.spec_info().event_classes,
                !self.nfc_direct(first@, second@),
                forall|k2: int, i: int, p: int, q: int| #![trigger self.classes()[k2], net.transitions@[i].incoming_arcs@[p], net.transitions@[i].incoming_arcs@[q]]
                    0 <= k2 < k && first_named(*net, self.classes()[k2], i)
                    && 0 <= p < net.transitions@[i].incoming_arcs@.len() && 0 <= q < net.transitions@[i].incoming_arcs@.len()
                    ==> !self.w1_places(*net, first@, second@, net.transitions@[i].incoming_arcs@[p].place_id, net.transitions@[i].incoming_arcs@[q].place_id),
            decreases classes@.len() - k,
        {
            let ghost c = self.classes()[k as int];
            proof {
                assert(c == classes@[k as int]@);
            }
            match net.find_transition_by_name(&classes[k]) {
                Some(transition) => {
                    let ghost i0 = choose|i: int| 0 <= i < net.transitions@.len() && net.transitions@[i] == *transition
                        && transition.name@ == classes@[k as int]@
                        && forall|j: int| 0 <= j < i ==> net.transitions@[j].name@ != classes@[k as int]@;
                    proof {
                        assert(first_named(*net, c, i0));
                        assert forall|i: int| first_named(*net, c, i) implies i == i0 by {
                            if i < i0 {
                                assert(net.transitions@[i].name@ != c);
                            }
                            if i0 < i {
                                assert(net.transitions@[i0].name@ != c);
                            }
                        }
                    }
                    let arcs = &transition.incoming_arcs;
                    let mut p: usize = 0;
                    while p < arcs.len()
                        invariant
                            p <= arcs@.len(),
                            k < classes@.len(),
                            *classes == self.spec_info().event_classes,
                            !self.nfc_direct(first@, second@),
                            first_named(*net, self.classes()[k as int], i0),
                            *arcs == net.transitions@[i0].incoming_arcs,
                            forall|p2: int, q: int| 0 <= p2 < p && 0 <= q < arcs@.len()
                                ==> !self.w1_places(*net, first@, second@, #[trigger] arcs@[p2].place_id, #[trigger] arcs@[q].place_id),
                        decreases arcs@.len() - p,
                    {
                        let mut q: usize = 0;
                        while q < arcs.len()
                            invariant
                                p < arcs@.len(),
                                q <= arcs@.len(),
                                k < classes@.len(),
                                *classes == self.spec_info().event_classes,
                                !self.nfc_direct(first@, second@),
                                first_named(*net, self.classes()[k as int], i0),
                                *arcs == net.transitions@[i0].incoming_arcs,
                                forall|p2: int, q2: int| 0 <= p2 < p && 0 <= q2 < arcs@.len()
                                    ==> !self.w1_places(*net, first@, second@, #[trigger] arcs@[p2].place_id, #[trigger] arcs@[q2].place_id),
                                forall|q2: int| 0 <= q2 < q
                                    ==> !self.w1_places(*net, first@, second@, arcs@[p as int].place_id, #[trigger] arcs@[q2].place_id),
                            decreases arcs@.len() - q,
                        {
                            if self.w1_pair(first, second, net, arcs[p].place_id, arcs[q].place_id) {
                                proof {
                                    assert(first_named(*net, self.classes()[k as int], i0));
                                    assert(net.transitions@[i0].incoming_arcs@[p as int] == arcs@[p as int]);
                                    assert(net.transitions@[i0].incoming_arcs@[q as int] == arcs@[q as int]);
                                }
                                return true;
                            }
                            q = q + 1;
                        }
                        p = p + 1;
                    }
                    proof {
                        assert forall|k2: int, i: int, p2: int, q2: int| #![trigger self.classes()[k2], net.transitions@[i].incoming_arcs@[p2], net.transitions@[i].incoming_arcs@[q2]]
                            0 <= k2 < k + 1 && first_named(*net, self.classes()[k2], i)
                            && 0 <= p2 < net.transitions@[i].incoming_arcs@.len() && 0 <= q2 < net.transitions@[i].incoming_arcs@.len()
                            implies !self.w1_places(*net, first@, second@, net.transitions@[i].incoming_arcs@[p2].place_id, net.transitions@[i].incoming_arcs@[q2].place_id) by {
                            if k2 == k {
                                assert(i == i0);
                                assert(arcs@[p2] == net.transitions@[i].incoming_arcs@[p2]);
                                assert(arcs@[q2] == net.transitions@[i].incoming_arcs@[q2]);
                            }
                        }
                    }
                },
                None => {
                    proof {
                        assert forall|k2: int, i: int, p2: int, q2: int| #![trigger self.classes()[k2], net.transitions@[i].incoming_arcs@[p2], net.transitions@[i].incoming_arcs@[q2]]
                            0 <= k2 < k + 1 && first_named(*net, self.classes()[k2], i)
                            && 0 <= p2 < net.transitions@[i].incoming_arcs@.len() && 0 <= q2 < net.transitions@[i].incoming_arcs@.len()
                            implies !self.w1_places(*net, first@, second@, net.transitions@[i].incoming_arcs@[p2].place_id, net.transitions@[i].incoming_arcs@[q2].place_id) by {
                            if k2 == k {
                                assert(net.transitions@[i].name@ != c);
                            }
                        }
                    }
                },
            }
            k = k + 1;
        }
        false
    }

    /// The W1 relation of `first` and `second` in the net.
    pub fn w1_relation(&self, first: &String, second: &String, net: &PetriNet) -> (res: bool)
        ensures
            res == self.w1(*net, first@, second@),
    {
        self.calculate_w1_relation(first, second, net)
    }
}

/// The net has a transition with the name.
pub open spec fn has_named(net: PetriNet, name: Seq<char>) -> bool {
    exists|i: int| first_named(net, name, i)
}

/// The places at the ends of the incoming (or outgoing) arcs of the first
/// transition with the name.
pub open spec fn arc_places(net: PetriNet, name: Seq<char>, incoming: bool) -> Set<u64> {
    Set::new(|id: u64| exists|i: int, p: int| first_named(net, name, i) && 0 <= p < side_arcs(net.transitions@[i], incoming).len()
        && #[trigger] side_arcs(net.transitions@[i], incoming)[p].place_id == id)
}

/// The incoming arcs of the transition when `incoming`, the outgoing ones otherwise.
pub open spec fn side_arcs(t: Transition, incoming: bool) -> Seq<Arc> {
    if incoming { t.incoming_arcs@ } else { t.outgoing_arcs@ }
}

/// The sets share an element.
pub open spec fn meet(a: Set<u64>, b: Set<u64>) -> bool {
    exists|x: u64| a.contains(x) && b.contains(x)
}

/// The place ids of the incoming (or outgoing) arcs of the first transition
/// with the name.
fn place_ids(net: &PetriNet, name: &String, incoming: bool) -> (res: Vec<u64>)
    requires
        has_named(*net, name@),
    ensures
        res@.to_set() == arc_places(*net, name@, incoming),
{
    match net.find_transition_by_name(name) {
        Some(transition) => {
            let ghost i0 = choose|i: int| 0 <= i < net.transitions@.len() && net.transitions@[i] == *transition
                && transition.name@ == name@
                && forall|j: int| 0 <= j < i ==> net.transitions@[j].name@ != name@;
            proof {
                assert(first_named(*net, name@, i0));
                assert forall|i: int| first_named(*net, name@, i) implies i == i0 by {
                    if i < i0 {
                        assert(net.transitions@[i].name@ != name@);
                    }
                    if i0 < i {
                        assert(net.transitions@[i0].name@ != name@);
                    }
                }
            }
            let arcs = if incoming { &transition.incoming_arcs } else { &transition.outgoing_arcs };
            let mut res: Vec<u64> = Vec::new();
            let mut p: usize = 0;
            while p < arcs.len()
                invariant
                    p <= arcs@.len(),
                    res@.len() == p,
                    forall|q: int| 0 <= q < p ==> #[trigger] res@[q] == arcs@[q].place_id,
                decreases arcs@.len() - p,
            {
                res.push(arcs[p].place_id);
                p = p + 1;
            }
            proof {
                assert(arcs@ == side_arcs(net.transitions@[i0], incoming));
                assert forall|id: u64| res@.to_set().contains(id) == arc_places(*net, name@, incoming).contains(id) by {
                    if res@.to_set().contains(id) {
                        let q = choose|q: int| 0 <= q < res@.len() && res@[q] == id;
                        assert(res@[q] == arcs@[q].place_id);
                        assert(side_arcs(net.transitions@[i0], incoming)[q].place_id == id);
                    }
                    if arc_places(*net, name@, incoming).contains(id) {
                        let (i, q) = choose|i: int, q: int| first_named(*net, name@, i) && 0 <= q < side_arcs(net.transitions@[i], incoming).len()
                            && side_arcs(net.transitions@[i], incoming)[q].place_id == id;
                        assert(i == i0);
                        assert(res@[q] == id);
                    }
                }
                assert(res@.to_set() =~= arc_places(*net, name@, incoming));
            }
            res
        },
        None => {
            proof {
                let i = choose|i: int| first_named(*net, name@, i);
                assert(net.transitions@[i].name@ != name@);
            }
            Vec::new()
        },
    }
}

/// Whether the two lists share an element.
fn share(a: &Vec<u64>, b: &Vec<u64>) -> (res: bool)
    ensures
        res == meet(a@.to_set(), b@.to_set()),
{
    let mut i: usize = 0;
    while i < a.len()
        invariant
            i <= a@.len(),
            forall|x: int, y: int| 0 <= x < i && 0 <= y < b@.len() ==> a@[x] != b@[y],
        decreases a@.len() - i,
    {
        let mut j: usize = 0;
        while j < b.len()
            invariant
                i < a@.len(),
                j <= b@.len(),
                forall|x: int, y: int| 0 <= x < i && 0 <= y < b@.len() ==> a@[x] != b@[y],
                forall|y: int| 0 <= y < j ==> a@[i as int] != b@[y],
            decreases b@.len() - j,
        {
            if a[i] == b[j] {
                assert(a@.to_set().contains(a@[i as int]) && b@.to_set().contains(b@[j as int]));
                return true;
            }
            j = j + 1;
        }
        i = i + 1;
    }
    proof {
        if meet(a@.to_set(), b@.to_set()) {
            let x = choose|x: u64| a@.to_set().contains(x) && b@.to_set().contains(x);
            let p = choose|p: int| 0 <= p < a@.len() && a@[p] == x;
            let q = choose|q: int| 0 <= q < b@.len() && b@[q] == x;
            assert(a@[p] != b@[q]);
        }
    }
    false
}

/// Whether every element of `a` is in `b`.
fn all_in(a: &Vec<u64>, b: &Vec<u64>) -> (res: bool)
    ensures
        res == a@.to_set().subset_of(b@.to_set()),
{
    let mut i: usize = 0;
    while i < a.len()
        invariant
            i <= a@.len(),
            forall|x: int| 0 <= x < i ==> b@.contains(#[trigger] a@[x]),
        decreases a@.len() - i,
    {
        let mut found = false;
        let mut j: usize = 0;
        while j < b.len()
            invariant
                i < a@.len(),
                j <= b@.len(),
                found == exists|y: int| 0 <= y < j && b@[y] == a@[i as int],
            decreases b@.len() - j,
        {
            if b[j] == a[i] {
                found = true;
            }
            j = j + 1;
        }
        if !found {
            assert(a@.to_set().contains(a@[i as int]));
            return false;
        }
        i = i + 1;
    }
    true
}

impl<'a> AlphaPlusNfcRelationsProvider<'a> {
    /// The W3 computation looks the task's transition up when these hold.
    pub open spec fn task_cond(&self, a: Seq<char>, fs: Seq<char>, ss: Seq<char>, task: Seq<char>) -> bool {
        &&& !self.right_double_arrow(a, task)
        &&& self.right_double_arrow(fs, task)
        &&& (self.nfc_parallel(ss, task) || self.concave(ss, task))
    }

    /// Every class that is looked up as a task of the pair has a transition.
    pub open spec fn tasks_named(&self, net: PetriNet, a: Seq<char>, fs: Seq<char>, ss: Seq<char>) -> bool {
        forall|k: int| 0 <= k < self.classes().len() && #[trigger] self.task_cond(a, fs, ss, self.classes()[k])
            ==> has_named(net, self.classes()[k])
    }

    /// The checks of the pair before its right set is built.
    pub open spec fn pair_checks(&self, net: PetriNet, a: Seq<char>, b: Seq<char>, fs: Seq<char>, ss: Seq<char>) -> bool {
        &&& meet(arc_places(net, a, false), arc_places(net, fs, false))
        &&& meet(arc_places(net, b, true), arc_places(net, ss, true))
        &&& !self.right_double_arrow(a, ss)
        &&& !self.right_double_arrow(fs, b)
        &&& self.right_double_arrow(fs, ss)
    }

    /// Every transition that the W3 computation looks up for the pair exists.
    pub open spec fn pair_lookups_defined(&self, net: PetriNet, a: Seq<char>, b: Seq<char>, fs: Seq<char>, ss: Seq<char>) -> bool {
        fs == ss || (has_named(net, fs) && has_named(net, ss)
            && (self.pair_checks(net, a, b, fs, ss) ==> self.tasks_named(net, a, fs, ss)))
    }

    /// Every transition that is looked up while the W3 relation is computed
    /// exists: those of `a` and `b` once they stand in the right
    /// double arrow relation, and those of each pair of classes it reaches
    /// before it finds a witness.
    pub open spec fn w3_defined(&self, net: PetriNet, a: Seq<char>, b: Seq<char>) -> bool {
        self.right_double_arrow(a, b) ==> {
            &&& has_named(net, a)
            &&& has_named(net, b)
            &&& forall|x: int, y: int| 0 <= x < self.classes().len() && 0 <= y < self.classes().len()
                && (forall|x2: int, y2: int| 0 <= x2 < self.classes().len() && 0 <= y2 < self.classes().len()
                    && (x2 < x || (x2 == x && y2 < y)) ==> !#[trigger] self.w3_pair(net, a, b, self.classes()[x2], self.classes()[y2]))
                ==> #[trigger] self.pair_lookups_defined(net, a, b, self.classes()[x], self.classes()[y])
        }
    }

    /// The task adds its incoming places to the right set of the pair
    /// (`fs`, `ss`) for the W3 relation of `a` and `b`.
    pub open spec fn w3_task(&self, net: PetriNet, a: Seq<char>, b: Seq<char>, fs: Seq<char>, ss: Seq<char>, task: Seq<char>) -> bool {
        &&& self.task_cond(a, fs, ss, task)
        &&& meet(arc_places(net, b, true), arc_places(net, task, true))
    }

    /// The incoming places of `ss`, with those of the first `n` classes that
    /// are tasks of the pair.
    pub open spec fn right_prefix(&self, net: PetriNet, a: Seq<char>, b: Seq<char>, fs: Seq<char>, ss: Seq<char>, n: int) -> Set<u64> {
        Set::new(|id: u64| arc_places(net, ss, true).contains(id) || exists|k: int| 0 <= k < n
            && #[trigger] self.w3_task(net, a, b, fs, ss, self.classes()[k]) && arc_places(net, self.classes()[k], true).contains(id))
    }

    /// The pair (`fs`, `ss`) of distinct classes witnesses the W3 relation of `a` and `b`.
    pub open spec fn w3_pair(&self, net: PetriNet, a: Seq<char>, b: Seq<char>, fs: Seq<char>, ss: Seq<char>) -> bool {
        &&& fs != ss
        &&& self.pair_checks(net, a, b, fs, ss)
        &&& arc_places(net, b, true).subset_of(self.right_prefix(net, a, b, fs, ss, self.classes().len() as int))
    }

    /// The W3 relation: `a` and `b` stand in the right double arrow relation,
    /// and some pair of classes witnesses it.
    pub open spec fn w3(&self, net: PetriNet, a: Seq<char>, b: Seq<char>) -> bool {
        &&& self.right_double_arrow(a, b)
        &&& exists|x: int, y: int| 0 <= x < self.classes().len() && 0 <= y < self.classes().len()
            && #[trigger] self.w3_pair(net, a, b, self.classes()[x], self.classes()[y])
    }

    /// The right set of the pair: the incoming places of `ss` and of its tasks.
    fn right_places(&self, net: &PetriNet, first: &String, second: &String, second_pre: &Vec<u64>,
        fs: &String, ss: &String, ss_pre: &Vec<u64>) -> (res: Vec<u64>)
        requires
            self.tasks_named(*net, first@, fs@, ss@),
            second_pre@.to_set() == arc_places(*net, second@, true),
            ss_pre@.to_set() == arc_places(*net, ss@, true),
        ensures
            res@.to_set() == self.right_prefix(*net, first@, second@, fs@, ss@, self.classes().len() as int),
    {
        let mut res: Vec<u64> = Vec::new();
        let mut i: usize = 0;
        while i < ss_pre.len()
            invariant
                i <= ss_pre@.len(),
                res@ == ss_pre@.take(i as int),
            decreases ss_pre@.len() - i,
        {
            res.push(ss_pre[i]);
            proof {
                assert(ss_pre@.take(i + 1) =~= ss_pre@.take(i as int).push(ss_pre@[i as int]));
            }
            i = i + 1;
        }
        proof {
            assert(ss_pre@.take(i as int) =~= ss_pre@);
            assert(res@.to_set() =~= self.right_prefix(*net, first@, second@, fs@, ss@, 0));
        }
        let classes = &self.info.event_classes;
        let mut k: usize = 0;
        while k < classes.len()
            invariant
                k <= classes@.len(),
                *classes == self.spec_info().event_classes,
                self.tasks_named(*net, first@, fs@, ss@),
                second_pre@.to_set() == arc_places(*net, second@, true),
                res@.to_set() == self.right_prefix(*net, first@, second@, fs@, ss@, k as int),
            decreases classes@.len() - k,
        {
            let task = &classes[k];
            let ghost c = self.classes()[k as int];
            proof {
                assert(c == task@);
            }
            let ghost before = res@;
            if !self.right_double_arrow_relation(first, task) && self.right_double_arrow_relation(fs, task)
                && (self.parallel_relation(ss, task) || self.concave_arrow_relation(ss, task)) {
                proof {
                    assert(self.task_cond(first@, fs@, ss@, c));
                    assert(has_named(*net, c));
                }
                let task_pre = place_ids(net, task, true);
                if share(second_pre, &task_pre) {
                    let mut j: usize = 0;
                    while j < task_pre.len()
                        invariant
                            j <= task_pre@.len(),
                            res@ == before + task_pre@.take(j as int),
                        decreases task_pre@.len() - j,
                    {
                        res.push(task_pre[j]);
                        proof {
                            assert(task_pre@.take(j + 1) =~= task_pre@.take(j as int).push(task_pre@[j as int]));
                            assert(res@ =~= before + task_pre@.take(j + 1));
                        }
                        j = j + 1;
                    }
                    proof {
                        assert(task_pre@.take(j as int) =~= task_pre@);
                        assert(self.w3_task(*net, first@, second@, fs@, ss@, c));
                        assert forall|id: u64| res@.to_set().contains(id)
                            == self.right_prefix(*net, first@, second@, fs@, ss@, k + 1).contains(id) by {
                            if res@.to_set().contains(id) {
                                let q = choose|q: int| 0 <= q < res@.len() && res@[q] == id;
                                if q < before.len() {
                                    assert(before.to_set().contains(id));
                                    if !arc_places(*net, ss@, true).contains(id) {
                                        let k2 = choose|k2: int| 0 <= k2 < k
                                            && #[trigger] self.w3_task(*net, first@, second@, fs@, ss@, self.classes()[k2])
                                            && arc_places(*net, self.classes()[k2], true).contains(id);
                                    }
                                } else {
                                    assert(task_pre@.to_set().contains(task_pre@[q - before.len()]));
                                }
                            }
                            if self.right_prefix(*net, first@, second@, fs@, ss@, k + 1).contains(id) {
                                if arc_places(*net, ss@, true).contains(id) {
                                    assert(before.to_set().contains(id));
                                    let q = choose|q: int| 0 <= q < before.len() && before[q] == id;
                                    assert(res@[q] == id);
                                } else {
                                    let k2 = choose|k2: int| 0 <= k2 < k + 1
                                        && #[trigger] self.w3_task(*net, first@, second@, fs@, ss@, self.classes()[k2])
                                        && arc_places(*net, self.classes()[k2], true).contains(id);
                                    if k2 < k {
                                        assert(self.right_prefix(*net, first@, second@, fs@, ss@, k as int).contains(id));
                                        assert(before.to_set().contains(id));
                                        let q = choose|q: int| 0 <= q < before.len() && before[q] == id;
                                        assert(res@[q] == id);
                                    } else {
                                        assert(task_pre@.to_set().contains(id));
                                        let q = choose|q: int| 0 <= q < task_pre@.len() && task_pre@[q] == id;
                                        assert(res@[before.len() + q] == id);
                                    }
                                }
                            }
                        }
                        assert(res@.to_set() =~= self.right_prefix(*net, first@, second@, fs@, ss@, k + 1));
                    }
                } else {
                    proof {
                        lemma_prefix_unchanged(self, *net, first@, second@, fs@, ss@, k as int);
                    }
                }
            } else {
                proof {
                    lemma_prefix_unchanged(self, *net, first@, second@, fs@, ss@, k as int);
                }
            }
            k = k + 1;
        }
        res
    }
}

proof fn lemma_prefix_unchanged<'a>(p: &AlphaPlusNfcRelationsProvider<'a>, net: PetriNet, a: Seq<char>, b: Seq<char>, fs: Seq<char>, ss: Seq<char>, k: int)
    requires
        0 <= k < p.classes().len(),
        !p.w3_task(net, a, b, fs, ss, p.classes()[k]),
    ensures
        p.right_prefix(net, a, b, fs, ss, k + 1) == p.right_prefix(net, a, b, fs, ss, k),
{
    assert forall|id: u64| p.right_prefix(net, a, b, fs, ss, k + 1).contains(id) implies p.right_prefix(net, a, b, fs, ss, k).contains(id) by {
        if !arc_places(net, ss, true).contains(id) {
            let k2 = choose|k2: int| 0 <= k2 < k + 1
                && #[trigger] p.w3_task(net, a, b, fs, ss, p.classes()[k2]) && arc_places(net, p.classes()[k2], true).contains(id);
            assert(k2 < k);
        }
    }
    assert(p.right_prefix(net, a, b, fs, ss, k + 1) =~= p.right_prefix(net, a, b, fs, ss, k));
}

impl<'a> AlphaPlusNfcRelationsProvider<'a> {
    /// Whether the pair (`fs`, `ss`) witnesses the W3 relation.
    fn w3_pair_holds(&self, net: &PetriNet, first: &String, second: &String, first_post: &Vec<u64>,
        second_pre: &Vec<u64>, fs: &String, ss: &String) -> (res: bool)
        requires
            self.pair_lookups_defined(*net, first@, second@, fs@, ss@),
            first_post@.to_set() == arc_places(*net, first@, false),
            second_pre@.to_set() == arc_places(*net, second@, true),
        ensures
            res == self.w3_pair(*net, first@, second@, fs@, ss@),
    {
        if *fs == *ss {
            return false;
        }
        let fs_post = place_ids(net, fs, false);
        let ss_pre = place_ids(net, ss, true);
        if !share(first_post, &fs_post) {
            return false;
        }
        if !share(second_pre, &ss_pre) {
            return false;
        }
        if self.right_double_arrow_relation(first, ss) {
            return false;
        }
        if self.right_double_arrow_relation(fs, second) {
            return false;
        }
        if !self.right_double_arrow_relation(fs, ss) {
            return false;
        }
        let right = self.right_places(net, first, second, second_pre, fs, ss, &ss_pre);
        all_in(second_pre, &right)
    }

    /// Whether `first` and `second` stand in the W3 relation in the net. The
    /// transitions it looks up must exist (see `w3_defined`).
    pub fn calculate_w3_relation(&self, first: &String, second: &String, net: &PetriNet) -> (res: bool)
        requires
            self.w3_defined(*net, first@, second@),
        ensures
            res == self.w3(*net, first@, second@),
    {
        if !self.right_double_arrow_relation(first, second) {
            return false;
        }
        let classes = &self.info.event_classes;
        let first_post = place_ids(net, first, false);
        let second_pre = place_ids(net, second, true);
        let mut x: usize = 0;
        while x < classes.len()
            invariant
                x <= classes@.len(),
                *classes == self.spec_info().event_classes,
                self.w3_defined(*net, first@, second@),
                self.right_double_arrow(first@, second@),
                first_post@.to_set() == arc_places(*net, first@, false),
                second_pre@.to_set() == arc_places(*net, second@, true),
                forall|x2: int, y: int| 0 <= x2 < x && 0 <= y < self.classes().len()
                    ==> !#[trigger] self.w3_pair(*net, first@, second@, self.classes()[x2], self.classes()[y]),
            decreases classes@.len() - x,
        {
            let mut y: usize = 0;
            while y < classes.len()
                invariant
                    x < classes@.len(),
                    y <= classes@.len(),
                    *classes == self.spec_info().event_classes,
                    self.w3_defined(*net, first@, second@),
                    self.right_double_arrow(first@, second@),
                    first_post@.to_set() == arc_places(*net, first@, false),
                    second_pre@.to_set() == arc_places(*net, second@, true),
                    forall|x2: int, y2: int| 0 <= x2 < x && 0 <= y2 < self.classes().len()
                        ==> !#[trigger] self.w3_pair(*net, first@, second@, self.classes()[x2], self.classes()[y2]),
                    forall|y2: int| 0 <= y2 < y
                        ==> !#[trigger] self.w3_pair(*net, first@, second@, self.classes()[x as int], self.classes()[y2]),
                decreases classes@.len() - y,
            {
                proof {
                    assert(self.classes()[x as int] == classes@[x as int]@);
                    assert(self.classes()[y as int] == classes@[y as int]@);
                    assert forall|x2: int, y2: int| 0 <= x2 < self.classes().len() && 0 <= y2 < self.classes().len()
                        && (x2 < x || (x2 == x && y2 < y))
                        implies !#[trigger] self.w3_pair(*net, first@, second@, self.classes()[x2], self.classes()[y2]) by {
                    }
                    assert(self.pair_lookups_defined(*net, first@, second@, self.classes()[x as int], self.classes()[y as int]));
                }
                if self.w3_pair_holds(net, first, second, &first_post, &second_pre, &classes[x], &classes[y]) {
                    return true;
                }
                y = y + 1;
            }
            x = x + 1;
        }
        false
    }

    /// The W3 relation of `first` and `second` in the net.
    pub fn w3_relation(&self, first: &String, second: &String, net: &PetriNet) -> (res: bool)
        requires
            self.w3_defined(*net, first@, second@),
        ensures
            res == self.w3(*net, first@, second@),
    {
        self.calculate_w3_relation(first, second, net)
    }
}

impl<'a> AlphaPlusNfcRelationsProvider<'a> {
    /// Some transition of the sequence concave-arrows to `x` or runs in
    /// parallel with it (with `towards`), or `x` does so to it (otherwise).
    pub open spec fn some_related(&self, ts: Seq<Transition>, x: Seq<char>, towards: bool) -> bool {
        exists|k: int| 0 <= k < ts.len() && #[trigger] self.related(ts[k].name@, x, towards)
    }

    pub open spec fn related(&self, n: Seq<char>, x: Seq<char>, towards: bool) -> bool {
        if towards {
            self.concave(n, x) || self.nfc_parallel(n, x)
        } else {
            self.concave(x, n) || self.nfc_parallel(x, n)
        }
    }

    /// The W21 relation: `a` and `b` stand in the right double arrow
    /// relation, the first transition named `a` has more than one outgoing
    /// arc, and for some class `s` in a left triangle with `b`, the postset of
    /// one of those places holds no transition related to `b` and one related to `s`.
    pub open spec fn w21(&self, net: PetriNet, a: Seq<char>, b: Seq<char>) -> bool {
        &&& self.right_double_arrow(a, b)
        &&& exists|i: int, k: int, o: int| #![trigger net.transitions@[i].outgoing_arcs@[o], self.classes()[k]]
            first_named(net, a, i) && net.transitions@[i].outgoing_arcs@.len() > 1
            && 0 <= k < self.classes().len() && self.left_triangle(b, self.classes()[k])
            && 0 <= o < net.transitions@[i].outgoing_arcs@.len()
            && !self.some_related(postset(net, net.transitions@[i].outgoing_arcs@[o].place_id), b, true)
            && self.some_related(postset(net, net.transitions@[i].outgoing_arcs@[o].place_id), self.classes()[k], true)
    }

    /// The W22 relation: `a` and `b` stand in the right double arrow
    /// relation, the first transition named `b` has more than one incoming
    /// arc, and for some class `s` in a right triangle with `a`, the preset of
    /// one of those places holds no transition that `a` is related to and one that `s` is related to.
    pub open spec fn w22(&self, net: PetriNet, a: Seq<char>, b: Seq<char>) -> bool {
        &&& self.right_double_arrow(a, b)
        &&& exists|i: int, k: int, r: int| #![trigger net.transitions@[i].incoming_arcs@[r], self.classes()[k]]
            first_named(net, b, i) && net.transitions@[i].incoming_arcs@.len() > 1
            && 0 <= k < self.classes().len() && self.right_triangle(a, self.classes()[k])
            && 0 <= r < net.transitions@[i].incoming_arcs@.len()
            && !self.some_related(preset(net, net.transitions@[i].incoming_arcs@[r].place_id), a, false)
            && self.some_related(preset(net, net.transitions@[i].incoming_arcs@[r].place_id), self.classes()[k], false)
    }

    /// Whether some transition among the references is related to `x` (see `some_related`).
    fn any_related(&self, ts: &Vec<&Transition>, x: &String, towards: bool) -> (res: bool)
        ensures
            res == self.some_related(ts@.map_values(|t: &Transition| *t), x@, towards),
    {
        let ghost v = ts@.map_values(|t: &Transition| *t);
        let mut k: usize = 0;
        while k < ts.len()
            invariant
                k <= ts@.len(),
                v == ts@.map_values(|t: &Transition| *t),
                forall|j: int| 0 <= j < k ==> !#[trigger] self.related(v[j].name@, x@, towards),
            decreases ts@.len() - k,
        {
            let name = &ts[k].name;
            proof {
                assert(v[k as int] == *ts@[k as int]);
            }
            let hit = if towards {
                self.concave_arrow_relation(name, x) || self.parallel_relation(name, x)
            } else {
                self.concave_arrow_relation(x, name) || self.parallel_relation(x, name)
            };
            if hit {
                assert(self.related(v[k as int].name@, x@, towards));
                return true;
            }
            k = k + 1;
        }
        false
    }

    /// Whether `first` and `second` stand in the W21 relation in the net.
    pub fn w21_relation(&self, first: &String, second: &String, net: &PetriNet) -> (res: bool)
        ensures
            res == self.w21(*net, first@, second@),
    {
        if !self.right_double_arrow_relation(first, second) {
            return false;
        }
        match net.find_transition_by_name(first) {
            Some(transition) => {
                let ghost i0 = choose|i: int| 0 <= i < net.transitions@.len() && net.transitions@[i] == *transition
                    && transition.name@ == first@
                    && forall|j: int| 0 <= j < i ==> net.transitions@[j].name@ != first@;
                proof {
                    assert(first_named(*net, first@, i0));
                    assert forall|i: int| first_named(*net, first@, i) implies i == i0 by {
                        if i < i0 {
                            assert(net.transitions@[i].name@ != first@);
                        }
                        if i0 < i {
                            assert(net.transitions@[i0].name@ != first@);
                        }
                    }
                }
                let arcs = &transition.outgoing_arcs;
                if arcs.len() <= 1 {
                    return false;
                }
                let classes = &self.info.event_classes;
                let mut k: usize = 0;
                while k < classes.len()
                    invariant
                        k <= classes@.len(),
                        *classes == self.spec_info().event_classes,
                        *arcs == net.transitions@[i0].outgoing_arcs,
                        arcs@.len() > 1,
                        first_named(*net, first@, i0),
                        forall|i: int| first_named(*net, first@, i) ==> i == i0,
                        self.right_double_arrow(first@, second@),
                        forall|k2: int, o: int| 0 <= k2 < k && 0 <= o < arcs@.len() && #[trigger] self.left_triangle(second@, self.classes()[k2])
                            ==> !(!self.some_related(postset(*net, #[trigger] arcs@[o].place_id), second@, true)
                                && self.some_related(postset(*net, arcs@[o].place_id), self.classes()[k2], true)),
                    decreases classes@.len() - k,
                {
                    let streak = &classes[k];
                    proof {
                        assert(self.classes()[k as int] == streak@);
                    }
                    if self.left_triangle_relation(second, streak) {
                        let mut o: usize = 0;
                        while o < arcs.len()
                            invariant
                                o <= arcs@.len(),
                                k < classes@.len(),
                                *classes == self.spec_info().event_classes,
                                *arcs == net.transitions@[i0].outgoing_arcs,
                                arcs@.len() > 1,
                                first_named(*net, first@, i0),
                                self.right_double_arrow(first@, second@),
                                self.classes()[k as int] == streak@,
                                self.left_triangle(second@, streak@),
                                forall|o2: int| 0 <= o2 < o
                                    ==> !(!self.some_related(postset(*net, #[trigger] arcs@[o2].place_id), second@, true)
                                        && self.some_related(postset(*net, arcs@[o2].place_id), streak@, true)),
                            decreases arcs@.len() - o,
                        {
                            let post = net.get_outgoing_transitions(arcs[o].place_id);
                            let first_condition = self.any_related(&post, second, true);
                            let second_condition = self.any_related(&post, streak, true);
                            if !first_condition && second_condition {
                                proof {
                                    assert(net.transitions@[i0].outgoing_arcs@[o as int] == arcs@[o as int]);
                                }
                                return true;
                            }
                            o = o + 1;
                        }
                    }
                    k = k + 1;
                }
                proof {
                    assert forall|i: int, k2: int, o: int| #![trigger net.transitions@[i].outgoing_arcs@[o], self.classes()[k2]]
                        first_named(*net, first@, i) && net.transitions@[i].outgoing_arcs@.len() > 1
                        && 0 <= k2 < self.classes().len() && self.left_triangle(second@, self.classes()[k2])
                        && 0 <= o < net.transitions@[i].outgoing_arcs@.len()
                        implies !(!self.some_related(postset(*net, net.transitions@[i].outgoing_arcs@[o].place_id), second@, true)
                        && self.some_related(postset(*net, net.transitions@[i].outgoing_arcs@[o].place_id), self.classes()[k2], true)) by {
                        assert(i == i0);
                        assert(arcs@[o] == net.transitions@[i].outgoing_arcs@[o]);
                    }
                }
                false
            },
            None => {
                proof {
                    assert forall|i: int| !first_named(*net, first@, i) by {
                        if 0 <= i < net.transitions@.len() {
                            assert(net.transitions@[i].name@ != first@);
                        }
                    }
                }
                false
            },
        }
    }
    /// Whether `first` and `second` stand in the W22 relation in the net.
    pub fn w22_relation(&self, first: &String, second: &String, net: &PetriNet) -> (res: bool)
        ensures
            res == self.w22(*net, first@, second@),
    {
        if !self.right_double_arrow_relation(first, second) {
            return false;
        }
        match net.find_transition_by_name(second) {
            Some(transition) => {
                let ghost i0 = choose|i: int| 0 <= i < net.transitions@.len() && net.transitions@[i] == *transition
                    && transition.name@ == second@
                    && forall|j: int| 0 <= j < i ==> net.transitions@[j].name@ != second@;
                proof {
                    assert(first_named(*net, second@, i0));
                    assert forall|i: int| first_named(*net, second@, i) implies i == i0 by {
                        if i < i0 {
                            assert(net.transitions@[i].name@ != second@);
                        }
                        if i0 < i {
                            assert(net.transitions@[i0].name@ != second@);
                        }
                    }
                }
                let arcs = &transition.incoming_arcs;
                if arcs.len() <= 1 {
                    return false;
                }
                let classes = &self.info.event_classes;
                let mut k: usize = 0;
                while k < classes.len()
                    invariant
                        k <= classes@.len(),
                        *classes == self.spec_info().event_classes,
                        *arcs == net.transitions@[i0].incoming_arcs,
                        arcs@.len() > 1,
                        first_named(*net, second@, i0),
                        forall|i: int| first_named(*net, second@, i) ==> i == i0,
                        self.right_double_arrow(first@, second@),
                        forall|k2: int, o: int| 0 <= k2 < k && 0 <= o < arcs@.len() && #[trigger] self.right_triangle(first@, self.classes()[k2])
                            ==> !(!self.some_related(preset(*net, #[trigger] arcs@[o].place_id), first@, false)
                                && self.some_related(preset(*net, arcs@[o].place_id), self.classes()[k2], false)),
                    decreases classes@.len() - k,
                {
                    let streak = &classes[k];
                    proof {
                        assert(self.classes()[k as int] == streak@);
                    }
                    if self.right_triangle_relation(first, streak) {
                        let mut o: usize = 0;
                        while o < arcs.len()
                            invariant
                                o <= arcs@.len(),
                                k < classes@.len(),
                                *classes == self.spec_info().event_classes,
                                *arcs == net.transitions@[i0].incoming_arcs,
                                arcs@.len() > 1,
                                first_named(*net, second@, i0),
                                self.right_double_arrow(first@, second@),
                                self.classes()[k as int] == streak@,
                                self.right_triangle(first@, streak@),
                                forall|o2: int| 0 <= o2 < o
                                    ==> !(!self.some_related(preset(*net, #[trigger] arcs@[o2].place_id), first@, false)
                                        && self.some_related(preset(*net, arcs@[o2].place_id), streak@, false)),
                            decreases arcs@.len() - o,
                        {
                            let post = net.get_incoming_transitions(arcs[o].place_id);
                            let first_condition = self.any_related(&post, first, false);
                            let second_condition = self.any_related(&post, streak, false);
                            if !first_condition && second_condition {
                                proof {
                                    assert(net.transitions@[i0].incoming_arcs@[o as int] == arcs@[o as int]);
                                }
                                return true;
                            }
                            o = o + 1;
                        }
                    }
                    k = k + 1;
                }
                proof {
                    assert forall|i: int, k2: int, o: int| #![trigger net.transitions@[i].incoming_arcs@[o], self.classes()[k2]]
                        first_named(*net, second@, i) && net.transitions@[i].incoming_arcs@.len() > 1
                        && 0 <= k2 < self.classes().len() && self.right_triangle(first@, self.classes()[k2])
                        && 0 <= o < net.transitions@[i].incoming_arcs@.len()
                        implies !(!self.some_related(preset(*net, net.transitions@[i].incoming_arcs@[o].place_id), first@, false)
                        && self.some_related(preset(*net, net.transitions@[i].incoming_arcs@[o].place_id), self.classes()[k2], false)) by {
                        assert(i == i0);
                        assert(arcs@[o] == net.transitions@[i].incoming_arcs@[o]);
                    }
                }
                false
            },
            None => {
                proof {
                    assert forall|i: int| !first_named(*net, second@, i) by {
                        if 0 <= i < net.transitions@.len() {
                            assert(net.transitions@[i].name@ != second@);
                        }
                    }
                }
                false
            },
        }
    }
    /// The W2 relation: W21 or W22.
    pub fn w2_relation(&self, first: &String, second: &String, net: &PetriNet) -> (res: bool)
        ensures
            res == (self.w21(*net, first@, second@) || self.w22(*net, first@, second@)),
    {
        self.w21_relation(first, second, net) || self.w22_relation(first, second, net)
    }
}

} // verus!
