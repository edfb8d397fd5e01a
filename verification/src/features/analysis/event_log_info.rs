use vstd::prelude::*;

use crate::event_log::simple_event_log::{log_names, SimpleEventLog};

verus! {

/// The event classes (names) that occur in the log.
pub open spec fn log_classes(names: Seq<Seq<Seq<char>>>) -> Set<Seq<char>> {
    Set::new(|c: Seq<char>| exists|t: int, i: int| #![trigger names[t][i]] 0 <= t < names.len() && 0 <= i < names[t].len() && names[t][i] == c)
}

/// The pairs of classes where the second directly follows the first in some trace.
pub open spec fn log_dfg(names: Seq<Seq<Seq<char>>>) -> Set<(Seq<char>, Seq<char>)> {
    Set::new(|p: (Seq<char>, Seq<char>)| exists|t: int, i: int| #![trigger names[t][i]] 0 <= t < names.len() && 0 <= i && i + 1 < names[t].len()
        && names[t][i] == p.0 && names[t][i + 1] == p.1)
}

/// The classes that begin some trace.
pub open spec fn log_starts(names: Seq<Seq<Seq<char>>>) -> Set<Seq<char>> {
    Set::new(|c: Seq<char>| exists|t: int| 0 <= t < names.len() && names[t].len() > 0 && names[t][0] == c)
}

/// The classes that end some trace.
pub open spec fn log_ends(names: Seq<Seq<Seq<char>>>) -> Set<Seq<char>> {
    Set::new(|c: Seq<char>| exists|t: int| 0 <= t < names.len() && names[t].len() > 0 && names[t][names[t].len() - 1] == c)
}

/// The classes among the first `n` events of one trace.
pub open spec fn trace_classes(s: Seq<Seq<char>>, n: int) -> Set<Seq<char>> {
    Set::new(|c: Seq<char>| exists|j: int| #![trigger s[j]] 0 <= j < n && s[j] == c)
}

/// The pairs of neighbouring events among the first `n` events of one trace.
pub open spec fn trace_pairs(s: Seq<Seq<char>>, n: int) -> Set<(Seq<char>, Seq<char>)> {
    Set::new(|p: (Seq<char>, Seq<char>)| exists|j: int| #![trigger s[j]] 0 <= j && j + 1 < n && s[j] == p.0 && s[j + 1] == p.1)
}

/// The strings of the vector, each once.
pub open spec fn distinct_strings(v: Seq<String>) -> bool {
    forall|i: int, j: int| 0 <= i < j < v.len() ==> v[i]@ != v[j]@
}

/// The set of the strings of the vector.
pub open spec fn string_set(v: Seq<String>) -> Set<Seq<char>> {
    Set::new(|c: Seq<char>| exists|i: int| 0 <= i < v.len() && v[i]@ == c)
}

/// The set of the pairs of the vector.
pub open spec fn pair_set(v: Seq<(String, String)>) -> Set<(Seq<char>, Seq<char>)> {
    Set::new(|p: (Seq<char>, Seq<char>)| exists|i: int| 0 <= i < v.len() && v[i].0@ == p.0 && v[i].1@ == p.1)
}

/// What the alpha miner needs to know of a log: its classes, the
/// directly-follows relation, and the classes that begin and end traces.
pub struct EventLogInfo {
    pub event_classes: Vec<String>,
    pub dfg: Vec<(String, String)>,
    pub start_classes: Vec<String>,
    pub end_classes: Vec<String>,
}

/// Whether the vector holds the string.
pub fn contains_string(v: &Vec<String>, s: &String) -> (res: bool)
    ensures
        res == string_set(v@).contains(s@),
{
    let mut i: usize = 0;
    while i < v.len()
        invariant
            i <= v@.len(),
            forall|j: int| 0 <= j < i ==> v@[j]@ != s@,
        decreases v@.len() - i,
    {
        if v[i] == *s {
            assert(string_set(v@).contains(s@)) by {
                assert(v@[i as int]@ == s@);
            }
            return true;
        }
        i = i + 1;
    }
    false
}

/// Adds the string unless the vector already holds it.
pub fn push_unique(v: &mut Vec<String>, s: &String)
    requires
        distinct_strings(old(v)@),
    ensures
        distinct_strings(final(v)@),
        string_set(final(v)@) == string_set(old(v)@).insert(s@),
        string_set(old(v)@).contains(s@) ==> final(v)@ == old(v)@,
        !string_set(old(v)@).contains(s@) ==> final(v)@.len() == old(v)@.len() + 1 && final(v)@.last()@ == s@
            && final(v)@.drop_last() == old(v)@,
{
    if !contains_string(v, s) {
        let ghost before = v@;
        v.push(s.clone());
        proof {
            assert(v@.drop_last() =~= before);
            assert(string_set(v@) =~= string_set(before).insert(s@)) by {
                assert forall|c: Seq<char>| string_set(v@).contains(c) implies string_set(before).insert(s@).contains(c) by {
                    let i = choose|i: int| 0 <= i < v@.len() && v@[i]@ == c;
                    if i < before.len() {
                        assert(before[i]@ == c);
                    }
                }
                assert forall|c: Seq<char>| string_set(before).insert(s@).contains(c) implies string_set(v@).contains(c) by {
                    if c == s@ {
                        assert(v@[before.len() as int]@ == c);
                    } else {
                        let i = choose|i: int| 0 <= i < before.len() && before[i]@ == c;
                        assert(v@[i]@ == c);
                    }
                }
            }
        }
    } else {
        assert(string_set(v@).insert(s@) =~= string_set(v@));
    }
}

/// Whether the vector holds the pair.
pub fn contains_pair(v: &Vec<(String, String)>, a: &String, b: &String) -> (res: bool)
    ensures
        res == pair_set(v@).contains((a@, b@)),
{
    let mut i: usize = 0;
    while i < v.len()
        invariant
            i <= v@.len(),
            forall|j: int| 0 <= j < i ==> !(v@[j].0@ == a@ && v@[j].1@ == b@),
        decreases v@.len() - i,
    {
        if v[i].0 == *a && v[i].1 == *b {
            assert(pair_set(v@).contains((a@, b@))) by {
                assert(v@[i as int].0@ == a@ && v@[i as int].1@ == b@);
            }
            return true;
        }
        i = i + 1;
    }
    false
}

/// Adds the pair unless the vector already holds it.
pub fn push_unique_pair(v: &mut Vec<(String, String)>, a: &String, b: &String)
    ensures
        pair_set(final(v)@) == pair_set(old(v)@).insert((a@, b@)),
{
    if !contains_pair(v, a, b) {
        let ghost before = v@;
        v.push((a.clone(), b.clone()));
        proof {
            assert(pair_set(v@) =~= pair_set(before).insert((a@, b@))) by {
                assert forall|p: (Seq<char>, Seq<char>)| pair_set(v@).contains(p) implies pair_set(before).insert((a@, b@)).contains(p) by {
                    let i = choose|i: int| 0 <= i < v@.len() && v@[i].0@ == p.0 && v@[i].1@ == p.1;
                    if i < before.len() {
                        assert(before[i].0@ == p.0 && before[i].1@ == p.1);
                    }
                }
                assert forall|p: (Seq<char>, Seq<char>)| pair_set(before).insert((a@, b@)).contains(p) implies pair_set(v@).contains(p) by {
                    if p == (a@, b@) {
                        assert(v@[before.len() as int].0@ == p.0 && v@[before.len() as int].1@ == p.1);
                    } else {
                        let i = choose|i: int| 0 <= i < before.len() && before[i].0@ == p.0 && before[i].1@ == p.1;
                        assert(v@[i].0@ == p.0 && v@[i].1@ == p.1);
                    }
                }
            }
        }
    } else {
        assert(pair_set(v@).insert((a@, b@)) =~= pair_set(v@));
    }
}

/// The events before position `(t, i)`: all of the first `t` traces, then the
/// first `i` events of trace `t`.
pub open spec fn names_prefix(names: Seq<Seq<Seq<char>>>, t: int, i: int) -> Seq<Seq<Seq<char>>> {
    if t < names.len() {
        names.take(t).push(names[t].take(i))
    } else {
        names
    }
}

impl EventLogInfo {
    /// Each class, start class and end class is listed once, and the start and end classes and both ends
    /// of every directly-follows pair are classes.
    pub open spec fn wf(&self) -> bool {
        &&& distinct_strings(self.event_classes@)
        &&& distinct_strings(self.start_classes@)
        &&& distinct_strings(self.end_classes@)
        &&& string_set(self.start_classes@).subset_of(string_set(self.event_classes@))
        &&& string_set(self.end_classes@).subset_of(string_set(self.event_classes@))
        &&& forall|p: (Seq<char>, Seq<char>)| #[trigger] pair_set(self.dfg@).contains(p)
            ==> string_set(self.event_classes@).contains(p.0) && string_set(self.event_classes@).contains(p.1)
    }

    /// The classes that some event directly follows in the log.
    pub open spec fn followed_classes(&self) -> Set<Seq<char>> {
        Set::new(|a: Seq<char>| exists|b: Seq<char>| #[trigger] pair_set(self.dfg@).contains((a, b)))
    }

    /// Whether some event directly follows an event of the class.
    pub fn has_followed_events(&self, class: &String) -> (res: bool)
        ensures
            res == self.followed_classes().contains(class@),
    {
        let mut i: usize = 0;
        while i < self.dfg.len()
            invariant
                i <= self.dfg@.len(),
                forall|j: int| 0 <= j < i ==> self.dfg@[j].0@ != class@,
            decreases self.dfg@.len() - i,
        {
            if self.dfg[i].0 == *class {
                assert(pair_set(self.dfg@).contains((class@, self.dfg@[i as int].1@)));
                return true;
            }
            i = i + 1;
        }
        proof {
            if self.followed_classes().contains(class@) {
                let b = choose|b: Seq<char>| #[trigger] pair_set(self.dfg@).contains((class@, b));
                assert(pair_set(self.dfg@).contains((class@, b)));
                let j = choose|j: int| 0 <= j < self.dfg@.len() && self.dfg@[j].0@ == class@ && self.dfg@[j].1@ == b;
                assert(self.dfg@[j].0@ != class@);
            }
        }
        false
    }

    /// The classes of the log, each once.
    pub fn all_event_classes(&self) -> (res: &Vec<String>)
        ensures
            res@ == self.event_classes@,
    {
        &self.event_classes
    }

    /// The classes that begin some trace.
    pub fn start_event_classes(&self) -> (res: &Vec<String>)
        ensures
            res@ == self.start_classes@,
    {
        &self.start_classes
    }

    /// The classes that end some trace.
    pub fn end_event_classes(&self) -> (res: &Vec<String>)
        ensures
            res@ == self.end_classes@,
    {
        &self.end_classes
    }

    /// The information of the log.
    pub fn create_from(log: &SimpleEventLog) -> (res: Self)
        ensures
            res.wf(),
            string_set(res.event_classes@) == log_classes(log_names(*log)),
            pair_set(res.dfg@) == log_dfg(log_names(*log)),
            string_set(res.start_classes@) == log_starts(log_names(*log)),
            string_set(res.end_classes@) == log_ends(log_names(*log)),
    {
        let ghost names = log_names(*log);
        let mut event_classes: Vec<String> = Vec::new();
        let mut dfg: Vec<(String, String)> = Vec::new();
        let mut start_classes: Vec<String> = Vec::new();
        let mut end_classes: Vec<String> = Vec::new();
        let traces = log.traces();
        proof {
            assert(string_set(event_classes@) =~= log_classes(names.take(0)));
            assert(pair_set(dfg@) =~= log_dfg(names.take(0)));
            assert(string_set(start_classes@) =~= log_starts(names.take(0)));
            assert(string_set(end_classes@) =~= log_ends(names.take(0)));
        }
        let mut t: usize = 0;
        while t < traces.len()
            invariant
                t <= traces@.len(),
                names == log_names(*log),
                traces@ == log.traces@,
                distinct_strings(event_classes@),
                distinct_strings(start_classes@),
                distinct_strings(end_classes@),
                string_set(event_classes@) == log_classes(names.take(t as int)),
                pair_set(dfg@) == log_dfg(names.take(t as int)),
                string_set(start_classes@) == log_starts(names.take(t as int)),
                string_set(end_classes@) == log_ends(names.take(t as int)),
            decreases traces@.len() - t,
        {
            let events = traces[t].events();
            let ghost tn = names[t as int];
            proof {
                assert(tn == events@.map_values(|e: crate::event_log::simple_event_log::SimpleEvent| e.name@));
            }
            let ghost classes_before = string_set(event_classes@);
            let ghost dfg_before = pair_set(dfg@);
            let mut i: usize = 0;
            while i < events.len()
                invariant
                    i <= events@.len(),
                    t < names.len(),
                    tn == names[t as int],
                    tn == events@.map_values(|e: crate::event_log::simple_event_log::SimpleEvent| e.name@),
                    distinct_strings(event_classes@),
                    classes_before == log_classes(names.take(t as int)),
                    dfg_before == log_dfg(names.take(t as int)),
                    string_set(event_classes@) == classes_before + trace_classes(tn, i as int),
                    pair_set(dfg@) == dfg_before + trace_pairs(tn, i as int),
                decreases events@.len() - i,
            {
                let ghost cls = string_set(event_classes@);
                let ghost prs = pair_set(dfg@);
                push_unique(&mut event_classes, &events[i].name);
                if i > 0 {
                    push_unique_pair(&mut dfg, &events[i - 1].name, &events[i].name);
                }
                proof {
                    assert(tn[i as int] == events@[i as int].name@);
                    assert(string_set(event_classes@) =~= classes_before + trace_classes(tn, i + 1)) by {
                        assert forall|c: Seq<char>| trace_classes(tn, i + 1).contains(c)
                            implies #[trigger] cls.insert(tn[i as int]).contains(c) || classes_before.contains(c) by {
                            let j = choose|j: int| 0 <= j < i + 1 && tn[j] == c;
                            if j < i {
                                assert(trace_classes(tn, i as int).contains(c));
                            }
                        }
                    }
                    if i > 0 {
                        assert(tn[i - 1] == events@[i - 1].name@);
                        assert(pair_set(dfg@) =~= dfg_before + trace_pairs(tn, i + 1)) by {
                            assert forall|p: (Seq<char>, Seq<char>)| trace_pairs(tn, i + 1).contains(p) implies #[trigger] prs.insert((tn[i - 1], tn[i as int])).contains(p)
                                || dfg_before.contains(p) by {
                                let j = choose|j: int| #![trigger tn[j]] 0 <= j && j + 1 < i + 1 && tn[j] == p.0 && tn[j + 1] == p.1;
                                if j + 1 < i {
                                    assert(trace_pairs(tn, i as int).contains(p));
                                }
                            }
                        }
                    } else {
                        assert(pair_set(dfg@) =~= dfg_before + trace_pairs(tn, i + 1));
                    }
                }
                i = i + 1;
            }
            let ghost starts_before = string_set(start_classes@);
            let ghost ends_before = string_set(end_classes@);
            if events.len() > 0 {
                push_unique(&mut start_classes, &events[0].name);
                push_unique(&mut end_classes, &events[events.len() - 1].name);
            }
            proof {
                lemma_prefix_step(names, t as int);
                assert(string_set(event_classes@) =~= log_classes(names.take(t + 1)));
                assert(pair_set(dfg@) =~= log_dfg(names.take(t + 1)));
                if events@.len() > 0 {
                    assert(tn[0] == events@[0].name@);
                    assert(tn[tn.len() - 1] == events@[events@.len() - 1].name@);
                }
                assert(string_set(start_classes@) =~= log_starts(names.take(t + 1)));
                assert(string_set(end_classes@) =~= log_ends(names.take(t + 1)));
            }
            t = t + 1;
        }
        proof {
            assert(names.take(t as int) =~= names);
            lemma_log_sets_within_classes(names);
        }
        Self { event_classes, dfg, start_classes, end_classes }
    }
}

/// Start, end and directly-follows classes are classes of the log.
proof fn lemma_log_sets_within_classes(names: Seq<Seq<Seq<char>>>)
    ensures
        log_starts(names).subset_of(log_classes(names)),
        log_ends(names).subset_of(log_classes(names)),
        forall|p: (Seq<char>, Seq<char>)| #[trigger] log_dfg(names).contains(p)
            ==> log_classes(names).contains(p.0) && log_classes(names).contains(p.1),
{
    assert forall|c: Seq<char>| log_starts(names).contains(c) implies log_classes(names).contains(c) by {
        let t = choose|t: int| 0 <= t < names.len() && names[t].len() > 0 && names[t][0] == c;
        assert(names[t][0] == c);
    }
    assert forall|c: Seq<char>| log_ends(names).contains(c) implies log_classes(names).contains(c) by {
        let t = choose|t: int| 0 <= t < names.len() && names[t].len() > 0 && names[t][names[t].len() - 1] == c;
        assert(names[t][names[t].len() - 1] == c);
    }
    assert forall|p: (Seq<char>, Seq<char>)| #[trigger] log_dfg(names).contains(p)
        implies log_classes(names).contains(p.0) && log_classes(names).contains(p.1) by {
        let (t, i) = choose|t: int, i: int| #![trigger names[t][i]] 0 <= t < names.len() && 0 <= i && i + 1 < names[t].len()
            && names[t][i] == p.0 && names[t][i + 1] == p.1;
        assert(names[t][i] == p.0);
        assert(names[t][i + 1] == p.1);
    }
}

pub proof fn lemma_prefix_step(names: Seq<Seq<Seq<char>>>, t: int)
    requires
        0 <= t < names.len(),
    ensures
        log_classes(names.take(t + 1)) == log_classes(names.take(t)) + trace_classes(names[t], names[t].len() as int),
        log_dfg(names.take(t + 1)) == log_dfg(names.take(t)) + trace_pairs(names[t], names[t].len() as int),
        log_starts(names.take(t + 1)) == (if names[t].len() > 0 { log_starts(names.take(t)).insert(names[t][0]) } else { log_starts(names.take(t)) }),
        log_ends(names.take(t + 1)) == (if names[t].len() > 0 { log_ends(names.take(t)).insert(names[t][names[t].len() - 1]) } else { log_ends(names.take(t)) }),
{
    let a = names.take(t);
    let b = names.take(t + 1);
    assert forall|k: int| 0 <= k < t implies b[k] == a[k] by {}
    assert(b[t] == names[t]);
    assert(log_classes(b) =~= log_classes(a) + trace_classes(names[t], names[t].len() as int)) by {
        assert forall|c: Seq<char>| log_classes(b).contains(c) implies log_classes(a).contains(c)
            || trace_classes(names[t], names[t].len() as int).contains(c) by {
            let (k, j) = choose|k: int, j: int| #![trigger b[k][j]] 0 <= k < b.len() && 0 <= j < b[k].len() && b[k][j] == c;
            if k < t {
                assert(a[k][j] == c);
            }
        }
        assert forall|c: Seq<char>| log_classes(a).contains(c) implies log_classes(b).contains(c) by {
            let (k, j) = choose|k: int, j: int| #![trigger a[k][j]] 0 <= k < a.len() && 0 <= j < a[k].len() && a[k][j] == c;
            assert(b[k][j] == c);
        }
        assert forall|c: Seq<char>| trace_classes(names[t], names[t].len() as int).contains(c)
            implies log_classes(b).contains(c) by {
            let j = choose|j: int| 0 <= j < names[t].len() && names[t][j] == c;
            assert(b[t][j] == c);
        }
    }
    assert(log_dfg(b) =~= log_dfg(a) + trace_pairs(names[t], names[t].len() as int)) by {
        assert forall|p: (Seq<char>, Seq<char>)| log_dfg(b).contains(p) implies log_dfg(a).contains(p)
            || trace_pairs(names[t], names[t].len() as int).contains(p) by {
            let (k, j) = choose|k: int, j: int| #![trigger b[k][j]] 0 <= k < b.len() && 0 <= j && j + 1 < b[k].len() && b[k][j] == p.0 && b[k][j + 1] == p.1;
            if k < t {
                assert(a[k][j] == p.0 && a[k][j + 1] == p.1);
            }
        }
        assert forall|p: (Seq<char>, Seq<char>)| log_dfg(a).contains(p) implies log_dfg(b).contains(p) by {
            let (k, j) = choose|k: int, j: int| #![trigger a[k][j]] 0 <= k < a.len() && 0 <= j && j + 1 < a[k].len() && a[k][j] == p.0 && a[k][j + 1] == p.1;
            assert(b[k][j] == p.0 && b[k][j + 1] == p.1);
        }
        assert forall|p: (Seq<char>, Seq<char>)| trace_pairs(names[t], names[t].len() as int).contains(p) implies log_dfg(b).contains(p) by {
            let j = choose|j: int| #![trigger names[t][j]] 0 <= j && j + 1 < names[t].len() && names[t][j] == p.0 && names[t][j + 1] == p.1;
            assert(b[t][j] == p.0 && b[t][j + 1] == p.1);
        }
    }
    assert(log_starts(b) =~= (if names[t].len() > 0 { log_starts(a).insert(names[t][0]) } else { log_starts(a) })) by {
        assert forall|c: Seq<char>| log_starts(b).contains(c) implies (if names[t].len() > 0 { log_starts(a).insert(names[t][0]) } else { log_starts(a) }).contains(c) by {
            let k = choose|k: int| 0 <= k < b.len() && b[k].len() > 0 && b[k][0] == c;
            if k < t {
                assert(a[k][0] == c);
            }
        }
        assert forall|c: Seq<char>| log_starts(a).contains(c) implies log_starts(b).contains(c) by {
            let k = choose|k: int| 0 <= k < a.len() && a[k].len() > 0 && a[k][0] == c;
            assert(b[k][0] == c);
        }
    }
    assert(log_ends(b) =~= (if names[t].len() > 0 { log_ends(a).insert(names[t][names[t].len() - 1]) } else { log_ends(a) })) by {
        assert forall|c: Seq<char>| log_ends(b).contains(c) implies (if names[t].len() > 0 { log_ends(a).insert(names[t][names[t].len() - 1]) } else { log_ends(a) }).contains(c) by {
            let k = choose|k: int| 0 <= k < b.len() && b[k].len() > 0 && b[k][b[k].len() - 1] == c;
            if k < t {
                assert(a[k][a[k].len() - 1] == c);
            }
        }
        assert forall|c: Seq<char>| log_ends(a).contains(c) implies log_ends(b).contains(c) by {
            let k = choose|k: int| 0 <= k < a.len() && a[k].len() > 0 && a[k][a[k].len() - 1] == c;
            assert(b[k][b[k].len() - 1] == c);
        }
    }
}

} // verus!
