use vstd::prelude::*;

use crate::event_log::simple_event_log::{log_names, SimpleEvent, SimpleEventLog};
use crate::features::analysis::event_log_info::{distinct_strings, push_unique, string_set, EventLogInfo};
use crate::features::discovery::alpha::alpha_provider::AlphaRelationsProvider;
use crate::features::discovery::alpha::alpha_set::{alpha_name, relations_hold, strictly_sorted, views, AlphaSet};
use crate::features::petri_net::marking::{Marking, SingleMarking};
use crate::features::petri_net::net::{Arc, DefaultPetriNet, PetriNet, Place, Transition};
use crate::utils::strings::lemma_string_order;

verus! {

/// The left and right classes of an alpha set.
pub type ClassSets = (Set<Seq<char>>, Set<Seq<char>>);

/// The event classes of the provider's log.
pub open spec fn provider_classes<P: AlphaRelationsProvider>(p: &P) -> Set<Seq<char>> {
    string_set(p.info().event_classes@)
}

/// A pair of non-empty sets of classes of the log that the alpha algorithm can
/// turn into a place: every left class is followed by some event, every left
/// class causes every right class, and each side is pairwise unrelated.
pub open spec fn is_alpha_pair<P: AlphaRelationsProvider>(p: &P, x: ClassSets) -> bool {
    &&& x.0.finite()
    &&& x.1.finite()
    &&& x.0.len() > 0
    &&& x.1.len() > 0
    &&& x.0.subset_of(provider_classes(p))
    &&& x.1.subset_of(provider_classes(p))
    &&& x.0.subset_of(p.info().followed_classes())
    &&& relations_hold(p, x.0, x.1)
}

/// An alpha pair with one class on each side.
pub open spec fn is_single_alpha_pair<P: AlphaRelationsProvider>(p: &P, x: ClassSets) -> bool {
    is_alpha_pair(p, x) && x.0.len() == 1 && x.1.len() == 1
}

/// An alpha pair that no other alpha pair contains on both sides.
pub open spec fn is_maximal_alpha_pair<P: AlphaRelationsProvider>(p: &P, x: ClassSets) -> bool {
    &&& is_alpha_pair(p, x)
    &&& forall|y: ClassSets| #[trigger] is_alpha_pair(p, y) && x.0.subset_of(y.0) && x.1.subset_of(y.1) ==> y == x
}

/// The two pairs may be merged: one side of the first is within the second's,
/// and the classes of both still form an alpha set.
pub open spec fn mergeable<P: AlphaRelationsProvider>(p: &P, x: ClassSets, y: ClassSets) -> bool {
    (x.0.subset_of(y.0) || x.1.subset_of(y.1)) && relations_hold(p, x.0 + y.0, x.1 + y.1)
}

/// The pair with the classes of both pairs on each side.
pub open spec fn merged(x: ClassSets, y: ClassSets) -> ClassSets {
    (x.0 + y.0, x.1 + y.1)
}

/// With any two mergeable pairs the set also holds their merge.
pub open spec fn closed_under_merge<P: AlphaRelationsProvider>(p: &P, s: Set<ClassSets>) -> bool {
    forall|x: ClassSets, y: ClassSets| s.contains(x) && s.contains(y) && #[trigger] mergeable(p, x, y)
        ==> s.contains(merged(x, y))
}

/// The class sets of the alpha sets.
pub open spec fn set_views(v: Seq<AlphaSet>) -> Set<ClassSets> {
    Set::new(|x: ClassSets| exists|i: int| 0 <= i < v.len() && #[trigger] v[i]@ == x)
}

/// No two of the alpha sets have the same classes.
pub open spec fn distinct_sets(v: Seq<AlphaSet>) -> bool {
    forall|i: int, j: int| 0 <= i < j < v.len() ==> #[trigger] v[i]@ != #[trigger] v[j]@
}

/// The sets of classes of the given set.
pub open spec fn subsets_of(s: Set<Seq<char>>) -> Set<Set<Seq<char>>> {
    Set::new(|t: Set<Seq<char>>| t.subset_of(s))
}

/// The pairs whose sides are in the given sets.
pub open spec fn pairs_of<A, B>(a: Set<A>, b: Set<B>) -> Set<(A, B)> {
    Set::new(|x: (A, B)| a.contains(x.0) && b.contains(x.1))
}

proof fn lemma_subsets_finite(s: Set<Seq<char>>)
    requires
        s.finite(),
    ensures
        subsets_of(s).finite(),
    decreases s.len(),
{
    if s.len() == 0 {
        assert(s =~= Set::empty());
        assert(subsets_of(s) =~= Set::empty().insert(Set::<Seq<char>>::empty())) by {
            assert forall|t: Set<Seq<char>>| subsets_of(s).contains(t) implies t == Set::<Seq<char>>::empty() by {
                assert(t =~= Set::<Seq<char>>::empty());
            }
        }
    } else {
        let x = s.choose();
        let r = s.remove(x);
        lemma_subsets_finite(r);
        let f = |t: Set<Seq<char>>| t.insert(x);
        subsets_of(r).lemma_map_finite(f);
        assert(subsets_of(s) =~= subsets_of(r) + subsets_of(r).map(f)) by {
            assert forall|t: Set<Seq<char>>| subsets_of(s).contains(t) implies (subsets_of(r) + subsets_of(r).map(f)).contains(t) by {
                if t.contains(x) {
                    let u = t.remove(x);
                    assert(subsets_of(r).contains(u));
                    assert(f(u) =~= t);
                    assert(subsets_of(r).map(f).contains(f(u)));
                } else {
                    assert(subsets_of(r).contains(t));
                }
            }
            assert forall|t: Set<Seq<char>>| (subsets_of(r) + subsets_of(r).map(f)).contains(t) implies subsets_of(s).contains(t) by {
                if !subsets_of(r).contains(t) {
                    let u = choose|u: Set<Seq<char>>| subsets_of(r).contains(u) && f(u) == t;
                    assert(t.subset_of(s));
                }
            }
        }
    }
}

proof fn lemma_pairs_finite<A, B>(a: Set<A>, b: Set<B>)
    requires
        a.finite(),
        b.finite(),
    ensures
        pairs_of(a, b).finite(),
    decreases a.len(),
{
    if a.len() == 0 {
        assert(a =~= Set::empty());
        assert(pairs_of(a, b) =~= Set::empty());
    } else {
        let x = a.choose();
        let r = a.remove(x);
        lemma_pairs_finite(r, b);
        let f = |y: B| (x, y);
        b.lemma_map_finite(f);
        assert(pairs_of(a, b) =~= pairs_of(r, b) + b.map(f)) by {
            assert forall|p: (A, B)| pairs_of(a, b).contains(p) implies (pairs_of(r, b) + b.map(f)).contains(p) by {
                if p.0 == x {
                    assert(f(p.1) == p);
                    assert(b.map(f).contains(f(p.1)));
                }
            }
        }
    }
}

/// The class sets that an alpha set of the provider's classes can have.
pub open spec fn class_universe<P: AlphaRelationsProvider>(p: &P) -> Set<ClassSets> {
    pairs_of(subsets_of(provider_classes(p)), subsets_of(provider_classes(p)))
}

proof fn lemma_class_universe_finite<P: AlphaRelationsProvider>(p: &P)
    ensures
        class_universe(p).finite(),
{
    crate::features::discovery::alpha::alpha_set::lemma_string_set_is_views(p.info().event_classes@);
    lemma_subsets_finite(provider_classes(p));
    lemma_pairs_finite(subsets_of(provider_classes(p)), subsets_of(provider_classes(p)));
}

/// As many class sets as alpha sets, when no two are alike.
proof fn lemma_distinct_sets_len(v: Seq<AlphaSet>)
    requires
        distinct_sets(v),
    ensures
        set_views(v).finite(),
        set_views(v).len() == v.len(),
{
    let q = Seq::new(v.len(), |i: int| v[i]@);
    assert(q.no_duplicates()) by {
        assert forall|i: int, j: int| 0 <= i < q.len() && 0 <= j < q.len() && i != j implies q[i] != q[j] by {
            if i < j {
                assert(v[i]@ != v[j]@);
            } else {
                assert(v[j]@ != v[i]@);
            }
        }
    }
    assert(set_views(v) =~= q.to_set()) by {
        assert forall|x: ClassSets| set_views(v).contains(x) implies q.to_set().contains(x) by {
            let i = choose|i: int| 0 <= i < v.len() && #[trigger] v[i]@ == x;
            assert(q[i] == x);
        }
        assert forall|x: ClassSets| q.to_set().contains(x) implies set_views(v).contains(x) by {
            let i = choose|i: int| 0 <= i < q.len() && q[i] == x;
            assert(v[i]@ == x);
        }
    }
    q.unique_seq_to_set();
    broadcast use vstd::seq_lib::seq_to_set_is_finite;
}

/// A set of alpha pairs that holds every alpha pair with one class on each
/// side and is closed under merging holds every alpha pair.
pub proof fn lemma_closure_holds_all_alpha_pairs<P: AlphaRelationsProvider>(p: &P, s: Set<ClassSets>, x: ClassSets)
    requires
        forall|y: ClassSets| #[trigger] is_single_alpha_pair(p, y) ==> s.contains(y),
        closed_under_merge(p, s),
        is_alpha_pair(p, x),
    ensures
        s.contains(x),
    decreases x.0.len() + x.1.len(),
{
    if x.1.len() > 1 {
        let b = x.1.choose();
        let rest = x.1.remove(b);
        let single = Set::<Seq<char>>::empty().insert(b);
        let y1 = (x.0, rest);
        let y2 = (x.0, single);
        assert(is_alpha_pair(p, y1));
        assert(is_alpha_pair(p, y2));
        lemma_closure_holds_all_alpha_pairs(p, s, y1);
        lemma_closure_holds_all_alpha_pairs(p, s, y2);
        assert(merged(y1, y2) =~= x) by {
            assert(x.0 + x.0 =~= x.0);
            assert(rest + single =~= x.1);
        }
        assert(mergeable(p, y1, y2));
    } else if x.0.len() > 1 {
        let a = x.0.choose();
        let rest = x.0.remove(a);
        let single = Set::<Seq<char>>::empty().insert(a);
        let y1 = (rest, x.1);
        let y2 = (single, x.1);
        assert(is_alpha_pair(p, y1));
        assert(is_alpha_pair(p, y2));
        lemma_closure_holds_all_alpha_pairs(p, s, y1);
        lemma_closure_holds_all_alpha_pairs(p, s, y2);
        assert(merged(y1, y2) =~= x) by {
            assert(rest + single =~= x.0);
            assert(x.1 + x.1 =~= x.1);
        }
        assert(mergeable(p, y1, y2));
    } else {
        assert(is_single_alpha_pair(p, x));
    }
}

/// `(a, b)` may start an alpha set: some event follows `a`, `a` causes `b`,
/// and each is unrelated to itself.
pub open spec fn single_candidate<P: AlphaRelationsProvider>(p: &P, a: Seq<char>, b: Seq<char>) -> bool {
    &&& p.info().followed_classes().contains(a)
    &&& p.unrelated(a, a)
    &&& p.causal(a, b)
    &&& p.unrelated(b, b)
}

/// The pair with one class on each side.
pub open spec fn single_pair(a: Seq<char>, b: Seq<char>) -> ClassSets {
    (Set::empty().insert(a), Set::empty().insert(b))
}

/// The candidate pairs `(c[k], c[l])` with `(k, l)` before `(i, j)`.
pub open spec fn singles_before<P: AlphaRelationsProvider>(p: &P, c: Seq<String>, i: int, j: int) -> Set<ClassSets> {
    Set::new(|x: ClassSets| exists|k: int, l: int| #![trigger c[k], c[l]]
        0 <= k < c.len() && 0 <= l < c.len() && (k < i || (k == i && l < j))
        && single_candidate(p, c[k]@, c[l]@) && x == single_pair(c[k]@, c[l]@))
}

proof fn lemma_single_pairs<P: AlphaRelationsProvider>(p: &P)
    ensures
        singles_before(p, p.info().event_classes@, p.info().event_classes@.len() as int, 0)
            == Set::new(|x: ClassSets| is_single_alpha_pair(p, x)),
{
    let c = p.info().event_classes@;
    let n = c.len() as int;
    assert forall|x: ClassSets| singles_before(p, c, n, 0).contains(x) implies is_single_alpha_pair(p, x) by {
        let (k, l) = choose|k: int, l: int| #![trigger c[k], c[l]]
            0 <= k < c.len() && 0 <= l < c.len() && (k < n || (k == n && l < 0))
            && single_candidate(p, c[k]@, c[l]@) && x == single_pair(c[k]@, c[l]@);
        assert(string_set(c).contains(c[k]@));
        assert(string_set(c).contains(c[l]@));
        assert(x.0.len() == 1 && x.1.len() == 1);
    }
    assert forall|x: ClassSets| is_single_alpha_pair(p, x) implies singles_before(p, c, n, 0).contains(x) by {
        Set::<Seq<char>>::lemma_is_singleton(x.0);
        Set::<Seq<char>>::lemma_is_singleton(x.1);
        let a = x.0.choose();
        let b = x.1.choose();
        assert(x.0 =~= Set::empty().insert(a));
        assert(x.1 =~= Set::empty().insert(b));
        assert(string_set(c).contains(a));
        assert(string_set(c).contains(b));
        let k = choose|k: int| 0 <= k < c.len() && c[k]@ == a;
        let l = choose|l: int| 0 <= l < c.len() && c[l]@ == b;
        assert(p.causal(a, b));
        assert(p.unrelated(a, a));
        assert(p.unrelated(b, b));
        assert(x == single_pair(c[k]@, c[l]@));
    }
    assert(singles_before(p, c, n, 0) =~= Set::new(|x: ClassSets| is_single_alpha_pair(p, x)));
}

pub proof fn lemma_set_views_push(v: Seq<AlphaSet>, a: AlphaSet)
    ensures
        set_views(v.push(a)) == set_views(v).insert(a@),
{
    assert forall|x: ClassSets| set_views(v.push(a)).contains(x) implies set_views(v).insert(a@).contains(x) by {
        let i = choose|i: int| 0 <= i < v.push(a).len() && #[trigger] v.push(a)[i]@ == x;
        if i < v.len() {
            assert(v[i]@ == x);
        }
    }
    assert forall|x: ClassSets| set_views(v).insert(a@).contains(x) implies set_views(v.push(a)).contains(x) by {
        if x == a@ {
            assert(v.push(a)[v.len() as int]@ == x);
        } else {
            let i = choose|i: int| 0 <= i < v.len() && #[trigger] v[i]@ == x;
            assert(v.push(a)[i]@ == x);
        }
    }
    assert(set_views(v.push(a)) =~= set_views(v).insert(a@));
}

/// The alpha sets with one class on each side: each class that some event
/// follows and that is unrelated to itself, with each class that it causes
/// and that is unrelated to itself.
fn create_initial_sets<P: AlphaRelationsProvider>(provider: &P) -> (res: Vec<AlphaSet>)
    ensures
        set_views(res@) == Set::new(|x: ClassSets| is_single_alpha_pair(provider, x)),
        distinct_sets(res@),
{
    let info = provider.log_info();
    let classes = info.all_event_classes();
    let ghost c = classes@;
    let mut sets: Vec<AlphaSet> = Vec::new();
    proof {
        assert(set_views(sets@) =~= singles_before(provider, c, 0, 0));
    }
    let mut i: usize = 0;
    while i < classes.len()
        invariant
            i <= c.len(),
            c == classes@,
            c == provider.info().event_classes@,
            *info == provider.info(),
            info.wf(),
            distinct_sets(sets@),
            set_views(sets@) == singles_before(provider, c, i as int, 0),
        decreases c.len() - i,
    {
        if info.has_followed_events(&classes[i]) && provider.unrelated_relation(&classes[i], &classes[i]) {
            let mut j: usize = 0;
            while j < classes.len()
                invariant
                    i < c.len(),
                    j <= c.len(),
                    c == classes@,
                    c == provider.info().event_classes@,
                    info.wf(),
                    *info == provider.info(),
                    provider.info().followed_classes().contains(c[i as int]@),
                    provider.unrelated(c[i as int]@, c[i as int]@),
                    distinct_sets(sets@),
                    set_views(sets@) == singles_before(provider, c, i as int, j as int),
                decreases c.len() - j,
            {
                if provider.causal_relation(&classes[i], &classes[j]) && provider.unrelated_relation(&classes[j], &classes[j]) {
                    let set = AlphaSet::new(classes[i].clone(), classes[j].clone());
                    let ghost before = sets@;
                    proof {
                        assert(set@ == single_pair(c[i as int]@, c[j as int]@));
                        assert forall|k: int| 0 <= k < before.len() implies #[trigger] before[k]@ != set@ by {
                            assert(set_views(before).contains(before[k]@));
                            let (k1, l1) = choose|k1: int, l1: int| #![trigger c[k1], c[l1]]
                                0 <= k1 < c.len() && 0 <= l1 < c.len() && (k1 < i || (k1 == i && l1 < j))
                                && single_candidate(provider, c[k1]@, c[l1]@) && before[k]@ == single_pair(c[k1]@, c[l1]@);
                            if before[k]@ == set@ {
                                assert(before[k]@.0.contains(c[k1]@));
                                assert(set@.0.contains(c[k1]@));
                                assert(c[k1]@ == c[i as int]@);
                                assert(before[k]@.1.contains(c[l1]@));
                                assert(c[l1]@ == c[j as int]@);
                                if k1 != i {
                                    assert(c[k1 as int]@ != c[i as int]@);
                                }
                                if l1 != j {
                                    if l1 < j {
                                        assert(c[l1]@ != c[j as int]@);
                                    }
                                }
                            }
                        }
                    }
                    sets.push(set);
                    proof {
                        lemma_set_views_push(before, set);
                        assert(set_views(sets@) =~= singles_before(provider, c, i as int, j + 1)) by {
                            assert(single_candidate(provider, c[i as int]@, c[j as int]@));
                            assert(singles_before(provider, c, i as int, j + 1).contains(set@));
                        }
                    }
                } else {
                    proof {
                        assert(!single_candidate(provider, c[i as int]@, c[j as int]@));
                        assert(set_views(sets@) =~= singles_before(provider, c, i as int, j + 1)) by {
                            assert forall|x: ClassSets| singles_before(provider, c, i as int, j + 1).contains(x)
                                implies singles_before(provider, c, i as int, j as int).contains(x) by {
                                let (k1, l1) = choose|k1: int, l1: int| #![trigger c[k1], c[l1]]
                                    0 <= k1 < c.len() && 0 <= l1 < c.len() && (k1 < i || (k1 == i && l1 < j + 1))
                                    && single_candidate(provider, c[k1]@, c[l1]@) && x == single_pair(c[k1]@, c[l1]@);
                            }
                        }
                    }
                }
                j = j + 1;
            }
            proof {
                assert(set_views(sets@) =~= singles_before(provider, c, i + 1, 0)) by {
                    assert forall|x: ClassSets| singles_before(provider, c, i + 1, 0).contains(x)
                        implies singles_before(provider, c, i as int, c.len() as int).contains(x) by {
                        let (k1, l1) = choose|k1: int, l1: int| #![trigger c[k1], c[l1]]
                            0 <= k1 < c.len() && 0 <= l1 < c.len() && (k1 < i + 1 || (k1 == i + 1 && l1 < 0))
                            && single_candidate(provider, c[k1]@, c[l1]@) && x == single_pair(c[k1]@, c[l1]@);
                    }
                }
            }
        } else {
            proof {
                assert(set_views(sets@) =~= singles_before(provider, c, i + 1, 0)) by {
                    assert forall|x: ClassSets| singles_before(provider, c, i + 1, 0).contains(x)
                        implies singles_before(provider, c, i as int, 0).contains(x) by {
                        let (k1, l1) = choose|k1: int, l1: int| #![trigger c[k1], c[l1]]
                            0 <= k1 < c.len() && 0 <= l1 < c.len() && (k1 < i + 1 || (k1 == i + 1 && l1 < 0))
                            && single_candidate(provider, c[k1]@, c[l1]@) && x == single_pair(c[k1]@, c[l1]@);
                        if k1 == i {
                            assert(!single_candidate(provider, c[k1]@, c[l1]@));
                        }
                    }
                }
            }
        }
        i = i + 1;
    }
    proof {
        lemma_single_pairs(provider);
    }
    sets
}

/// Whether one of the alpha sets has the classes of `set`.
fn contains_set(sets: &Vec<AlphaSet>, set: &AlphaSet) -> (res: bool)
    ensures
        res == set_views(sets@).contains(set@),
{
    let mut i: usize = 0;
    while i < sets.len()
        invariant
            i <= sets@.len(),
            forall|k: int| 0 <= k < i ==> #[trigger] sets@[k]@ != set@,
        decreases sets@.len() - i,
    {
        if sets[i].same_as(set) {
            assert(sets@[i as int]@ == set@);
            return true;
        }
        i = i + 1;
    }
    false
}

proof fn lemma_merge_is_alpha_pair<P: AlphaRelationsProvider>(p: &P, x: ClassSets, y: ClassSets)
    requires
        is_alpha_pair(p, x),
        is_alpha_pair(p, y),
        relations_hold(p, x.0 + y.0, x.1 + y.1),
    ensures
        is_alpha_pair(p, merged(x, y)),
        class_universe(p).contains(merged(x, y)),
{
    vstd::set_lib::lemma_len_subset(x.0, x.0 + y.0);
    vstd::set_lib::lemma_len_subset(x.1, x.1 + y.1);
}

/// The alpha sets, all alpha pairs and no two alike, are no more than the
/// class sets there are.
proof fn lemma_sets_bounded<P: AlphaRelationsProvider>(p: &P, v: Seq<AlphaSet>)
    requires
        distinct_sets(v),
        forall|k: int| 0 <= k < v.len() ==> is_alpha_pair(p, #[trigger] v[k]@),
    ensures
        v.len() <= class_universe(p).len(),
        class_universe(p).finite(),
{
    lemma_class_universe_finite(p);
    lemma_distinct_sets_len(v);
    assert(set_views(v).subset_of(class_universe(p))) by {
        assert forall|x: ClassSets| set_views(v).contains(x) implies class_universe(p).contains(x) by {
            let k = choose|k: int| 0 <= k < v.len() && #[trigger] v[k]@ == x;
            assert(is_alpha_pair(p, v[k]@));
        }
    }
    vstd::set_lib::lemma_len_subset(set_views(v), class_universe(p));
}

/// Adds the merge of every two mergeable sets until nothing new comes: the
/// result holds the given sets and is closed under merging.
fn maximize_sets<P: AlphaRelationsProvider>(current_sets: Vec<AlphaSet>, provider: &P) -> (res: Vec<AlphaSet>)
    requires
        distinct_sets(current_sets@),
        forall|k: int| 0 <= k < current_sets@.len() ==> is_alpha_pair(provider, #[trigger] current_sets@[k]@),
    ensures
        distinct_sets(res@),
        forall|k: int| 0 <= k < res@.len() ==> is_alpha_pair(provider, #[trigger] res@[k]@),
        set_views(current_sets@).subset_of(set_views(res@)),
        closed_under_merge(provider, set_views(res@)),
{
    let ghost initial = current_sets@;
    let mut current = current_sets;
    proof {
        lemma_sets_bounded(provider, current@);
    }
    loop
        invariant
            distinct_sets(current@),
            forall|k: int| 0 <= k < current@.len() ==> is_alpha_pair(provider, #[trigger] current@[k]@),
            set_views(initial).subset_of(set_views(current@)),
            current@.len() <= class_universe(provider).len(),
            class_universe(provider).finite(),
        ensures
            closed_under_merge(provider, set_views(current@)),
        decreases class_universe(provider).len() - current@.len(),
    {
        let n = current.len();
        let ghost snapshot = current@;
        let mut added = false;
        let mut i: usize = 0;
        while i < n
            invariant
                i <= n,
                n == snapshot.len(),
                current@.len() >= n,
                forall|k: int| 0 <= k < n ==> current@[k] == snapshot[k],
                added == (current@.len() > n),
                distinct_sets(current@),
                forall|k: int| 0 <= k < current@.len() ==> is_alpha_pair(provider, #[trigger] current@[k]@),
                set_views(initial).subset_of(set_views(current@)),
                set_views(snapshot).subset_of(set_views(current@)),
                forall|k: int, l: int| 0 <= k < i && 0 <= l < n && #[trigger] mergeable(provider, snapshot[k]@, snapshot[l]@)
                    ==> set_views(current@).contains(merged(snapshot[k]@, snapshot[l]@)),
            decreases n - i,
        {
            let mut j: usize = 0;
            while j < n
                invariant
                    i < n,
                    j <= n,
                    n == snapshot.len(),
                    current@.len() >= n,
                    forall|k: int| 0 <= k < n ==> current@[k] == snapshot[k],
                    added == (current@.len() > n),
                    distinct_sets(current@),
                    forall|k: int| 0 <= k < current@.len() ==> is_alpha_pair(provider, #[trigger] current@[k]@),
                    set_views(initial).subset_of(set_views(current@)),
                    set_views(snapshot).subset_of(set_views(current@)),
                    forall|k: int, l: int| 0 <= k < i && 0 <= l < n && #[trigger] mergeable(provider, snapshot[k]@, snapshot[l]@)
                        ==> set_views(current@).contains(merged(snapshot[k]@, snapshot[l]@)),
                    forall|l: int| 0 <= l < j && #[trigger] mergeable(provider, snapshot[i as int]@, snapshot[l]@)
                        ==> set_views(current@).contains(merged(snapshot[i as int]@, snapshot[l]@)),
                decreases n - j,
            {
                let should_extend = (current[i].is_left_subset(&current[j]) || current[i].is_right_subset(&current[j]))
                    && current[i].can_extend(&current[j], provider);
                if should_extend {
                    let extended = current[i].extend(&current[j]);
                    proof {
                        assert(extended@ == merged(snapshot[i as int]@, snapshot[j as int]@));
                        lemma_merge_is_alpha_pair(provider, snapshot[i as int]@, snapshot[j as int]@);
                    }
                    if !contains_set(&current, &extended) {
                        let ghost before = current@;
                        proof {
                            assert forall|k: int| 0 <= k < before.len() implies #[trigger] before[k]@ != extended@ by {
                                if before[k]@ == extended@ {
                                    assert(set_views(before).contains(before[k]@));
                                }
                            }
                        }
                        current.push(extended);
                        added = true;
                        proof {
                            lemma_set_views_push(before, extended);
                            assert(current@[before.len() as int] == extended);
                            assert forall|k: int| 0 <= k < current@.len() implies is_alpha_pair(provider, #[trigger] current@[k]@) by {
                                if k < before.len() {
                                    assert(current@[k] == before[k]);
                                }
                            }
                            assert(distinct_sets(current@)) by {
                                assert forall|a: int, b: int| 0 <= a < b < current@.len() implies
                                    #[trigger] current@[a]@ != #[trigger] current@[b]@ by {
                                    assert(current@[a] == before[a]);
                                    if b < before.len() {
                                        assert(current@[b] == before[b]);
                                    }
                                }
                            }
                        }
                    }
                }
                proof {
                    assert(should_extend == mergeable(provider, snapshot[i as int]@, snapshot[j as int]@));
                }
                j = j + 1;
            }
            i = i + 1;
        }
        proof {
            lemma_sets_bounded(provider, current@);
        }
        if !added {
            proof {
                assert(current@ =~= snapshot);
                assert forall|x: ClassSets, y: ClassSets| set_views(current@).contains(x) && set_views(current@).contains(y)
                    && #[trigger] mergeable(provider, x, y) implies set_views(current@).contains(merged(x, y)) by {
                    let k = choose|k: int| 0 <= k < current@.len() && #[trigger] current@[k]@ == x;
                    let l = choose|l: int| 0 <= l < current@.len() && #[trigger] current@[l]@ == y;
                    assert(mergeable(provider, snapshot[k]@, snapshot[l]@));
                }
            }
            break;
        }
    }
    current
}

/// The class sets of the referenced alpha sets.
pub open spec fn ref_set_views(v: Seq<&AlphaSet>) -> Set<ClassSets> {
    Set::new(|x: ClassSets| exists|i: int| 0 <= i < v.len() && #[trigger] v[i]@ == x)
}

/// No two of the referenced alpha sets have the same classes.
pub open spec fn distinct_ref_sets(v: Seq<&AlphaSet>) -> bool {
    forall|i: int, j: int| 0 <= i < j < v.len() ==> #[trigger] v[i]@ != #[trigger] v[j]@
}

/// The class sets of `s` that no other one of `s` contains on both sides.
pub open spec fn maximal_in(s: Set<ClassSets>) -> Set<ClassSets> {
    Set::new(|x: ClassSets| s.contains(x) && forall|y: ClassSets| #[trigger] s.contains(y) && x.0.subset_of(y.0) && x.1.subset_of(y.1) ==> y == x)
}

/// The sets that no other set contains on both sides, in their order.
fn filter_out_non_maximal_sets(current_sets: &Vec<AlphaSet>) -> (res: Vec<&AlphaSet>)
    requires
        distinct_sets(current_sets@),
    ensures
        ref_set_views(res@) == maximal_in(set_views(current_sets@)),
        distinct_ref_sets(res@),
{
    let ghost s = set_views(current_sets@);
    let mut res: Vec<&AlphaSet> = Vec::new();
    let mut i: usize = 0;
    while i < current_sets.len()
        invariant
            i <= current_sets@.len(),
            s == set_views(current_sets@),
            distinct_sets(current_sets@),
            distinct_ref_sets(res@),
            ref_set_views(res@) == maximal_in(s).intersect(set_views(current_sets@.take(i as int))),
        decreases current_sets@.len() - i,
    {
        let mut is_maximal = true;
        let mut j: usize = 0;
        while j < current_sets.len() && is_maximal
            invariant
                i < current_sets@.len(),
                j <= current_sets@.len(),
                is_maximal == forall|l: int| 0 <= l < j ==> !(#[trigger] current_sets@[l]@ != current_sets@[i as int]@
                    && current_sets@[i as int]@.0.subset_of(current_sets@[l]@.0) && current_sets@[i as int]@.1.subset_of(current_sets@[l]@.1)),
            decreases current_sets@.len() - j,
        {
            if !current_sets[i].same_as(&current_sets[j]) && current_sets[i].is_full_subset(&current_sets[j]) {
                is_maximal = false;
            }
            j = j + 1;
        }
        let ghost x = current_sets@[i as int]@;
        proof {
            assert(s.contains(x));
            if is_maximal {
                assert forall|y: ClassSets| #[trigger] s.contains(y) && x.0.subset_of(y.0) && x.1.subset_of(y.1) implies y == x by {
                    let l = choose|l: int| 0 <= l < current_sets@.len() && #[trigger] current_sets@[l]@ == y;
                    assert(!(current_sets@[l]@ != x && x.0.subset_of(current_sets@[l]@.0) && x.1.subset_of(current_sets@[l]@.1)));
                }
                assert(maximal_in(s).contains(x));
            } else {
                let l = choose|l: int| 0 <= l < j && !(!(#[trigger] current_sets@[l]@ != current_sets@[i as int]@
                    && current_sets@[i as int]@.0.subset_of(current_sets@[l]@.0) && current_sets@[i as int]@.1.subset_of(current_sets@[l]@.1)));
                assert(s.contains(current_sets@[l]@));
                assert(!maximal_in(s).contains(x));
            }
            assert(set_views(current_sets@.take(i + 1)) =~= set_views(current_sets@.take(i as int)).insert(x)) by {
                let t0 = current_sets@.take(i as int);
                let t1 = current_sets@.take(i + 1);
                assert(t1 =~= t0.push(current_sets@[i as int]));
                lemma_set_views_push(t0, current_sets@[i as int]);
            }
        }
        if is_maximal {
            let ghost before = res@;
            res.push(&current_sets[i]);
            proof {
                assert forall|k: int| 0 <= k < before.len() implies #[trigger] before[k]@ != x by {
                    let t0 = current_sets@.take(i as int);
                    assert(ref_set_views(before).contains(before[k]@));
                    assert(set_views(t0).contains(before[k]@));
                    let m = choose|m: int| 0 <= m < t0.len() && #[trigger] t0[m]@ == before[k]@;
                    assert(current_sets@[m]@ != current_sets@[i as int]@);
                }
                assert(distinct_ref_sets(res@)) by {
                    assert forall|a: int, b: int| 0 <= a < b < res@.len() implies #[trigger] res@[a]@ != #[trigger] res@[b]@ by {
                        assert(res@[a] == before[a]);
                        if b < before.len() {
                            assert(res@[b] == before[b]);
                        }
                    }
                }
                assert(ref_set_views(res@) =~= ref_set_views(before).insert(x)) by {
                    assert forall|y: ClassSets| ref_set_views(res@).contains(y) implies ref_set_views(before).insert(x).contains(y) by {
                        let k = choose|k: int| 0 <= k < res@.len() && #[trigger] res@[k]@ == y;
                        if k < before.len() {
                            assert(before[k]@ == y);
                        }
                    }
                    assert forall|y: ClassSets| ref_set_views(before).insert(x).contains(y) implies ref_set_views(res@).contains(y) by {
                        if y == x {
                            assert(res@[before.len() as int]@ == x);
                        } else {
                            let k = choose|k: int| 0 <= k < before.len() && #[trigger] before[k]@ == y;
                            assert(res@[k]@ == y);
                        }
                    }
                }
                assert(maximal_in(s).intersect(set_views(current_sets@.take(i + 1)))
                    =~= maximal_in(s).intersect(set_views(current_sets@.take(i as int))).insert(x));
            }
        } else {
            proof {
                assert(ref_set_views(res@) =~= maximal_in(s).intersect(set_views(current_sets@.take(i + 1))));
            }
        }
        i = i + 1;
    }
    proof {
        assert(current_sets@.take(current_sets@.len() as int) =~= current_sets@);
        assert(maximal_in(s).intersect(s) =~= maximal_in(s));
    }
    res
}

/// The ids of the places at the other end of the arcs, in order.
pub open spec fn arc_place_ids(arcs: Seq<Arc>) -> Seq<u64> {
    Seq::new(arcs.len(), |i: int| arcs[i].place_id)
}

/// The one id when the class is in the set, none otherwise.
pub open spec fn id_if_member(s: Set<Seq<char>>, class: Seq<char>, id: u64) -> Seq<u64> {
    if s.contains(class) {
        seq![id]
    } else {
        Seq::empty()
    }
}

/// The ids of the first `n` places whose alpha set has `class` on its left
/// side (`left`) or on its right side.
pub open spec fn alpha_place_ids(places: Seq<Place>, sets: Seq<ClassSets>, class: Seq<char>, left: bool, n: int) -> Seq<u64>
    decreases n,
{
    if n <= 0 {
        Seq::empty()
    } else {
        alpha_place_ids(places, sets, class, left, n - 1) + id_if_member(
            if left { sets[n - 1].0 } else { sets[n - 1].1 },
            class,
            places[n - 1].id,
        )
    }
}

/// Every arc of the transition moves one token.
pub open spec fn unit_arcs(t: Transition) -> bool {
    &&& forall|i: int| 0 <= i < t.incoming_arcs@.len() ==> #[trigger] t.incoming_arcs@[i].tokens_count == 1
    &&& forall|i: int| 0 <= i < t.outgoing_arcs@.len() ==> #[trigger] t.outgoing_arcs@[i].tokens_count == 1
}

/// The transition stands for the class: visible, named after it and holding it.
pub open spec fn class_transition(t: Transition, class: String, id: int) -> bool {
    &&& t.id == id
    &&& t.name == class
    &&& t.data == Some(class)
    &&& !t.is_silent
    &&& unit_arcs(t)
}

/// The marking with one token in the place.
pub open spec fn one_token_in(m: Option<Marking>, place_id: u64) -> bool {
    m is Some && m->0.active_places@ == seq![SingleMarking { place_id, tokens_count: 1 }]
}

/// The net that the alpha algorithm builds for the log and the alpha sets:
/// one transition per class, in the order of the classes; one place per
/// alpha set, named after it, that the transitions of its left classes feed
/// and that feeds the transitions of its right classes; then a start place
/// that feeds the transitions of the start classes and holds the initial
/// token, and an end place that the transitions of the end classes feed and
/// that holds the final token.
pub open spec fn is_alpha_net(info: EventLogInfo, sets: Seq<ClassSets>, net: PetriNet) -> bool {
    let classes = info.event_classes@;
    let n = sets.len() as int;
    &&& net.transitions@.len() == classes.len()
    &&& net.places@.len() == n + 2
    &&& forall|m: int| 0 <= m < n ==> (#[trigger] net.places@[m]).name@ == alpha_name(sets[m])
    &&& net.places@[n].name@ == "StartPlace"@
    &&& net.places@[n + 1].name@ == "EndPlace"@
    &&& forall|k: int| 0 <= k < classes.len() ==> class_transition(#[trigger] net.transitions@[k], classes[k], k)
    &&& forall|k: int| 0 <= k < classes.len() ==> arc_place_ids(#[trigger] net.transitions@[k].outgoing_arcs@)
        == alpha_place_ids(net.places@, sets, classes[k]@, true, n)
            + id_if_member(string_set(info.end_classes@), classes[k]@, net.places@[n + 1].id)
    &&& forall|k: int| 0 <= k < classes.len() ==> arc_place_ids(#[trigger] net.transitions@[k].incoming_arcs@)
        == alpha_place_ids(net.places@, sets, classes[k]@, false, n)
            + id_if_member(string_set(info.start_classes@), classes[k]@, net.places@[n].id)
    &&& one_token_in(net.initial_marking, net.places@[n].id)
    &&& one_token_in(net.final_marking, net.places@[n + 1].id)
}

/// The transitions are the classes' ones, the `k`-th with id `k`.
pub open spec fn class_transitions(net: PetriNet, classes: Seq<String>) -> bool {
    &&& net.transitions@.len() == classes.len()
    &&& forall|k: int| 0 <= k < classes.len() ==> class_transition(#[trigger] net.transitions@[k], classes[k], k)
}

proof fn lemma_transition_index(net: PetriNet, classes: Seq<String>, k: int)
    requires
        class_transitions(net, classes),
        0 <= k < classes.len(),
    ensures
        net.has_transition(k as u64),
        net.transition_index(k as u64) == k,
{
    assert(class_transition(net.transitions@[k], classes[k], k));
    assert(net.transitions@[k].id == k as u64);
    let i = net.transition_index(k as u64);
    assert(forall|j: int| 0 <= j < k ==> class_transition(#[trigger] net.transitions@[j], classes[j], j));
    assert(0 <= i < net.transitions@.len() && net.transitions@[i].id == k as u64);
    assert(class_transition(net.transitions@[i], classes[i], i));
}

/// The index of the class among the classes.
fn class_index(classes: &Vec<String>, class: &String) -> (res: usize)
    requires
        string_set(classes@).contains(class@),
    ensures
        res < classes@.len(),
        classes@[res as int]@ == class@,
{
    let mut i: usize = 0;
    while i < classes.len()
        invariant
            i <= classes@.len(),
            string_set(classes@).contains(class@),
            forall|j: int| 0 <= j < i ==> classes@[j]@ != class@,
        decreases classes@.len() - i,
    {
        if classes[i] == *class {
            return i;
        }
        i = i + 1;
    }
    proof {
        let j = choose|j: int| 0 <= j < classes@.len() && classes@[j]@ == class@;
        assert(classes@[j]@ != class@);
    }
    0
}

/// Adds an arc between the place and the transition of each class of `which`:
/// from the transition to the place (`outgoing`) or back.
fn connect_classes(net: &mut PetriNet, classes: &Vec<String>, which: &Vec<String>, place_id: u64, outgoing: bool)
    requires
        class_transitions(*old(net), classes@),
        distinct_strings(classes@),
        distinct_strings(which@),
        string_set(which@).subset_of(string_set(classes@)),
    ensures
        class_transitions(*final(net), classes@),
        final(net).places == old(net).places,
        final(net).initial_marking == old(net).initial_marking,
        final(net).final_marking == old(net).final_marking,
        forall|k: int| 0 <= k < classes@.len() ==> arc_place_ids(#[trigger] final(net).transitions@[k].outgoing_arcs@)
            == arc_place_ids(old(net).transitions@[k].outgoing_arcs@)
                + (if outgoing { id_if_member(string_set(which@), classes@[k]@, place_id) } else { Seq::empty() }),
        forall|k: int| 0 <= k < classes@.len() ==> arc_place_ids(#[trigger] final(net).transitions@[k].incoming_arcs@)
            == arc_place_ids(old(net).transitions@[k].incoming_arcs@)
                + (if outgoing { Seq::empty() } else { id_if_member(string_set(which@), classes@[k]@, place_id) }),
{
    let ghost start = *net;
    let mut w: usize = 0;
    while w < which.len()
        invariant
            w <= which@.len(),
            class_transitions(*net, classes@),
            distinct_strings(classes@),
            distinct_strings(which@),
            string_set(which@).subset_of(string_set(classes@)),
            net.transitions@.len() == start.transitions@.len(),
            net.places == start.places,
            net.initial_marking == start.initial_marking,
            net.final_marking == start.final_marking,
            forall|k: int| 0 <= k < classes@.len() ==> arc_place_ids(#[trigger] net.transitions@[k].outgoing_arcs@)
                == arc_place_ids(start.transitions@[k].outgoing_arcs@)
                    + (if outgoing { id_if_member(string_set(which@.take(w as int)), classes@[k]@, place_id) } else { Seq::empty() }),
            forall|k: int| 0 <= k < classes@.len() ==> arc_place_ids(#[trigger] net.transitions@[k].incoming_arcs@)
                == arc_place_ids(start.transitions@[k].incoming_arcs@)
                    + (if outgoing { Seq::empty() } else { id_if_member(string_set(which@.take(w as int)), classes@[k]@, place_id) }),
        decreases which@.len() - w,
    {
        proof {
            assert(string_set(which@).contains(which@[w as int]@));
        }
        let k = class_index(classes, &which[w]);
        let ghost before = *net;
        proof {
            lemma_transition_index(before, classes@, k as int);
        }
        if outgoing {
            net.connect_transition_to_place(k as u64, place_id);
        } else {
            net.connect_place_to_transition(place_id, k as u64);
        }
        proof {
            let t0 = which@.take(w as int);
            let t1 = which@.take(w + 1);
            assert(t1 =~= t0.push(which@[w as int]));
            assert forall|c: Seq<char>| #[trigger] string_set(t1).contains(c) == (string_set(t0).contains(c) || c == which@[w as int]@) by {
                if string_set(t1).contains(c) {
                    let q = choose|q: int| 0 <= q < t1.len() && t1[q]@ == c;
                    if q < w {
                        assert(t0[q]@ == c);
                    }
                }
                if string_set(t0).contains(c) {
                    let q = choose|q: int| 0 <= q < t0.len() && t0[q]@ == c;
                    assert(t1[q]@ == c);
                }
                if c == which@[w as int]@ {
                    assert(t1[w as int]@ == c);
                }
            }
            assert(!string_set(t0).contains(which@[w as int]@)) by {
                if string_set(t0).contains(which@[w as int]@) {
                    let q = choose|q: int| 0 <= q < t0.len() && t0[q]@ == which@[w as int]@;
                    assert(which@[q]@ != which@[w as int]@);
                }
            }
            assert(class_transitions(*net, classes@)) by {
                assert forall|j: int| 0 <= j < classes@.len() implies class_transition(#[trigger] net.transitions@[j], classes@[j], j) by {
                    assert(class_transition(before.transitions@[j], classes@[j], j));
                    if j == k {
                        let t = net.transitions@[j];
                        assert forall|i: int| 0 <= i < t.incoming_arcs@.len() implies #[trigger] t.incoming_arcs@[i].tokens_count == 1 by {
                            if i < before.transitions@[j].incoming_arcs@.len() {
                                assert(t.incoming_arcs@[i] == before.transitions@[j].incoming_arcs@[i]);
                            }
                        }
                        assert forall|i: int| 0 <= i < t.outgoing_arcs@.len() implies #[trigger] t.outgoing_arcs@[i].tokens_count == 1 by {
                            if i < before.transitions@[j].outgoing_arcs@.len() {
                                assert(t.outgoing_arcs@[i] == before.transitions@[j].outgoing_arcs@[i]);
                            }
                        }
                    }
                }
            }
            assert forall|j: int| 0 <= j < classes@.len() implies arc_place_ids(#[trigger] net.transitions@[j].outgoing_arcs@)
                == arc_place_ids(start.transitions@[j].outgoing_arcs@)
                    + (if outgoing { id_if_member(string_set(t1), classes@[j]@, place_id) } else { Seq::empty() }) by {
                let b = before.transitions@[j].outgoing_arcs@;
                let a = net.transitions@[j].outgoing_arcs@;
                if j == k && outgoing {
                    assert(arc_place_ids(a) =~= arc_place_ids(b).push(place_id));
                    assert(classes@[j]@ == which@[w as int]@);
                } else {
                    if j != k {
                        assert(classes@[j]@ != which@[w as int]@) by {
                            if j < k {
                                assert(classes@[j]@ != classes@[k as int]@);
                            } else {
                                assert(classes@[k as int]@ != classes@[j]@);
                            }
                        }
                    }
                    assert(arc_place_ids(a) =~= arc_place_ids(b));
                }
            }
            assert forall|j: int| 0 <= j < classes@.len() implies arc_place_ids(#[trigger] net.transitions@[j].incoming_arcs@)
                == arc_place_ids(start.transitions@[j].incoming_arcs@)
                    + (if outgoing { Seq::empty() } else { id_if_member(string_set(t1), classes@[j]@, place_id) }) by {
                let b = before.transitions@[j].incoming_arcs@;
                let a = net.transitions@[j].incoming_arcs@;
                if j == k && !outgoing {
                    assert(arc_place_ids(a) =~= arc_place_ids(b).push(place_id));
                    assert(classes@[j]@ == which@[w as int]@);
                } else {
                    if j != k {
                        assert(classes@[j]@ != which@[w as int]@) by {
                            if j < k {
                                assert(classes@[j]@ != classes@[k as int]@);
                            } else {
                                assert(classes@[k as int]@ != classes@[j]@);
                            }
                        }
                    }
                    assert(arc_place_ids(a) =~= arc_place_ids(b));
                }
            }
        }
        w = w + 1;
    }
    proof {
        assert(which@.take(which@.len() as int) =~= which@);
    }
}

/// The ids of the first `n` places whose alpha set has `class` on the chosen
/// side: of the indices below `n`, those whose set holds the class, in
/// order, each taken to its place's id.
pub proof fn lemma_alpha_place_ids_filter(places: Seq<Place>, sets: Seq<ClassSets>, class: Seq<char>, left: bool, n: int)
    requires
        0 <= n,
    ensures
        alpha_place_ids(places, sets, class, left, n)
            == Seq::new(n as nat, |i: int| i).filter(|i: int| (if left { sets[i].0 } else { sets[i].1 }).contains(class))
                .map_values(|i: int| places[i].id),
    decreases n,
{
    reveal(Seq::filter);
    if n > 0 {
        lemma_alpha_place_ids_filter(places, sets, class, left, n - 1);
        let idx = Seq::new(n as nat, |i: int| i);
        let p = |i: int| (if left { sets[i].0 } else { sets[i].1 }).contains(class);
        let f = |i: int| places[i].id;
        assert(idx.drop_last() =~= Seq::new((n - 1) as nat, |i: int| i));
        let rest = idx.drop_last().filter(p);
        assert(idx.last() == n - 1);
        assert(idx.filter(p) == (if p(n - 1) { rest.push(n - 1) } else { rest }));
        if p(n - 1) {
            assert(rest.push(n - 1).map_values(f) =~= rest.map_values(f) + seq![places[n - 1].id]);
        } else {
            assert(rest.map_values(f) =~= rest.map_values(f) + Seq::<u64>::empty());
        }
    }
}

proof fn lemma_alpha_place_ids_prefix(p1: Seq<Place>, p2: Seq<Place>, sets: Seq<ClassSets>, class: Seq<char>, left: bool, n: int)
    requires
        forall|q: int| 0 <= q < n ==> p1[q].id == p2[q].id,
    ensures
        alpha_place_ids(p1, sets, class, left, n) == alpha_place_ids(p2, sets, class, left, n),
    decreases n,
{
    if n > 0 {
        lemma_alpha_place_ids_prefix(p1, p2, sets, class, left, n - 1);
    }
}

proof fn lemma_sorted_distinct(v: Seq<String>)
    requires
        strictly_sorted(views(v)),
    ensures
        distinct_strings(v),
{
    assert forall|i: int, j: int| 0 <= i < j < v.len() implies v[i]@ != v[j]@ by {
        assert(views(v)[i] == v[i]@ && views(v)[j] == v[j]@);
        lemma_string_order(v[i]@, v[j]@, v[j]@);
    }
}

/// The net with a transition per class, a place per alpha set, and the start
/// and end places.
fn create_petri_net(info: &EventLogInfo, alpha_sets: Vec<&AlphaSet>) -> (res: DefaultPetriNet)
    requires
        info.wf(),
        forall|m: int| 0 <= m < alpha_sets@.len() ==> (#[trigger] alpha_sets@[m])@.0.subset_of(string_set(info.event_classes@))
            && alpha_sets@[m]@.1.subset_of(string_set(info.event_classes@)),
    ensures
        is_alpha_net(*info, Seq::new(alpha_sets@.len(), |m: int| alpha_sets@[m]@), res),
{
    let ghost sets = Seq::new(alpha_sets@.len(), |m: int| alpha_sets@[m]@);
    let mut petri_net = PetriNet::empty();
    let classes = info.all_event_classes();
    let mut i: usize = 0;
    while i < classes.len()
        invariant
            i <= classes@.len(),
            classes@ == info.event_classes@,
            petri_net.transitions@.len() == i,
            petri_net.next_id == i as u64,
            petri_net.places@.len() == 0,
            petri_net.initial_marking is None,
            petri_net.final_marking is None,
            forall|k: int| 0 <= k < i ==> class_transition(#[trigger] petri_net.transitions@[k], classes@[k], k),
            forall|k: int| 0 <= k < i ==> (#[trigger] petri_net.transitions@[k]).incoming_arcs@.len() == 0
                && petri_net.transitions@[k].outgoing_arcs@.len() == 0,
        decreases classes@.len() - i,
    {
        let ghost before = petri_net.transitions@;
        petri_net.add_transition(classes[i].clone(), false, Some(classes[i].clone()));
        proof {
            assert forall|k: int| 0 <= k < i + 1 implies class_transition(#[trigger] petri_net.transitions@[k], classes@[k], k)
                && petri_net.transitions@[k].incoming_arcs@.len() == 0 && petri_net.transitions@[k].outgoing_arcs@.len() == 0 by {
                if k < i {
                    assert(petri_net.transitions@[k] == before[k]);
                    assert(class_transition(before[k], classes@[k], k));
                }
            }
        }
        i = i + 1;
    }
    proof {
        assert forall|k: int| 0 <= k < classes@.len() implies arc_place_ids(#[trigger] petri_net.transitions@[k].outgoing_arcs@)
            == alpha_place_ids(petri_net.places@, sets, classes@[k]@, true, 0) by {
            assert(arc_place_ids(petri_net.transitions@[k].outgoing_arcs@) =~= Seq::empty());
        }
        assert forall|k: int| 0 <= k < classes@.len() implies arc_place_ids(#[trigger] petri_net.transitions@[k].incoming_arcs@)
            == alpha_place_ids(petri_net.places@, sets, classes@[k]@, false, 0) by {
            assert(arc_place_ids(petri_net.transitions@[k].incoming_arcs@) =~= Seq::empty());
        }
    }
    let mut m: usize = 0;
    while m < alpha_sets.len()
        invariant
            m <= alpha_sets@.len(),
            sets == Seq::new(alpha_sets@.len(), |m: int| alpha_sets@[m]@),
            info.wf(),
            classes@ == info.event_classes@,
            forall|q: int| 0 <= q < alpha_sets@.len() ==> (#[trigger] alpha_sets@[q])@.0.subset_of(string_set(info.event_classes@))
                && alpha_sets@[q]@.1.subset_of(string_set(info.event_classes@)),
            class_transitions(petri_net, classes@),
            petri_net.places@.len() == m,
            forall|q: int| 0 <= q < m ==> (#[trigger] petri_net.places@[q]).name@ == alpha_name(sets[q]),
            petri_net.initial_marking is None,
            petri_net.final_marking is None,
            forall|k: int| 0 <= k < classes@.len() ==> arc_place_ids(#[trigger] petri_net.transitions@[k].outgoing_arcs@)
                == alpha_place_ids(petri_net.places@, sets, classes@[k]@, true, m as int),
            forall|k: int| 0 <= k < classes@.len() ==> arc_place_ids(#[trigger] petri_net.transitions@[k].incoming_arcs@)
                == alpha_place_ids(petri_net.places@, sets, classes@[k]@, false, m as int),
        decreases alpha_sets@.len() - m,
    {
        let ghost places_before = petri_net.places@;
        let place_id = petri_net.add_place(alpha_sets[m].to_string());
        let left = alpha_sets[m].left_classes();
        let right = alpha_sets[m].right_classes();
        proof {
            lemma_sorted_distinct(left@);
            lemma_sorted_distinct(right@);
            assert(sets[m as int] == alpha_sets@[m as int]@);
            assert forall|k: int| 0 <= k < classes@.len() implies
                alpha_place_ids(petri_net.places@, sets, classes@[k]@, true, m as int)
                    == alpha_place_ids(places_before, sets, classes@[k]@, true, m as int)
                && alpha_place_ids(petri_net.places@, sets, classes@[k]@, false, m as int)
                    == alpha_place_ids(places_before, sets, classes@[k]@, false, m as int) by {
                lemma_alpha_place_ids_prefix(petri_net.places@, places_before, sets, classes@[k]@, true, m as int);
                lemma_alpha_place_ids_prefix(petri_net.places@, places_before, sets, classes@[k]@, false, m as int);
            }
        }
        let ghost after_place = petri_net;
        connect_classes(&mut petri_net, classes, left, place_id, true);
        connect_classes(&mut petri_net, classes, right, place_id, false);
        proof {
            assert(petri_net.places@[m as int].id == place_id);
            assert forall|q: int| 0 <= q < m + 1 implies (#[trigger] petri_net.places@[q]).name@ == alpha_name(sets[q]) by {
                if q < m {
                    assert(petri_net.places@[q] == places_before[q]);
                }
            }
            assert forall|k: int| 0 <= k < classes@.len() implies arc_place_ids(#[trigger] petri_net.transitions@[k].outgoing_arcs@)
                == alpha_place_ids(petri_net.places@, sets, classes@[k]@, true, m + 1) by {
                assert(arc_place_ids(petri_net.transitions@[k].outgoing_arcs@)
                    == arc_place_ids(after_place.transitions@[k].outgoing_arcs@) + id_if_member(string_set(left@), classes@[k]@, place_id));
                assert(arc_place_ids(after_place.transitions@[k].outgoing_arcs@) =~= alpha_place_ids(petri_net.places@, sets, classes@[k]@, true, m as int));
            }
            assert forall|k: int| 0 <= k < classes@.len() implies arc_place_ids(#[trigger] petri_net.transitions@[k].incoming_arcs@)
                == alpha_place_ids(petri_net.places@, sets, classes@[k]@, false, m + 1) by {
                assert(arc_place_ids(petri_net.transitions@[k].incoming_arcs@)
                    =~= arc_place_ids(after_place.transitions@[k].incoming_arcs@) + id_if_member(string_set(right@), classes@[k]@, place_id));
            }
        }
        m = m + 1;
    }
    let n = alpha_sets.len();
    let ghost places_alpha = petri_net.places@;
    let start_place_id = petri_net.add_place("StartPlace".to_owned());
    let ghost after_start_place = petri_net;
    connect_classes(&mut petri_net, classes, info.start_event_classes(), start_place_id, false);
    let ghost after_start = petri_net;
    let end_place_id = petri_net.add_place("EndPlace".to_owned());
    connect_classes(&mut petri_net, classes, info.end_event_classes(), end_place_id, true);
    let mut initial: Vec<SingleMarking> = Vec::new();
    initial.push(SingleMarking::new(start_place_id, 1));
    petri_net.set_initial_marking(Marking::new(initial));
    let mut last: Vec<SingleMarking> = Vec::new();
    last.push(SingleMarking::new(end_place_id, 1));
    petri_net.set_final_marking(Marking::new(last));
    proof {
        assert(petri_net.places@[n as int].id == start_place_id);
        assert(petri_net.places@[n + 1].id == end_place_id);
        assert forall|k: int| 0 <= k < classes@.len() implies
            alpha_place_ids(petri_net.places@, sets, classes@[k]@, true, n as int)
                == alpha_place_ids(places_alpha, sets, classes@[k]@, true, n as int)
            && alpha_place_ids(petri_net.places@, sets, classes@[k]@, false, n as int)
                == alpha_place_ids(places_alpha, sets, classes@[k]@, false, n as int) by {
            lemma_alpha_place_ids_prefix(petri_net.places@, places_alpha, sets, classes@[k]@, true, n as int);
            lemma_alpha_place_ids_prefix(petri_net.places@, places_alpha, sets, classes@[k]@, false, n as int);
        }
        assert forall|q: int| 0 <= q < n implies (#[trigger] petri_net.places@[q]).name@ == alpha_name(sets[q]) by {
            assert(petri_net.places@[q] == places_alpha[q]);
        }
        assert forall|k: int| 0 <= k < classes@.len() implies arc_place_ids(#[trigger] petri_net.transitions@[k].outgoing_arcs@)
            == alpha_place_ids(petri_net.places@, sets, classes@[k]@, true, n as int)
                + id_if_member(string_set(info.end_classes@), classes@[k]@, petri_net.places@[n + 1].id) by {
            assert(arc_place_ids(after_start.transitions@[k].outgoing_arcs@) =~= arc_place_ids(after_start_place.transitions@[k].outgoing_arcs@));
        }
        assert forall|k: int| 0 <= k < classes@.len() implies arc_place_ids(#[trigger] petri_net.transitions@[k].incoming_arcs@)
            == alpha_place_ids(petri_net.places@, sets, classes@[k]@, false, n as int)
                + id_if_member(string_set(info.start_classes@), classes@[k]@, petri_net.places@[n as int].id) by {
            assert(arc_place_ids(petri_net.transitions@[k].incoming_arcs@) =~= arc_place_ids(after_start.transitions@[k].incoming_arcs@));
        }
        assert(petri_net.initial_marking->0.active_places@ =~= seq![SingleMarking { place_id: start_place_id, tokens_count: 1 }]);
        assert(petri_net.final_marking->0.active_places@ =~= seq![SingleMarking { place_id: end_place_id, tokens_count: 1 }]);
    }
    petri_net
}

/// The alpha pairs that become places: the maximal ones.
pub open spec fn maximal_alpha_pairs<P: AlphaRelationsProvider>(p: &P) -> Set<ClassSets> {
    Set::new(|x: ClassSets| is_maximal_alpha_pair(p, x))
}

/// The net of the alpha algorithm for the provider's relations: its places,
/// besides the start and end places, stand each for one maximal alpha pair,
/// and every maximal alpha pair has one.
pub open spec fn discovered_by_alpha<P: AlphaRelationsProvider>(p: &P, net: PetriNet) -> bool {
    exists|sets: Seq<ClassSets>| #[trigger] is_alpha_net(p.info(), sets, net)
        && sets.no_duplicates() && sets.to_set() == maximal_alpha_pairs(p)
}

/// The alpha sets that the first places of the net carry: entry `m` is the
/// id of place `m` with the `m`-th set.
pub open spec fn alpha_place_sets(net: PetriNet, sets: Seq<ClassSets>, place_sets: Seq<(u64, AlphaSet)>) -> bool {
    &&& place_sets.len() == sets.len()
    &&& forall|m: int| 0 <= m < sets.len() ==> (#[trigger] place_sets[m]).0 == net.places@[m].id && place_sets[m].1@ == sets[m]
}

/// The net of the alpha algorithm for the sets, which are the maximal alpha
/// pairs, each once, with the alpha set of each of its alpha places.
pub open spec fn alpha_net_with_sets<P: AlphaRelationsProvider>(p: &P, sets: Seq<ClassSets>, net: PetriNet, place_sets: Seq<(u64, AlphaSet)>) -> bool {
    &&& is_alpha_net(p.info(), sets, net)
    &&& sets.no_duplicates()
    &&& sets.to_set() == maximal_alpha_pairs(p)
    &&& alpha_place_sets(net, sets, place_sets)
}

/// A copy of the alpha set.
fn copy_alpha_set(set: &AlphaSet) -> (res: AlphaSet)
    ensures
        res@ == set@,
{
    let res = set.extend(&AlphaSet::empty());
    assert(res@ =~= set@);
    res
}

/// The alpha net with the alpha sets that its alpha places carry.
pub fn discover_alpha_net_with_sets<P: AlphaRelationsProvider>(provider: &P) -> (res: (DefaultPetriNet, Vec<(u64, AlphaSet)>))
    ensures
        exists|sets: Seq<ClassSets>| #[trigger] alpha_net_with_sets(provider, sets, res.0, res.1@),
{
    let initial_sets = create_initial_sets(provider);
    proof {
        assert forall|k: int| 0 <= k < initial_sets@.len() implies is_alpha_pair(provider, #[trigger] initial_sets@[k]@) by {
            assert(set_views(initial_sets@).contains(initial_sets@[k]@));
        }
    }
    let current_sets = maximize_sets(initial_sets, provider);
    let info = provider.log_info();
    let maximal = filter_out_non_maximal_sets(&current_sets);
    let ghost s = set_views(current_sets@);
    let ghost sets = Seq::new(maximal@.len(), |m: int| maximal@[m]@);
    proof {
        assert forall|y: ClassSets| #[trigger] is_single_alpha_pair(provider, y) implies s.contains(y) by {
            assert(set_views(initial_sets@).contains(y));
        }
        assert forall|x: ClassSets| s.contains(x) == is_alpha_pair(provider, x) by {
            if is_alpha_pair(provider, x) {
                lemma_closure_holds_all_alpha_pairs(provider, s, x);
            }
            if s.contains(x) {
                let k = choose|k: int| 0 <= k < current_sets@.len() && #[trigger] current_sets@[k]@ == x;
                assert(is_alpha_pair(provider, current_sets@[k]@));
            }
        }
        assert(maximal_in(s) =~= maximal_alpha_pairs(provider)) by {
            assert forall|x: ClassSets| maximal_in(s).contains(x) implies is_maximal_alpha_pair(provider, x) by {
                assert forall|y: ClassSets| #[trigger] is_alpha_pair(provider, y) && x.0.subset_of(y.0) && x.1.subset_of(y.1) implies y == x by {
                    assert(s.contains(y));
                }
            }
            assert forall|x: ClassSets| is_maximal_alpha_pair(provider, x) implies maximal_in(s).contains(x) by {
                assert forall|y: ClassSets| #[trigger] s.contains(y) && x.0.subset_of(y.0) && x.1.subset_of(y.1) implies y == x by {
                    assert(is_alpha_pair(provider, y));
                }
            }
        }
        assert(sets.no_duplicates()) by {
            assert forall|a: int, b: int| 0 <= a < sets.len() && 0 <= b < sets.len() && a != b implies sets[a] != sets[b] by {
                if a < b {
                    assert(maximal@[a]@ != maximal@[b]@);
                } else {
                    assert(maximal@[b]@ != maximal@[a]@);
                }
            }
        }
        assert(sets.to_set() =~= ref_set_views(maximal@)) by {
            assert forall|x: ClassSets| sets.to_set().contains(x) implies ref_set_views(maximal@).contains(x) by {
                let m = choose|m: int| 0 <= m < sets.len() && sets[m] == x;
                assert(maximal@[m]@ == x);
            }
            assert forall|x: ClassSets| ref_set_views(maximal@).contains(x) implies sets.to_set().contains(x) by {
                let m = choose|m: int| 0 <= m < maximal@.len() && #[trigger] maximal@[m]@ == x;
                assert(sets[m] == x);
            }
        }
        assert forall|m: int| 0 <= m < maximal@.len() implies (#[trigger] maximal@[m])@.0.subset_of(string_set(info.event_classes@))
            && maximal@[m]@.1.subset_of(string_set(info.event_classes@)) by {
            assert(ref_set_views(maximal@).contains(maximal@[m]@));
            assert(is_alpha_pair(provider, maximal@[m]@));
        }
    }
    let mut copies: Vec<AlphaSet> = Vec::new();
    let mut m: usize = 0;
    while m < maximal.len()
        invariant
            m <= maximal@.len(),
            copies@.len() == m,
            forall|q: int| 0 <= q < m ==> (#[trigger] copies@[q])@ == maximal@[q]@,
        decreases maximal@.len() - m,
    {
        copies.push(copy_alpha_set(maximal[m]));
        m = m + 1;
    }
    let res = create_petri_net(info, maximal);
    proof {
        assert(is_alpha_net(provider.info(), sets, res));
    }
    let mut place_sets: Vec<(u64, AlphaSet)> = Vec::new();
    let mut k: usize = 0;
    while k < copies.len()
        invariant
            k <= copies@.len(),
            copies@.len() == sets.len(),
            forall|q: int| 0 <= q < copies@.len() ==> (#[trigger] copies@[q])@ == sets[q],
            res.places@.len() == sets.len() + 2,
            place_sets@.len() == k,
            forall|q: int| 0 <= q < k ==> (#[trigger] place_sets@[q]).0 == res.places@[q].id && place_sets@[q].1@ == sets[q],
        decreases copies@.len() - k,
    {
        place_sets.push((res.places[k].id, copy_alpha_set(&copies[k])));
        k = k + 1;
    }
    proof {
        assert(alpha_net_with_sets(provider, sets, res, place_sets@));
    }
    let result = (res, place_sets);
    proof {
        assert(alpha_net_with_sets(provider, sets, result.0, result.1@));
    }
    result
}

/// Discovers a Petri net with the alpha algorithm from the provider's
/// relations: a transition per event class, a place per maximal alpha pair
/// (each once), and a start and an end place.
pub fn discover_petri_net_alpha<P: AlphaRelationsProvider>(provider: &P) -> (res: DefaultPetriNet)
    ensures
        discovered_by_alpha(provider, res),
{
    let (net, place_sets) = discover_alpha_net_with_sets(provider);
    proof {
        let sets = choose|sets: Seq<ClassSets>| #[trigger] alpha_net_with_sets(provider, sets, net, place_sets@);
        assert(is_alpha_net(provider.info(), sets, net));
    }
    net
}

/// The classes that directly follow themselves somewhere in the log.
pub open spec fn one_length_loop_classes(names: Seq<Seq<Seq<char>>>) -> Set<Seq<char>> {
    Set::new(|c: Seq<char>| exists|t: int, i: int| #![trigger names[t][i]]
        0 <= t < names.len() && 0 <= i && i + 1 < names[t].len() && names[t][i] == c && names[t][i + 1] == c)
}

/// The names of the events that some event of the same name directly
/// follows: the transitions of one-length loops. Every trace must hold an event.
pub fn find_transitions_one_length_loop(log: &SimpleEventLog) -> (res: Vec<String>)
    requires
        forall|t: int| 0 <= t < log.traces@.len() ==> (#[trigger] log.traces@[t]).events@.len() > 0,
    ensures
        distinct_strings(res@),
        string_set(res@) == one_length_loop_classes(log_names(*log)),
{
    let ghost names = log_names(*log);
    let mut one_loop_transitions: Vec<String> = Vec::new();
    let traces = log.traces();
    let mut t: usize = 0;
    proof {
        assert(string_set(one_loop_transitions@) =~= one_length_loop_classes(names.take(0)));
    }
    while t < traces.len()
        invariant
            t <= traces@.len(),
            traces@ == log.traces@,
            names == log_names(*log),
            forall|k: int| 0 <= k < log.traces@.len() ==> (#[trigger] log.traces@[k]).events@.len() > 0,
            distinct_strings(one_loop_transitions@),
            string_set(one_loop_transitions@) == one_length_loop_classes(names.take(t as int)),
        decreases traces@.len() - t,
    {
        let events = traces[t].events();
        let ghost tn = names[t as int];
        let ghost before = one_length_loop_classes(names.take(t as int));
        proof {
            assert(tn == events@.map_values(|e: SimpleEvent| e.name@));
            assert(log.traces@[t as int].events@.len() > 0);
        }
        let mut i: usize = 0;
        while i < events.len() - 1
            invariant
                events@.len() > 0,
                i <= events@.len() - 1,
                t < names.len(),
                tn == names[t as int],
                tn == events@.map_values(|e: SimpleEvent| e.name@),
                distinct_strings(one_loop_transitions@),
                string_set(one_loop_transitions@) == before + Set::new(|c: Seq<char>| exists|j: int| #![trigger tn[j]]
                    0 <= j < i && tn[j] == c && tn[j + 1] == c),
            decreases events@.len() - 1 - i,
        {
            let ghost old_set = string_set(one_loop_transitions@);
            if events[i].name == events[i + 1].name {
                push_unique(&mut one_loop_transitions, &events[i].name);
            }
            proof {
                assert(tn[i as int] == events@[i as int].name@);
                assert(tn[i + 1] == events@[i + 1].name@);
                let after = Set::new(|c: Seq<char>| exists|j: int| #![trigger tn[j]] 0 <= j < i + 1 && tn[j] == c && tn[j + 1] == c);
                let prior = Set::new(|c: Seq<char>| exists|j: int| #![trigger tn[j]] 0 <= j < i && tn[j] == c && tn[j + 1] == c);
                assert forall|c: Seq<char>| after.contains(c) implies prior.contains(c) || (c == tn[i as int] && tn[i as int] == tn[i + 1]) by {
                    let j = choose|j: int| #![trigger tn[j]] 0 <= j < i + 1 && tn[j] == c && tn[j + 1] == c;
                    if j < i {
                        assert(prior.contains(c));
                    }
                }
                if tn[i as int] == tn[i + 1] {
                    assert(after.contains(tn[i as int]));
                    assert(string_set(one_loop_transitions@) =~= before + after);
                } else {
                    assert(string_set(one_loop_transitions@) =~= before + after);
                }
            }
            i = i + 1;
        }
        proof {
            let a = names.take(t as int);
            let b = names.take(t + 1);
            let own = Set::new(|c: Seq<char>| exists|j: int| #![trigger tn[j]] 0 <= j < i && tn[j] == c && tn[j + 1] == c);
            assert forall|k: int| 0 <= k < t implies b[k] == a[k] by {}
            assert(b[t as int] == tn);
            assert(one_length_loop_classes(b) =~= before + own) by {
                assert forall|c: Seq<char>| one_length_loop_classes(b).contains(c) implies (before + own).contains(c) by {
                    let (k, j) = choose|k: int, j: int| #![trigger b[k][j]]
                        0 <= k < b.len() && 0 <= j && j + 1 < b[k].len() && b[k][j] == c && b[k][j + 1] == c;
                    if k < t {
                        assert(a[k][j] == c && a[k][j + 1] == c);
                    } else {
                        assert(tn[j] == c);
                    }
                }
                assert forall|c: Seq<char>| before.contains(c) implies one_length_loop_classes(b).contains(c) by {
                    let (k, j) = choose|k: int, j: int| #![trigger a[k][j]]
                        0 <= k < a.len() && 0 <= j && j + 1 < a[k].len() && a[k][j] == c && a[k][j + 1] == c;
                    assert(b[k][j] == c && b[k][j + 1] == c);
                }
                assert forall|c: Seq<char>| own.contains(c) implies one_length_loop_classes(b).contains(c) by {
                    let j = choose|j: int| #![trigger tn[j]] 0 <= j < i && tn[j] == c && tn[j + 1] == c;
                    assert(b[t as int][j] == c);
                }
            }
        }
        t = t + 1;
    }
    proof {
        assert(names.take(t as int) =~= names);
    }
    one_loop_transitions
}

} // verus!
