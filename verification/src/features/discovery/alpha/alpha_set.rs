use vstd::prelude::*;

use crate::features::analysis::event_log_info::{contains_string, string_set};
use crate::features::discovery::alpha::alpha_provider::AlphaRelationsProvider;
use vstd::string::StringExecFns;
use crate::utils::strings::{lemma_string_order, string_less, string_lt};

verus! {

/// The characters of each string.
pub open spec fn views(v: Seq<String>) -> Seq<Seq<char>> {
    Seq::new(v.len(), |i: int| v[i]@)
}

/// Each string comes strictly before the next one.
pub open spec fn strictly_sorted(q: Seq<Seq<char>>) -> bool {
    forall|i: int, j: int| 0 <= i < j < q.len() ==> string_lt(#[trigger] q[i], #[trigger] q[j])
}

/// The strings of the set in increasing order.
pub open spec fn canonical(s: Set<Seq<char>>) -> Seq<Seq<char>> {
    choose|q: Seq<Seq<char>>| strictly_sorted(q) && q.to_set() == s
}

/// The strings separated by ", ".
pub open spec fn joined(q: Seq<Seq<char>>) -> Seq<char>
    decreases q.len(),
{
    if q.len() == 0 {
        Seq::empty()
    } else if q.len() == 1 {
        q[0]
    } else {
        joined(q.drop_last()) + ", "@ + q.last()
    }
}

/// The name of an alpha set: its left classes and its right classes, each
/// in increasing order, as `({a, b}, {c})`.
pub open spec fn alpha_name(x: (Set<Seq<char>>, Set<Seq<char>>)) -> Seq<char> {
    "({"@ + joined(canonical(x.0)) + "}, {"@ + joined(canonical(x.1)) + "})"@
}

/// The relation of the given kind: causal when `causal`, unrelated otherwise.
pub open spec fn related<P: AlphaRelationsProvider>(p: &P, causal: bool, a: Seq<char>, b: Seq<char>) -> bool {
    if causal {
        p.causal(a, b)
    } else {
        p.unrelated(a, b)
    }
}

/// Every left class causes every right class, and the classes of each side
/// are pairwise unrelated (each also to itself).
pub open spec fn relations_hold<P: AlphaRelationsProvider>(
    p: &P,
    left: Set<Seq<char>>,
    right: Set<Seq<char>>,
) -> bool {
    &&& forall|a: Seq<char>, b: Seq<char>| left.contains(a) && right.contains(b) ==> #[trigger] p.causal(a, b)
    &&& forall|a: Seq<char>, b: Seq<char>| left.contains(a) && left.contains(b) ==> #[trigger] p.unrelated(a, b)
    &&& forall|a: Seq<char>, b: Seq<char>| right.contains(a) && right.contains(b) ==> #[trigger] p.unrelated(a, b)
}

pub proof fn lemma_string_set_is_views(v: Seq<String>)
    ensures
        string_set(v) == views(v).to_set(),
        string_set(v).finite(),
{
    assert(string_set(v) =~= views(v).to_set()) by {
        assert forall|c: Seq<char>| string_set(v).contains(c) implies views(v).to_set().contains(c) by {
            let i = choose|i: int| 0 <= i < v.len() && v[i]@ == c;
            assert(views(v)[i] == c);
        }
        assert forall|c: Seq<char>| views(v).to_set().contains(c) implies string_set(v).contains(c) by {
            let i = choose|i: int| 0 <= i < views(v).len() && views(v)[i] == c;
            assert(v[i]@ == c);
        }
    }
    views(v).lemma_cardinality_of_set();
    broadcast use vstd::seq_lib::seq_to_set_is_finite;
}

/// Two increasing sequences of strings with the same strings are equal.
pub proof fn lemma_sorted_unique(q: Seq<Seq<char>>, r: Seq<Seq<char>>)
    requires
        strictly_sorted(q),
        strictly_sorted(r),
        q.to_set() == r.to_set(),
    ensures
        q == r,
    decreases q.len(),
{
    if q.len() == 0 {
        if r.len() > 0 {
            assert(r.to_set().contains(r[0]));
        }
        assert(q =~= r);
    } else if r.len() == 0 {
        assert(q.to_set().contains(q[0]));
    } else {
        assert(q.to_set().contains(q[0]));
        assert(r.to_set().contains(r[0]));
        let k = choose|k: int| 0 <= k < r.len() && r[k] == q[0];
        let m = choose|m: int| 0 <= m < q.len() && q[m] == r[0];
        lemma_string_order(q[0], r[0], q[0]);
        if k > 0 {
            assert(string_lt(r[0], r[k]));
            if m > 0 {
                assert(string_lt(q[0], q[m]));
            }
        }
        if m > 0 {
            assert(string_lt(q[0], q[m]));
            if k > 0 {
                assert(string_lt(r[0], r[k]));
            }
        }
        assert(q[0] == r[0]);
        let q1 = q.drop_first();
        let r1 = r.drop_first();
        assert(q1.to_set() =~= r1.to_set()) by {
            assert forall|c: Seq<char>| q1.to_set().contains(c) implies r1.to_set().contains(c) by {
                let i = choose|i: int| 0 <= i < q1.len() && q1[i] == c;
                assert(q[i + 1] == c);
                assert(string_lt(q[0], q[i + 1]));
                lemma_string_order(c, c, c);
                assert(q.to_set().contains(c));
                let j = choose|j: int| 0 <= j < r.len() && r[j] == c;
                assert(j != 0);
                assert(r1[j - 1] == c);
            }
            assert forall|c: Seq<char>| r1.to_set().contains(c) implies q1.to_set().contains(c) by {
                let i = choose|i: int| 0 <= i < r1.len() && r1[i] == c;
                assert(r[i + 1] == c);
                assert(string_lt(r[0], r[i + 1]));
                lemma_string_order(c, c, c);
                assert(r.to_set().contains(c));
                let j = choose|j: int| 0 <= j < q.len() && q[j] == c;
                assert(j != 0);
                assert(q1[j - 1] == c);
            }
        }
        assert(strictly_sorted(q1)) by {
            assert forall|i: int, j: int| 0 <= i < j < q1.len() implies string_lt(#[trigger] q1[i], #[trigger] q1[j]) by {
                assert(q1[i] == q[i + 1] && q1[j] == q[j + 1]);
            }
        }
        assert(strictly_sorted(r1)) by {
            assert forall|i: int, j: int| 0 <= i < j < r1.len() implies string_lt(#[trigger] r1[i], #[trigger] r1[j]) by {
                assert(r1[i] == r[i + 1] && r1[j] == r[j + 1]);
            }
        }
        lemma_sorted_unique(q1, r1);
        assert(q =~= r) by {
            assert forall|i: int| 0 <= i < q.len() implies q[i] == r[i] by {
                if i > 0 {
                    assert(q[i] == q1[i - 1] && r[i] == r1[i - 1]);
                }
            }
        }
    }
}

/// The canonical order of a set is the one of every increasing sequence of it.
proof fn lemma_canonical_of_sorted(q: Seq<Seq<char>>)
    requires
        strictly_sorted(q),
    ensures
        canonical(q.to_set()) == q,
{
    let c = canonical(q.to_set());
    assert(strictly_sorted(c) && c.to_set() == q.to_set());
    lemma_sorted_unique(c, q);
}

/// Whether every string of `a` is in `b`.
fn is_subset(a: &Vec<String>, b: &Vec<String>) -> (res: bool)
    ensures
        res == string_set(a@).subset_of(string_set(b@)),
{
    let mut i: usize = 0;
    while i < a.len()
        invariant
            i <= a@.len(),
            forall|j: int| 0 <= j < i ==> string_set(b@).contains(#[trigger] a@[j]@),
        decreases a@.len() - i,
    {
        if !contains_string(b, &a[i]) {
            assert(string_set(a@).contains(a@[i as int]@));
            return false;
        }
        i = i + 1;
    }
    assert forall|c: Seq<char>| string_set(a@).contains(c) implies string_set(b@).contains(c) by {
        let j = choose|j: int| 0 <= j < a@.len() && a@[j]@ == c;
        assert(string_set(b@).contains(a@[j]@));
    }
    true
}

/// Whether the two vectors hold the same strings in the same order.
fn same_views(a: &Vec<String>, b: &Vec<String>) -> (res: bool)
    ensures
        res == (views(a@) == views(b@)),
{
    if a.len() != b.len() {
        assert(views(a@).len() != views(b@).len());
        return false;
    }
    let mut i: usize = 0;
    while i < a.len()
        invariant
            i <= a@.len(),
            a@.len() == b@.len(),
            forall|j: int| 0 <= j < i ==> a@[j]@ == b@[j]@,
        decreases a@.len() - i,
    {
        if a[i] != b[i] {
            assert(views(a@)[i as int] != views(b@)[i as int]);
            return false;
        }
        i = i + 1;
    }
    assert(views(a@) =~= views(b@));
    true
}

/// A copy of the strings.
fn copy_strings(v: &Vec<String>) -> (res: Vec<String>)
    ensures
        views(res@) == views(v@),
{
    let mut res: Vec<String> = Vec::new();
    let mut i: usize = 0;
    while i < v.len()
        invariant
            i <= v@.len(),
            res@.len() == i,
            forall|j: int| 0 <= j < i ==> res@[j]@ == v@[j]@,
        decreases v@.len() - i,
    {
        res.push(v[i].clone());
        i = i + 1;
    }
    assert(views(res@) =~= views(v@));
    res
}

/// Puts the string into its place in an increasing vector, unless it is there.
fn sorted_insert(v: &mut Vec<String>, s: &String)
    requires
        strictly_sorted(views(old(v)@)),
    ensures
        strictly_sorted(views(final(v)@)),
        string_set(final(v)@) == string_set(old(v)@).insert(s@),
{
    let mut i: usize = 0;
    while i < v.len() && string_less(&v[i], s)
        invariant
            i <= v@.len(),
            v@ == old(v)@,
            forall|j: int| 0 <= j < i ==> string_lt(#[trigger] v@[j]@, s@),
        decreases v@.len() - i,
    {
        i = i + 1;
    }
    if i < v.len() && v[i] == *s {
        assert(string_set(v@).insert(s@) =~= string_set(v@)) by {
            assert(string_set(v@).contains(v@[i as int]@));
        }
        return;
    }
    let ghost before = v@;
    v.insert(i, s.clone());
    proof {
        assert(v@ == before.insert(i as int, *s));
        assert forall|a: int, b: int| 0 <= a < b < views(v@).len() implies string_lt(
            #[trigger] views(v@)[a],
            #[trigger] views(v@)[b],
        ) by {
            assert(views(v@)[a] == v@[a]@ && views(v@)[b] == v@[b]@);
            if b < i {
                assert(views(before)[a] == before[a]@ && views(before)[b] == before[b]@);
            } else if b == i {
                assert(string_lt(before[a]@, s@));
            } else if a > i {
                assert(views(before)[a - 1] == before[a - 1]@ && views(before)[b - 1] == before[b - 1]@);
            } else {
                // s@ comes before before[i]@, which is at most before[b - 1]@
                lemma_string_order(s@, before[i as int]@, before[b - 1]@);
                if b - 1 > i {
                    assert(views(before)[i as int] == before[i as int]@ && views(before)[b - 1] == before[b - 1]@);
                }
                if a < i {
                    assert(string_lt(before[a]@, s@));
                    lemma_string_order(before[a]@, s@, before[b - 1]@);
                }
            }
        }
        assert(string_set(v@) =~= string_set(before).insert(s@)) by {
            assert forall|c: Seq<char>| string_set(v@).contains(c) implies string_set(before).insert(s@).contains(c) by {
                let k = choose|k: int| 0 <= k < v@.len() && v@[k]@ == c;
                if k < i {
                    assert(before[k]@ == c);
                } else if k > i {
                    assert(before[k - 1]@ == c);
                }
            }
            assert forall|c: Seq<char>| string_set(before).insert(s@).contains(c) implies string_set(v@).contains(c) by {
                if c == s@ {
                    assert(v@[i as int]@ == c);
                } else {
                    let k = choose|k: int| 0 <= k < before.len() && before[k]@ == c;
                    if k < i {
                        assert(v@[k]@ == c);
                    } else {
                        assert(v@[k + 1]@ == c);
                    }
                }
            }
        }
    }
}

/// Whether the relation of the given kind holds from every string of `xs` to
/// every string of `ys`.
fn all_related<P: AlphaRelationsProvider>(p: &P, xs: &Vec<String>, ys: &Vec<String>, causal: bool) -> (res: bool)
    ensures
        res == forall|a: Seq<char>, b: Seq<char>|
            string_set(xs@).contains(a) && string_set(ys@).contains(b) ==> #[trigger] related(p, causal, a, b),
{
    let mut i: usize = 0;
    while i < xs.len()
        invariant
            i <= xs@.len(),
            forall|k: int, l: int| 0 <= k < i && 0 <= l < ys@.len() ==> related(p, causal, #[trigger] xs@[k]@, #[trigger] ys@[l]@),
        decreases xs@.len() - i,
    {
        let mut j: usize = 0;
        while j < ys.len()
            invariant
                i < xs@.len(),
                j <= ys@.len(),
                forall|k: int, l: int| 0 <= k < i && 0 <= l < ys@.len() ==> related(p, causal, #[trigger] xs@[k]@, #[trigger] ys@[l]@),
                forall|l: int| 0 <= l < j ==> related(p, causal, xs@[i as int]@, #[trigger] ys@[l]@),
            decreases ys@.len() - j,
        {
            let holds = if causal {
                p.causal_relation(&xs[i], &ys[j])
            } else {
                p.unrelated_relation(&xs[i], &ys[j])
            };
            if !holds {
                assert(string_set(xs@).contains(xs@[i as int]@));
                assert(string_set(ys@).contains(ys@[j as int]@));
                assert(!related(p, causal, xs@[i as int]@, ys@[j as int]@));
                return false;
            }
            j = j + 1;
        }
        i = i + 1;
    }
    assert forall|a: Seq<char>, b: Seq<char>|
        string_set(xs@).contains(a) && string_set(ys@).contains(b) implies #[trigger] related(p, causal, a, b) by {
        let k = choose|k: int| 0 <= k < xs@.len() && xs@[k]@ == a;
        let l = choose|l: int| 0 <= l < ys@.len() && ys@[l]@ == b;
        assert(related(p, causal, xs@[k]@, ys@[l]@));
    }
    true
}

/// A pair of sets of event classes: the classes on the left lead to those on
/// the right. Each side is kept in increasing order, each class once.
pub struct AlphaSet {
    left_classes: Vec<String>,
    right_classes: Vec<String>,
}

impl View for AlphaSet {
    type V = (Set<Seq<char>>, Set<Seq<char>>);

    closed spec fn view(&self) -> (Set<Seq<char>>, Set<Seq<char>>) {
        (string_set(self.left_classes@), string_set(self.right_classes@))
    }
}

impl AlphaSet {
    #[verifier::type_invariant]
    spec fn sorted(&self) -> bool {
        strictly_sorted(views(self.left_classes@)) && strictly_sorted(views(self.right_classes@))
    }

    /// An alpha set without classes.
    pub fn empty() -> (res: Self)
        ensures
            res@ == (Set::<Seq<char>>::empty(), Set::<Seq<char>>::empty()),
    {
        let res = Self { left_classes: Vec::new(), right_classes: Vec::new() };
        assert(string_set(res.left_classes@) =~= Set::empty());
        assert(string_set(res.right_classes@) =~= Set::empty());
        res
    }

    /// The alpha set with one class on each side.
    pub fn new(left_class: String, right_class: String) -> (res: Self)
        ensures
            res@ == (Set::<Seq<char>>::empty().insert(left_class@), Set::<Seq<char>>::empty().insert(right_class@)),
    {
        let mut left_classes: Vec<String> = Vec::new();
        left_classes.push(left_class);
        let mut right_classes: Vec<String> = Vec::new();
        right_classes.push(right_class);
        let res = Self { left_classes, right_classes };
        assert(string_set(res.left_classes@) =~= Set::empty().insert(left_class@)) by {
            assert(res.left_classes@[0]@ == left_class@);
        }
        assert(string_set(res.right_classes@) =~= Set::empty().insert(right_class@)) by {
            assert(res.right_classes@[0]@ == right_class@);
        }
        res
    }

    /// The left classes in increasing order.
    pub fn left_classes(&self) -> (res: &Vec<String>)
        ensures
            string_set(res@) == self@.0,
            views(res@) == canonical(self@.0),
            strictly_sorted(views(res@)),
    {
        proof {
            use_type_invariant(self);
            lemma_string_set_is_views(self.left_classes@);
            lemma_canonical_of_sorted(views(self.left_classes@));
        }
        &self.left_classes
    }

    /// The right classes in increasing order.
    pub fn right_classes(&self) -> (res: &Vec<String>)
        ensures
            string_set(res@) == self@.1,
            views(res@) == canonical(self@.1),
            strictly_sorted(views(res@)),
    {
        proof {
            use_type_invariant(self);
            lemma_string_set_is_views(self.right_classes@);
            lemma_canonical_of_sorted(views(self.right_classes@));
        }
        &self.right_classes
    }

    /// Adds a class to the left side.
    pub fn insert_left_class(&mut self, class: String)
        ensures
            final(self)@ == (old(self)@.0.insert(class@), old(self)@.1),
    {
        proof {
            use_type_invariant(&*self);
        }
        let mut left = copy_strings(&self.left_classes);
        proof {
            lemma_same_views_same_set(left@, self.left_classes@);
        }
        sorted_insert(&mut left, &class);
        let right = copy_strings(&self.right_classes);
        proof {
            lemma_same_views_same_set(right@, self.right_classes@);
        }
        *self = Self { left_classes: left, right_classes: right };
    }

    /// Adds a class to the right side.
    pub fn insert_right_class(&mut self, class: String)
        ensures
            final(self)@ == (old(self)@.0, old(self)@.1.insert(class@)),
    {
        proof {
            use_type_invariant(&*self);
        }
        let left = copy_strings(&self.left_classes);
        let mut right = copy_strings(&self.right_classes);
        proof {
            lemma_same_views_same_set(right@, self.right_classes@);
        }
        sorted_insert(&mut right, &class);
        proof {
            lemma_same_views_same_set(left@, self.left_classes@);
        }
        *self = Self { left_classes: left, right_classes: right };
    }

    /// Whether the left classes are among the other set's left classes.
    pub fn is_left_subset(&self, other: &AlphaSet) -> (res: bool)
        ensures
            res == self@.0.subset_of(other@.0),
    {
        is_subset(&self.left_classes, &other.left_classes)
    }

    /// Whether the right classes are among the other set's right classes.
    pub fn is_right_subset(&self, other: &AlphaSet) -> (res: bool)
        ensures
            res == self@.1.subset_of(other@.1),
    {
        is_subset(&self.right_classes, &other.right_classes)
    }

    /// Whether both sides are among the other set's.
    pub fn is_full_subset(&self, other: &AlphaSet) -> (res: bool)
        ensures
            res == (self@.0.subset_of(other@.0) && self@.1.subset_of(other@.1)),
    {
        self.is_left_subset(other) && self.is_right_subset(other)
    }

    /// Whether the two sets have the same classes on each side.
    pub fn same_as(&self, other: &AlphaSet) -> (res: bool)
        ensures
            res == (self@ == other@),
    {
        proof {
            use_type_invariant(self);
            use_type_invariant(other);
            lemma_string_set_is_views(self.left_classes@);
            lemma_string_set_is_views(self.right_classes@);
            lemma_string_set_is_views(other.left_classes@);
            lemma_string_set_is_views(other.right_classes@);
            if self@ == other@ {
                lemma_sorted_unique(views(self.left_classes@), views(other.left_classes@));
                lemma_sorted_unique(views(self.right_classes@), views(other.right_classes@));
            }
        }
        same_views(&self.left_classes, &other.left_classes) && same_views(&self.right_classes, &other.right_classes)
    }

    /// The set with the classes of both sets on each side.
    pub fn extend(&self, other: &AlphaSet) -> (res: AlphaSet)
        ensures
            res@ == (self@.0 + other@.0, self@.1 + other@.1),
    {
        proof {
            use_type_invariant(self);
            use_type_invariant(other);
        }
        let left = merge_sorted(&self.left_classes, &other.left_classes);
        let right = merge_sorted(&self.right_classes, &other.right_classes);
        AlphaSet { left_classes: left, right_classes: right }
    }

    /// Whether the classes of both sets together still form an alpha set for
    /// the provider's relations.
    pub fn can_extend<P: AlphaRelationsProvider>(&self, other: &AlphaSet, provider: &P) -> (res: bool)
        ensures
            res == relations_hold(provider, self@.0 + other@.0, self@.1 + other@.1),
    {
        let joined = self.extend(other);
        let causal = all_related(provider, &joined.left_classes, &joined.right_classes, true);
        let left_unrelated = all_related(provider, &joined.left_classes, &joined.left_classes, false);
        let right_unrelated = all_related(provider, &joined.right_classes, &joined.right_classes, false);
        proof {
            let l = self@.0 + other@.0;
            let r = self@.1 + other@.1;
            if causal && left_unrelated && right_unrelated {
                assert forall|a: Seq<char>, b: Seq<char>| l.contains(a) && r.contains(b) implies #[trigger] provider.causal(a, b) by {
                    assert(related(provider, true, a, b));
                }
                assert forall|a: Seq<char>, b: Seq<char>| l.contains(a) && l.contains(b) implies #[trigger] provider.unrelated(a, b) by {
                    assert(related(provider, false, a, b));
                }
                assert forall|a: Seq<char>, b: Seq<char>| r.contains(a) && r.contains(b) implies #[trigger] provider.unrelated(a, b) by {
                    assert(related(provider, false, a, b));
                }
            } else if !causal {
                let (a, b) = choose|a: Seq<char>, b: Seq<char>| !(l.contains(a) && r.contains(b) ==> #[trigger] related(provider, true, a, b));
                assert(!provider.causal(a, b));
            } else if !left_unrelated {
                let (a, b) = choose|a: Seq<char>, b: Seq<char>| !(l.contains(a) && l.contains(b) ==> #[trigger] related(provider, false, a, b));
                assert(!provider.unrelated(a, b));
            } else {
                let (a, b) = choose|a: Seq<char>, b: Seq<char>| !(r.contains(a) && r.contains(b) ==> #[trigger] related(provider, false, a, b));
                assert(!provider.unrelated(a, b));
            }
        }
        causal && left_unrelated && right_unrelated
    }

    /// The name of the set: `({a, b}, {c})`, each side in increasing order.
    pub fn to_string(&self) -> (res: String)
        ensures
            res@ == alpha_name(self@),
    {
        proof {
            use_type_invariant(self);
            lemma_string_set_is_views(self.left_classes@);
            lemma_string_set_is_views(self.right_classes@);
            lemma_canonical_of_sorted(views(self.left_classes@));
            lemma_canonical_of_sorted(views(self.right_classes@));
        }
        let mut res = String::new();
        res.append("({");
        append_joined(&mut res, &self.left_classes);
        res.append("}, {");
        append_joined(&mut res, &self.right_classes);
        res.append("})");
        proof {
            assert(res@ =~= alpha_name(self@));
        }
        res
    }
}

proof fn lemma_same_views_same_set(a: Seq<String>, b: Seq<String>)
    requires
        views(a) == views(b),
    ensures
        string_set(a) == string_set(b),
{
    lemma_string_set_is_views(a);
    lemma_string_set_is_views(b);
}

/// Appends the strings separated by ", ".
fn append_joined(out: &mut String, v: &Vec<String>)
    ensures
        final(out)@ == old(out)@ + joined(views(v@)),
{
    let ghost start = out@;
    let mut i: usize = 0;
    proof {
        assert(views(v@).take(0) =~= Seq::<Seq<char>>::empty());
        assert(out@ =~= start + joined(views(v@).take(0)));
    }
    while i < v.len()
        invariant
            i <= v@.len(),
            out@ == start + joined(views(v@).take(i as int)),
        decreases v@.len() - i,
    {
        let ghost prefix = views(v@).take(i as int);
        let ghost next = views(v@).take(i + 1);
        proof {
            assert(next.drop_last() =~= prefix);
            assert(next.last() == v@[i as int]@);
        }
        if i > 0 {
            out.append(", ");
        }
        out.append(v[i].as_str());
        proof {
            if i == 0 {
                assert(next.len() == 1);
                assert(out@ =~= start + joined(next));
            } else {
                assert(out@ =~= start + joined(next));
            }
        }
        i = i + 1;
    }
    proof {
        assert(views(v@).take(v@.len() as int) =~= views(v@));
    }
}

/// The strings of both increasing vectors, in increasing order, each once.
fn merge_sorted(a: &Vec<String>, b: &Vec<String>) -> (res: Vec<String>)
    requires
        strictly_sorted(views(a@)),
        strictly_sorted(views(b@)),
    ensures
        strictly_sorted(views(res@)),
        string_set(res@) == string_set(a@) + string_set(b@),
{
    let mut res = copy_strings(a);
    proof {
        lemma_same_views_same_set(res@, a@);
    }
    let mut i: usize = 0;
    while i < b.len()
        invariant
            i <= b@.len(),
            strictly_sorted(views(res@)),
            string_set(res@) == string_set(a@) + string_set(b@.take(i as int)),
        decreases b@.len() - i,
    {
        let ghost before = string_set(res@);
        sorted_insert(&mut res, &b[i]);
        proof {
            let bt1 = b@.take(i + 1);
            let bt0 = b@.take(i as int);
            assert(string_set(bt1) =~= string_set(bt0).insert(b@[i as int]@)) by {
                assert(bt1[i as int] == b@[i as int]);
                assert forall|c: Seq<char>| string_set(bt1).contains(c) implies
                    string_set(bt0).insert(b@[i as int]@).contains(c) by {
                    let k = choose|k: int| 0 <= k < bt1.len() && #[trigger] bt1[k]@ == c;
                    if k < i {
                        assert(bt0[k]@ == c);
                    }
                }
                assert forall|c: Seq<char>| string_set(bt0).contains(c) implies string_set(bt1).contains(c) by {
                    let k = choose|k: int| 0 <= k < bt0.len() && #[trigger] bt0[k]@ == c;
                    assert(bt1[k]@ == c);
                }
            }
            assert(string_set(res@) =~= string_set(a@) + string_set(b@.take(i + 1)));
        }
        i = i + 1;
    }
    proof {
        assert(b@.take(b@.len() as int) =~= b@);
    }
    res
}

} // verus!
