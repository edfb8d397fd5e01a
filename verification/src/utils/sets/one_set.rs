use std::collections::BTreeSet;
use std::hash::Hash;
use vstd::laws_cmp::obeys_cmp;
use vstd::prelude::*;
use vstd::std_specs::cmp::{OrdSpec, PartialEqSpec};
use vstd::std_specs::iter::IteratorSpec;

verus! {

/// The id that follows `id`: one more, wrapping to zero past the largest.
pub open spec fn following_id(id: u64) -> u64 {
    if id == u64::MAX { 0 } else { (id + 1) as u64 }
}

/// The source of the ids of sets: it hands out the ids one by one,
/// counting up from zero and wrapping past the largest.
pub struct OneSetIds {
    next: u64,
}

impl OneSetIds {
    /// The id that is handed out next.
    pub closed spec fn next_id(&self) -> u64 {
        self.next
    }

    pub fn new() -> (res: Self)
        ensures
            res.next_id() == 0,
    {
        Self { next: 0 }
    }

    /// Hands out the next id.
    pub fn take(&mut self) -> (id: u64)
        ensures
            id == old(self).next_id(),
            final(self).next_id() == following_id(old(self).next_id()),
    {
        let id = self.next;
        self.next = self.next.wrapping_add(1);
        id
    }
}

/// Every element of `result` is a clone of an element of `source`, and every
/// element of `source` has a clone in `result`.
pub open spec fn clones_of<T: Clone>(source: Set<T>, result: Set<T>) -> bool {
    &&& forall|y: T| #[trigger] result.contains(y) ==> cloned_from(source, y)
    &&& forall|x: T| #[trigger] source.contains(x) ==> has_clone_in(result, x)
}

/// `y` is a clone of an element of the set.
pub open spec fn cloned_from<T: Clone>(source: Set<T>, y: T) -> bool {
    exists|x: T| source.contains(x) && cloned(x, y)
}

/// The set holds a clone of `x`.
pub open spec fn has_clone_in<T: Clone>(result: Set<T>, x: T) -> bool {
    exists|y: T| result.contains(y) && cloned(x, y)
}

/// Adds to `target` a clone of each element of `source`.
fn insert_clones<T: Ord + Clone>(target: &mut BTreeSet<T>, source: &BTreeSet<T>)
    requires
        obeys_cmp::<T>(),
    ensures
        forall|y: T| #[trigger] old(target)@.contains(y) ==> final(target)@.contains(y),
        forall|y: T| #[trigger] final(target)@.contains(y)
            ==> old(target)@.contains(y) || cloned_from(source@, y),
        forall|x: T| #[trigger] source@.contains(x) ==> has_clone_in(final(target)@, x),
{
    let ghost start = target@;
    proof {
        vstd::std_specs::btree::axiom_spec_btree_keys_iter(source);
    }
    let ghost keys = vstd::std_specs::btree::spec_btree_keys_iter(source).remaining();
    for x in it: source.iter()
        invariant
            obeys_cmp::<T>(),
            it.seq() == keys,
            keys.unref().to_set() == source@,
            forall|y: T| #[trigger] start.contains(y) ==> target@.contains(y),
            forall|y: T| #[trigger] target@.contains(y)
                ==> start.contains(y) || cloned_from(source@, y),
            forall|i: int| 0 <= i < it.index() ==> has_clone_in(target@, *#[trigger] keys[i]),
    {
        let ghost before = target@;
        let ghost i = it.index();
        let c = x.clone();
        proof {
            assert(*x == keys.unref()[i]);
            assert(source@.contains(*x));
            assert(cloned(*x, c));
        }
        target.insert(c);
        proof {
            assert(target@ == before.insert(c));
            assert forall|y: T| #[trigger] target@.contains(y) implies start.contains(y) || cloned_from(source@, y) by {
                if y == c {
                    assert(source@.contains(*x) && cloned(*x, c));
                }
            }
            assert forall|j: int| 0 <= j < i + 1 implies has_clone_in(target@, *#[trigger] keys[j]) by {
                if j == i {
                    assert(target@.contains(c) && cloned(*keys[j], c));
                } else {
                    let y = choose|y: T| before.contains(y) && cloned(*keys[j], y);
                    assert(target@.contains(y));
                }
            }
        }
    }
    proof {
        assert forall|x: T| #[trigger] source@.contains(x) implies has_clone_in(target@, x) by {
            assert(keys.unref().to_set().contains(x));
            let j = choose|j: int| 0 <= j < keys.unref().len() && keys.unref()[j] == x;
            assert(*keys[j] == x);
        }
    }
}

/// A set of elements with the id that it got when it was made.
pub struct OneSet<T: Hash + Eq + Ord + Clone> {
    id: u64,
    set: BTreeSet<T>,
}

impl<T: Hash + Eq + Ord + Clone> View for OneSet<T> {
    type V = Set<T>;

    closed spec fn view(&self) -> Set<T> {
        self.set@
    }
}

impl<T: Hash + Eq + Ord + Clone> OneSet<T> {
    /// The elements' order is a total order that agrees with their equality,
    /// as the standard ordered set needs of its elements.
    #[verifier::type_invariant]
    closed spec fn ordered_elements(self) -> bool {
        obeys_cmp::<T>()
    }

    pub closed spec fn spec_id(&self) -> u64 {
        self.id
    }

    /// An empty set with the next id.
    pub fn empty(ids: &mut OneSetIds) -> (res: Self)
        requires
            obeys_cmp::<T>(),
        ensures
            res.spec_id() == old(ids).next_id(),
            final(ids).next_id() == following_id(old(ids).next_id()),
            res@ == Set::<T>::empty(),
    {
        Self { id: ids.take(), set: BTreeSet::new() }
    }

    /// The set of one element, with the next id.
    pub fn new(el: T, ids: &mut OneSetIds) -> (res: Self)
        requires
            obeys_cmp::<T>(),
        ensures
            res.spec_id() == old(ids).next_id(),
            final(ids).next_id() == following_id(old(ids).next_id()),
            res@ == set![el],
    {
        let mut set = BTreeSet::new();
        set.insert(el);
        proof {
            assert(set@ =~= set![el]);
        }
        Self { id: ids.take(), set }
    }

    /// The set of the two elements, with the next id.
    pub fn new_two_elements(first: T, second: T, ids: &mut OneSetIds) -> (res: Self)
        requires
            obeys_cmp::<T>(),
        ensures
            res.spec_id() == old(ids).next_id(),
            final(ids).next_id() == following_id(old(ids).next_id()),
            res@ == set![first, second],
    {
        let mut set = BTreeSet::new();
        set.insert(first);
        set.insert(second);
        proof {
            assert(set@ =~= set![first, second]);
        }
        Self { id: ids.take(), set }
    }

    /// A set with the next id that holds clones of the elements of both sets.
    pub fn merge(&self, other: &Self, ids: &mut OneSetIds) -> (res: Self)
        ensures
            res.spec_id() == old(ids).next_id(),
            final(ids).next_id() == following_id(old(ids).next_id()),
            clones_of(self@ + other@, res@),
    {
        proof {
            use_type_invariant(self);
        }
        let mut set: BTreeSet<T> = BTreeSet::new();
        insert_clones(&mut set, &self.set);
        let ghost first = set@;
        insert_clones(&mut set, &other.set);
        proof {
            let all = self@ + other@;
            assert forall|y: T| #[trigger] set@.contains(y) implies exists|x: T| all.contains(x) && cloned(x, y) by {
                if first.contains(y) {
                    let x = choose|x: T| self.set@.contains(x) && cloned(x, y);
                    assert(all.contains(x));
                } else {
                    let x = choose|x: T| other.set@.contains(x) && cloned(x, y);
                    assert(all.contains(x));
                }
            }
            assert forall|x: T| #[trigger] all.contains(x) implies exists|y: T| set@.contains(y) && cloned(x, y) by {
                if self.set@.contains(x) {
                    let y = choose|y: T| first.contains(y) && cloned(x, y);
                    assert(set@.contains(y));
                }
            }
        }
        Self { id: ids.take(), set }
    }

    /// The ordered set that holds the elements.
    pub closed spec fn spec_set(&self) -> BTreeSet<T> {
        self.set
    }

    /// The elements.
    pub fn set(&self) -> (res: &BTreeSet<T>)
        ensures
            res@ == self@,
            *res == self.spec_set(),
    {
        &self.set
    }

    /// Adds the element; the id stays.
    pub fn insert(&mut self, item: T)
        ensures
            final(self).spec_id() == old(self).spec_id(),
            final(self)@ == old(self)@.insert(item),
    {
        proof {
            use_type_invariant(&*self);
        }
        let mut set = BTreeSet::new();
        std::mem::swap(&mut set, &mut self.set);
        set.insert(item);
        self.set = set;
    }

    pub fn id(&self) -> (res: &u64)
        ensures
            *res == self.spec_id(),
    {
        &self.id
    }
}

/// Whether every element of `a` is in `b`.
fn contained_in<T: Ord>(a: &BTreeSet<T>, b: &BTreeSet<T>) -> (res: bool)
    requires
        obeys_cmp::<T>(),
    ensures
        res == a@.subset_of(b@),
{
    proof {
        vstd::std_specs::btree::axiom_spec_btree_keys_iter(a);
    }
    let ghost keys = vstd::std_specs::btree::spec_btree_keys_iter(a).remaining();
    for x in it: a.iter()
        invariant
            obeys_cmp::<T>(),
            it.seq() == keys,
            keys.unref().to_set() == a@,
            forall|i: int| 0 <= i < it.index() ==> b@.contains(*#[trigger] keys[i]),
    {
        proof {
            assert(*x == keys.unref()[it.index()]);
            assert(a@.contains(*x));
        }
        if !b.contains(x) {
            return false;
        }
    }
    proof {
        assert forall|x: T| #[trigger] a@.contains(x) implies b@.contains(x) by {
            assert(keys.unref().to_set().contains(x));
            let j = choose|j: int| 0 <= j < keys.unref().len() && keys.unref()[j] == x;
            assert(*keys[j] == x);
        }
    }
    true
}

/// Two sets are equal when they hold the same elements, whatever their ids.
impl<T: Hash + Eq + Ord + Clone> PartialEq for OneSet<T> {
    fn eq(&self, other: &Self) -> (res: bool) {
        proof {
            use_type_invariant(self);
        }
        let res = contained_in(&self.set, &other.set) && contained_in(&other.set, &self.set);
        proof {
            if res {
                assert(self.set@ =~= other.set@);
            }
        }
        res
    }
}

impl<T: Hash + Eq + Ord + Clone> vstd::std_specs::cmp::PartialEqSpecImpl for OneSet<T> {
    open spec fn obeys_eq_spec() -> bool {
        true
    }

    open spec fn eq_spec(&self, other: &Self) -> bool {
        self@ == other@
    }
}

/// Two sets compare equal exactly when they hold the same elements; their ids
/// play no part.
pub proof fn lemma_one_set_equality<T: Hash + Eq + Ord + Clone>(a: OneSet<T>, b: OneSet<T>)
    ensures
        (a@ == b@) <==> a.eq_spec(&b),
{
}

/// Iterating the elements of a set (the iterator of `set()`) yields each of
/// its elements once, nothing else, in strictly ascending order.
pub proof fn lemma_one_set_iteration<T: Hash + Eq + Ord + Clone>(s: OneSet<T>)
    requires
        obeys_cmp::<T>(),
    ensures
        ({
            let order = vstd::std_specs::btree::spec_btree_keys_iter(&s.spec_set()).remaining().unref();
            &&& order.to_set() == s@
            &&& order.no_duplicates()
            &&& forall|i: int, j: int| #![trigger order[i], order[j]] 0 <= i < j < order.len() ==> order[i].cmp_spec(&order[j]) is Less
        }),
{
    let m = s.spec_set();
    vstd::std_specs::btree::axiom_spec_btree_keys_iter(&m);
    let keys = vstd::std_specs::btree::spec_btree_keys_iter(&m).remaining();
    broadcast use vstd::laws_cmp::lemma_ref_obeys_cmp_spec;
    assert(obeys_cmp::<&T>());
    vstd::std_specs::btree::axiom_increasing_seq_meaning(keys);
    let order = keys.unref();
    assert(s@ == m@);
    assert forall|i: int, j: int| #![trigger order[i], order[j]] 0 <= i < j < order.len() implies order[i].cmp_spec(&order[j]) is Less by {
        assert(vstd::std_specs::btree::increasing_seq(keys));
        assert(0 <= i < j < keys.len());
        let a: &T = keys[i];
        let b: &T = keys[j];
        assert(OrdSpec::cmp_spec(&a, &b) is Less);
    }
    assert(order.no_duplicates()) by {
        assert forall|i: int, j: int| 0 <= i < order.len() && 0 <= j < order.len() && i != j implies order[i] != order[j] by {
            assert(keys[i] != keys[j]);
        }
    }
}

/// The id that a source hands out after `n` more ids from `id`.
pub open spec fn id_after_takes(id: u64, n: nat) -> u64
    decreases n,
{
    if n == 0 {
        id
    } else {
        following_id(id_after_takes(id, (n - 1) as nat))
    }
}

proof fn lemma_id_after_takes_value(id: u64, n: nat)
    ensures
        id_after_takes(id, n) as int == (id as int + n) % 0x1_0000_0000_0000_0000,
    decreases n,
{
    if n > 0 {
        lemma_id_after_takes_value(id, (n - 1) as nat);
    }
}

/// One source hands out distinct ids as long as it hands out fewer than
/// 2^64 of them.
pub proof fn lemma_one_set_ids_distinct(id: u64, a: nat, b: nat)
    requires
        a < b < 0x1_0000_0000_0000_0000,
    ensures
        id_after_takes(id, a) != id_after_takes(id, b),
{
    lemma_id_after_takes_value(id, a);
    lemma_id_after_takes_value(id, b);
}

} // verus!
