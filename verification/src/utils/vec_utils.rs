use vstd::prelude::*;

use super::strings::{lemma_string_order, string_le, string_less, string_lt};

verus! {

/// Where a pair with the given key goes into `s`: before the trailing run of
/// pairs whose keys come strictly after it.
pub open spec fn insertion_point<T>(s: Seq<(&String, T)>, key: Seq<char>) -> int
    decreases s.len(),
{
    if s.len() == 0 {
        0
    } else if string_lt(key, s.last().0@) {
        insertion_point(s.drop_last(), key)
    } else {
        s.len() as int
    }
}

/// The pairs ordered by their strings; pairs with equal strings keep their order.
pub open spec fn stable_sort_by_first<T>(s: Seq<(&String, T)>) -> Seq<(&String, T)>
    decreases s.len(),
{
    if s.len() == 0 {
        s
    } else {
        let rest = stable_sort_by_first(s.drop_last());
        rest.insert(insertion_point(rest, s.last().0@), s.last())
    }
}

/// The strings of the pairs never decrease.
pub open spec fn sorted_by_first<T>(s: Seq<(&String, T)>) -> bool {
    forall|i: int, j: int| 0 <= i < j < s.len() ==> string_le(#[trigger] s[i].0@, #[trigger] s[j].0@)
}

proof fn lemma_insertion_point_bounds<T>(s: Seq<(&String, T)>, key: Seq<char>)
    ensures
        0 <= insertion_point(s, key) <= s.len(),
        forall|k: int| insertion_point(s, key) <= k < s.len() ==> string_lt(key, #[trigger] s[k].0@),
        insertion_point(s, key) > 0 ==> !string_lt(key, s[insertion_point(s, key) - 1].0@),
    decreases s.len(),
{
    if s.len() > 0 && string_lt(key, s.last().0@) {
        lemma_insertion_point_bounds(s.drop_last(), key);
        assert forall|k: int| insertion_point(s, key) <= k < s.len() implies string_lt(key, #[trigger] s[k].0@) by {
            if k < s.len() - 1 {
                assert(s[k] == s.drop_last()[k]);
            }
        }
    }
}

proof fn lemma_insert_keeps_sorted<T>(s: Seq<(&String, T)>, x: (&String, T))
    requires
        sorted_by_first(s),
    ensures
        sorted_by_first(s.insert(insertion_point(s, x.0@), x)),
{
    let p = insertion_point(s, x.0@);
    lemma_insertion_point_bounds(s, x.0@);
    let r = s.insert(p, x);
    assert forall|i: int, j: int| 0 <= i < j < r.len() implies string_le(#[trigger] r[i].0@, #[trigger] r[j].0@) by {
        if i < p && j == p {
            lemma_string_order(s[i].0@, s[p - 1].0@, x.0@);
            lemma_string_order(x.0@, s[p - 1].0@, x.0@);
        } else if i == p && j > p {
            lemma_string_order(x.0@, s[j - 1].0@, x.0@);
        } else if i < p && j > p {
            assert(string_le(s[i].0@, s[j - 1].0@));
        } else if i > p {
            assert(string_le(s[i - 1].0@, s[j - 1].0@));
        } else {
            assert(string_le(s[i].0@, s[j].0@));
        }
    }
}

/// The sort puts the pairs in order of their strings.
pub proof fn lemma_stable_sort_sorted<T>(s: Seq<(&String, T)>)
    ensures
        sorted_by_first(stable_sort_by_first(s)),
    decreases s.len(),
{
    if s.len() > 0 {
        lemma_stable_sort_sorted(s.drop_last());
        lemma_insert_keeps_sorted(stable_sort_by_first(s.drop_last()), s.last());
    }
}

/// The sort rearranges the pairs: it loses and adds none.
pub proof fn lemma_stable_sort_permutes<T>(s: Seq<(&String, T)>)
    ensures
        stable_sort_by_first(s).to_multiset() =~= s.to_multiset(),
        stable_sort_by_first(s).len() == s.len(),
    decreases s.len(),
{
    broadcast use vstd::seq_lib::group_to_multiset_ensures;
    if s.len() > 0 {
        lemma_stable_sort_permutes(s.drop_last());
        let rest = stable_sort_by_first(s.drop_last());
        lemma_insertion_point_bounds(rest, s.last().0@);
        let p = insertion_point(rest, s.last().0@);
        assert(rest.insert(p, s.last()) =~= rest.take(p).push(s.last()) + rest.skip(p));
        assert(rest =~= rest.take(p) + rest.skip(p));
        vstd::seq_lib::lemma_multiset_commutative(rest.take(p).push(s.last()), rest.skip(p));
        vstd::seq_lib::lemma_multiset_commutative(rest.take(p), rest.skip(p));
        assert(s =~= s.drop_last().push(s.last()));
    }
}

/// Orders the pairs by their strings, keeping pairs with equal strings in order.
pub fn sort_by_first<TValue>(vec: &mut Vec<(&String, TValue)>)
    ensures
        final(vec)@ == stable_sort_by_first(old(vec)@),
{
    let ghost input = vec@;
    let n = vec.len();
    let mut i: usize = 0;
    while i < n
        invariant
            0 <= i <= n,
            n == input.len(),
            vec@.len() == n,
            vec@.take(i as int) == stable_sort_by_first(input.take(i as int)),
            vec@.skip(i as int) == input.skip(i as int),
        decreases n - i,
    {
        let ghost before = vec@;
        let x = vec.remove(i);
        proof {
            assert(before.skip(i as int)[0] == before[i as int]);
            assert(input.skip(i as int)[0] == input[i as int]);
            assert(x == input[i as int]);
            assert(vec@.take(i as int) =~= before.take(i as int));
        }
        let ghost prefix = vec@.take(i as int);
        let ghost rest = vec@.skip(i as int);
        proof {
            assert(rest =~= before.skip(i as int).drop_first());
            assert(input.skip(i as int).drop_first() =~= input.skip(i + 1));
            assert(vec@ =~= prefix + rest);
        }
        let mut j: usize = i;
        proof {
            assert(prefix.take(i as int) =~= prefix);
        }
        while j > 0 && string_less(x.0, vec[j - 1].0)
            invariant
                j <= i,
                i < n,
                vec@.len() == n - 1,
                prefix == vec@.take(i as int),
                vec@ == prefix + rest,
                insertion_point(prefix, x.0@) == insertion_point(prefix.take(j as int), x.0@),
            decreases j,
        {
            proof {
                assert(prefix.take(j as int).drop_last() =~= prefix.take(j - 1));
                assert(prefix.take(j as int).last() == vec@[j - 1]);
            }
            j = j - 1;
        }
        proof {
            if j > 0 {
                assert(prefix.take(j as int).last() == vec@[j - 1]);
            }
            assert(prefix.take(i as int) =~= prefix);
            assert(input.take(i + 1).drop_last() =~= input.take(i as int));
            assert(input.take(i + 1).last() == x);
        }
        vec.insert(j, x);
        proof {
            assert(vec@.take(i + 1) =~= prefix.insert(j as int, x));
            assert(vec@ =~= prefix.insert(j as int, x) + rest);
            assert(vec@.skip(i + 1) =~= rest);
        }
        i = i + 1;
    }
    proof {
        assert(vec@ =~= vec@.take(n as int));
        assert(input.take(n as int) =~= input);
    }
}

/// Where a pair with the given key goes into `s`, keys compared as strings.
pub open spec fn key_insertion_point<T>(s: Seq<(Seq<char>, T)>, key: Seq<char>) -> int
    decreases s.len(),
{
    if s.len() == 0 {
        0
    } else if string_lt(key, s.last().0) {
        key_insertion_point(s.drop_last(), key)
    } else {
        s.len() as int
    }
}

/// The pairs ordered by their keys; pairs with equal keys keep their order.
pub open spec fn stable_sort_by_key<T>(s: Seq<(Seq<char>, T)>) -> Seq<(Seq<char>, T)>
    decreases s.len(),
{
    if s.len() == 0 {
        s
    } else {
        let rest = stable_sort_by_key(s.drop_last());
        rest.insert(key_insertion_point(rest, s.last().0), s.last())
    }
}

/// The pairs with their strings read as character sequences.
pub open spec fn keyed<T>(s: Seq<(&String, T)>) -> Seq<(Seq<char>, T)> {
    Seq::new(s.len(), |i: int| (s[i].0@, s[i].1))
}

proof fn lemma_keyed_insertion_point<T>(s: Seq<(&String, T)>, key: Seq<char>)
    ensures
        insertion_point(s, key) == key_insertion_point(keyed(s), key),
    decreases s.len(),
{
    if s.len() > 0 {
        assert(keyed(s.drop_last()) =~= keyed(s).drop_last());
        lemma_keyed_insertion_point(s.drop_last(), key);
    }
}

/// Sorting pairs by their strings and sorting them by the strings' characters
/// put them in the same order.
pub proof fn lemma_stable_sort_keyed<T>(s: Seq<(&String, T)>)
    ensures
        keyed(stable_sort_by_first(s)) == stable_sort_by_key(keyed(s)),
    decreases s.len(),
{
    if s.len() > 0 {
        lemma_stable_sort_keyed(s.drop_last());
        let rest = stable_sort_by_first(s.drop_last());
        assert(keyed(s.drop_last()) =~= keyed(s).drop_last());
        lemma_keyed_insertion_point(rest, s.last().0@);
        let p = insertion_point(rest, s.last().0@);
        lemma_insertion_point_bounds(rest, s.last().0@);
        assert(keyed(rest.insert(p, s.last())) =~= keyed(rest).insert(p, (s.last().0@, s.last().1)));
    }
}

} // verus!
