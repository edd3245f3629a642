//! Permutation facts: how sequence edits act on the multiset of elements.

use vstd::prelude::*;
use vstd::multiset::Multiset;
use vstd::seq_lib::lemma_multiset_commutative;

verus! {

/// Removing one instance of a present element and putting it back leaves
/// a multiset unchanged.
pub proof fn lemma_multiset_remove_insert<A>(m: Multiset<A>, x: A)
    requires
        m.count(x) > 0,
    ensures
        m.remove(x).insert(x) == m,
{
    broadcast use vstd::multiset::group_multiset_axioms;

    assert(m.remove(x).insert(x) =~= m);
}

/// Inserting an element into a sequence inserts it into the multiset of
/// its elements.
pub proof fn lemma_insert_to_multiset<A>(s: Seq<A>, i: int, x: A)
    requires
        0 <= i <= s.len(),
    ensures
        s.insert(i, x).to_multiset() == s.to_multiset().insert(x),
{
    broadcast use vstd::seq_lib::group_to_multiset_ensures;
    broadcast use vstd::multiset::group_multiset_axioms;

    let left = s.subrange(0, i);
    let right = s.subrange(i, s.len() as int);
    assert(s =~= left + right);
    lemma_multiset_commutative(left.push(x), right);
    lemma_multiset_commutative(left, right);
    assert(left.push(x).to_multiset() =~= left.to_multiset().insert(x));
    assert(s.insert(i, x).to_multiset() =~= s.to_multiset().insert(x));
}

/// Two distinct positions holding the same element put it in the
/// multiset at least twice.
pub proof fn lemma_dup_count<A>(s: Seq<A>, i: int, j: int)
    requires
        0 <= i < s.len(),
        0 <= j < s.len(),
        i != j,
        s[i] == s[j],
    ensures
        s.to_multiset().count(s[i]) >= 2,
{
    broadcast use vstd::seq_lib::group_to_multiset_ensures;
    broadcast use vstd::multiset::group_multiset_axioms;

    let x = s[i];
    let s1 = s.remove(i);
    s.remove_ensures(i);
    if j < i {
        assert(s1[j] == x);
    } else {
        assert(s1[j - 1] == x);
    }
    assert(s1.contains(x));
    assert(s.contains(x));
    assert(s1.to_multiset() == s.to_multiset().remove(x));
    assert(s.to_multiset().count(x) > 0);
    assert(s1.to_multiset().count(x) > 0);
    assert(Multiset::singleton(x).count(x) == 1);
    assert(s1.to_multiset().count(x) == s.to_multiset().count(x) - 1);
}

/// An element a multiset holds at least twice stands at two distinct
/// positions of the sequence.
pub proof fn lemma_count_two_indices<A>(s: Seq<A>, x: A) -> (r: (int, int))
    requires
        s.to_multiset().count(x) >= 2,
    ensures
        0 <= r.0 < s.len(),
        0 <= r.1 < s.len(),
        r.0 != r.1,
        s[r.0] == x,
        s[r.1] == x,
{
    broadcast use vstd::seq_lib::group_to_multiset_ensures;
    broadcast use vstd::multiset::group_multiset_axioms;

    let i = lemma_multiset_index(s, x);
    let s1 = s.remove(i);
    s.remove_ensures(i);
    assert(s1.to_multiset() == s.to_multiset().remove(x));
    let j1 = lemma_multiset_index(s1, x);
    let j: int = if j1 < i {
        j1
    } else {
        j1 + 1
    };
    assert(s[j] == x);
    (i, j)
}

/// A sequence whose multiset an element belongs to holds that element at
/// some index.
pub proof fn lemma_multiset_index<A>(s: Seq<A>, x: A) -> (i: int)
    requires
        s.to_multiset().count(x) > 0,
    ensures
        0 <= i < s.len(),
        s[i] == x,
{
    broadcast use vstd::seq_lib::group_to_multiset_ensures;

    assert(s.contains(x));
    choose|i: int| 0 <= i < s.len() && s[i] == x
}

} // verus!
