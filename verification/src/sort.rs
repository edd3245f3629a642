//! The comparison sort: key extraction, and an exchange-based insertion
//! sort whose output is a permutation of its input, adjacent-ordered by
//! the extracted keys.
//!
//! The comparator is not a total order — incomparable pairs compare
//! `Equal` — so the sort's direct guarantee is adjacentwise: no element
//! is immediately followed by one it must come after. For pairwise
//! comparable, tie-free inputs this pins the output completely (see the
//! laws module). The sort exchanges only strictly misordered neighbours,
//! so an input that is already in order comes back unchanged.

use vstd::prelude::*;
use vstd::string::StringExecFns;

use crate::compare::Outcome;
use crate::compare::compare_values;
use crate::compare::le;
use crate::compare::lemma_cmp_flip;
use crate::compare::spec_cmp;
use crate::perm::lemma_insert_to_multiset;
use crate::perm::lemma_multiset_remove_insert;
use crate::value::Json;
use crate::value::Value;
use crate::value::ValueView;
use crate::value::classify;
use crate::value::column_key;
use crate::value::spec_classify;
use crate::value::spec_column_key;

verus! {

/// A key projection: how an element's sort key is obtained.
///
/// The sort invokes `extract` once per operand per comparison, so the
/// projection is applied to an element many times over one sort, in an
/// unspecified order. `key_spec` is the key the projection assigns to an
/// element; `extract` must return that key every time. An implementation
/// may carry instrumentation of its own (say, a call counter), but may
/// not change the keys it assigns.
pub trait KeyExtractor: Sized {
    /// The key this extractor assigns to an element.
    spec fn key_spec(&self, j: Json) -> ValueView;

    /// Produces the sort key of one element. A projection that has no
    /// comparable key for an element returns `Value::Missing`, which
    /// compares `Equal` to everything, rather than failing.
    fn extract(&mut self, j: &Json) -> (r: Value)
        ensures
            r@ == old(self).key_spec(*j),
            forall|x: Json| #[trigger] final(self).key_spec(x) == old(self).key_spec(x),
    ;
}

/// No element is immediately followed by one that must come before it,
/// under the keys `k` assigns and the given direction.
pub open spec fn sorted_adjacent_by<K: KeyExtractor>(s: Seq<Json>, k: K, ascending: bool) -> bool {
    forall|p: int|
        #![trigger k.key_spec(s[p])]
        0 <= p && p + 1 < s.len() ==> le(k.key_spec(s[p]), k.key_spec(s[p + 1]), ascending)
}

/// An outcome of `Greater` means the swapped operands compare `Less`.
proof fn lemma_greater_swap(a: ValueView, b: ValueView, ascending: bool)
    requires
        spec_cmp(a, b, ascending) == Outcome::Greater,
    ensures
        spec_cmp(b, a, ascending) == Outcome::Less,
{
    if ascending {
        lemma_cmp_flip(a, b);
    } else {
        lemma_cmp_flip(b, a);
    }
}

/// Exchanges the element at `j` with its left neighbour.
fn swap_down(v: &mut Vec<Json>, j: usize)
    requires
        1 <= j < old(v)@.len(),
    ensures
        final(v)@.len() == old(v)@.len(),
        final(v)@[j as int - 1] == old(v)@[j as int],
        final(v)@[j as int] == old(v)@[j as int - 1],
        forall|p: int|
            0 <= p < final(v)@.len() && p != j as int - 1 && p != j as int ==> final(v)@[p]
                == old(v)@[p],
        final(v)@.to_multiset() == old(v)@.to_multiset(),
{
    let ghost s0 = v@;
    let x = v.remove(j);
    let ghost s1 = v@;
    v.insert(j - 1, x);
    proof {
        broadcast use vstd::seq_lib::group_to_multiset_ensures;

        s0.remove_ensures(j as int);
        s1.insert_ensures(j as int - 1, x);
        lemma_insert_to_multiset(s1, j as int - 1, x);
        assert(s0[j as int] == x);
        assert(s0.contains(x));
        lemma_multiset_remove_insert(s0.to_multiset(), x);
    }
}

/// Sorts the elements by the keys the extractor assigns, in the given
/// direction.
///
/// The result is a permutation of the input (nothing is created, dropped
/// or altered), neighbours are in order under the extracted keys, the
/// keys the extractor assigns are unchanged, and an input whose
/// neighbours were already in order comes back exactly as it was.
///
/// The algorithm is an insertion sort that exchanges only strictly
/// misordered neighbours, so ties keep their relative order in the usual
/// stable-sort sense; stability is not part of the proved contract.
pub fn sort_records<K: KeyExtractor>(elems: Vec<Json>, key_fn: &mut K, ascending: bool) -> (r: Vec<
    Json,
>)
    ensures
        r@.to_multiset() == elems@.to_multiset(),
        sorted_adjacent_by(r@, *old(key_fn), ascending),
        forall|x: Json| #[trigger] final(key_fn).key_spec(x) == old(key_fn).key_spec(x),
        sorted_adjacent_by(elems@, *old(key_fn), ascending) ==> r@ == elems@,
{
    let ghost k0 = *key_fn;
    let mut v = elems;
    let n = v.len();
    if n == 0 {
        return v;
    }
    let mut i: usize = 1;
    while i < n
        invariant
            1 <= i <= n,
            n == v@.len(),
            v@.to_multiset() == elems@.to_multiset(),
            forall|x: Json| #[trigger] key_fn.key_spec(x) == k0.key_spec(x),
            forall|p: int|
                #![trigger k0.key_spec(v@[p])]
                0 <= p && p + 1 < i as int ==> le(
                    k0.key_spec(v@[p]),
                    k0.key_spec(v@[p + 1]),
                    ascending,
                ),
            sorted_adjacent_by(elems@, k0, ascending) ==> v@ == elems@,
        decreases n - i,
    {
        let mut j: usize = i;
        let mut done = false;
        while !done
            invariant
                j <= i < n,
                n == v@.len(),
                v@.to_multiset() == elems@.to_multiset(),
                forall|x: Json| #[trigger] key_fn.key_spec(x) == k0.key_spec(x),
                forall|p: int|
                    #![trigger k0.key_spec(v@[p])]
                    0 <= p && p + 1 < j as int ==> le(
                        k0.key_spec(v@[p]),
                        k0.key_spec(v@[p + 1]),
                        ascending,
                    ),
                forall|p: int|
                    #![trigger k0.key_spec(v@[p])]
                    (j as int) < p && p + 1 <= i as int ==> le(
                        k0.key_spec(v@[p]),
                        k0.key_spec(v@[p + 1]),
                        ascending,
                    ),
                j < i ==> le(k0.key_spec(v@[j as int]), k0.key_spec(v@[j as int + 1]), ascending),
                1 <= j && j < i ==> le(
                    k0.key_spec(v@[j as int - 1]),
                    k0.key_spec(v@[j as int + 1]),
                    ascending,
                ),
                done ==> (j == 0 || le(
                    k0.key_spec(v@[j as int - 1]),
                    k0.key_spec(v@[j as int]),
                    ascending,
                )),
                sorted_adjacent_by(elems@, k0, ascending) ==> (v@ == elems@ && j == i),
            decreases j + (if done { 0int } else { 1int }),
        {
            if j == 0 {
                done = true;
            } else {
                let ka = key_fn.extract(&v[j - 1]);
                let kb = key_fn.extract(&v[j]);
                let c = compare_values(&ka, &kb, ascending);
                if c == Outcome::Greater {
                    proof {
                        lemma_greater_swap(
                            k0.key_spec(v@[j as int - 1]),
                            k0.key_spec(v@[j as int]),
                            ascending,
                        );
                        if sorted_adjacent_by(elems@, k0, ascending) {
                            assert(le(
                                k0.key_spec(elems@[j as int - 1]),
                                k0.key_spec(elems@[j as int]),
                                ascending,
                            ));
                            assert(false);
                        }
                    }
                    swap_down(&mut v, j);
                    j = j - 1;
                } else {
                    done = true;
                }
            }
        }
        proof {
            assert forall|p: int|
                #![trigger k0.key_spec(v@[p])]
                0 <= p && p + 1 <= i as int implies le(
                k0.key_spec(v@[p]),
                k0.key_spec(v@[p + 1]),
                ascending,
            ) by {
                if p + 1 < j as int {
                } else if j >= 1 && p + 1 == j as int {
                } else if p == j as int {
                }
            }
        }
        i = i + 1;
    }
    v
}

/// The identity projection: an element's key is its own classification.
/// This is how flat numeric and string collections are sorted.
pub struct ElementKey;

impl KeyExtractor for ElementKey {
    open spec fn key_spec(&self, j: Json) -> ValueView {
        spec_classify(j)
    }

    fn extract(&mut self, j: &Json) -> (r: Value) {
        classify(j)
    }
}

/// The column projection: a record's key is the classified value of its
/// named field, `Missing` when the element is not a record or the field
/// is absent.
pub struct ColumnKey {
    pub column: String,
}

impl ColumnKey {
    /// A projection by the given column name.
    pub fn new(column: &str) -> (r: ColumnKey)
        ensures
            r.column@ == column@,
    {
        let mut owned = String::new();
        owned.append(column);
        ColumnKey { column: owned }
    }
}

impl KeyExtractor for ColumnKey {
    open spec fn key_spec(&self, j: Json) -> ValueView {
        spec_column_key(j, self.column@)
    }

    fn extract(&mut self, j: &Json) -> (r: Value) {
        column_key(j, self.column.as_str())
    }
}

/// A column projection that tallies how often it is invoked: the keys it
/// assigns are those of `ColumnKey`, and each call of `extract` adds one
/// to the tally (saturating at the counter's maximum).
pub struct CountingColumnKey {
    pub column: String,
    pub calls: u64,
}

impl CountingColumnKey {
    /// A tallying projection by the given column name, with the tally at
    /// zero.
    pub fn new(column: &str) -> (r: CountingColumnKey)
        ensures
            r.column@ == column@,
            r.calls == 0,
    {
        let mut owned = String::new();
        owned.append(column);
        CountingColumnKey { column: owned, calls: 0 }
    }

    /// How often this projection has been invoked.
    pub fn call_count(&self) -> (r: u64)
        ensures
            r == self.calls,
    {
        self.calls
    }
}

impl KeyExtractor for CountingColumnKey {
    open spec fn key_spec(&self, j: Json) -> ValueView {
        spec_column_key(j, self.column@)
    }

    fn extract(&mut self, j: &Json) -> (r: Value) {
        if self.calls < u64::MAX {
            self.calls = self.calls + 1;
        }
        column_key(j, self.column.as_str())
    }
}

} // verus!
