//! The library's laws: what the sort's guarantees pin down.
//!
//! The comparator treats incomparable pairs and non-finite numbers as
//! `Equal`, so an in-order arrangement is in general not unique. These
//! laws say when it is: for elements whose keys are pairwise comparable
//! and tie-free, the in-order arrangement of a collection is unique, the
//! descending arrangement is exactly the reverse of the ascending one,
//! and sorting an in-order arrangement can only hand it back.

use vstd::prelude::*;

use crate::compare::Outcome;
use crate::compare::le;
use crate::compare::lemma_cmp_flip;
use crate::compare::lemma_cmp_refl;
use crate::compare::lemma_cmp_trans;
use crate::compare::spec_cmp;
use crate::compare::spec_cmp_asc;
use crate::perm::lemma_count_two_indices;
use crate::perm::lemma_dup_count;
use crate::perm::lemma_multiset_index;
use crate::sorted_by_column;
use crate::sorted_elements;
use crate::value::Json;
use crate::value::ValueView;
use crate::value::spec_classify;
use crate::value::spec_column_key;

verus! {

/// Neighbours are in order under `key` in the given direction.
pub open spec fn sorted_adjacent(
    s: Seq<Json>,
    key: spec_fn(Json) -> ValueView,
    ascending: bool,
) -> bool {
    forall|p: int|
        #![trigger key(s[p])]
        0 <= p && p + 1 < s.len() ==> le(key(s[p]), key(s[p + 1]), ascending)
}

/// Every earlier element's key compares strictly `Less` to every later
/// one's.
pub open spec fn strictly_sorted(
    s: Seq<Json>,
    key: spec_fn(Json) -> ValueView,
    ascending: bool,
) -> bool {
    forall|p: int, q: int|
        #![trigger key(s[p]), key(s[q])]
        0 <= p < q < s.len() ==> spec_cmp(key(s[p]), key(s[q]), ascending) == Outcome::Less
}

/// No two distinct positions hold keys that compare `Equal`: every pair
/// of elements is comparable, and there are no ties.
pub open spec fn distinct_comparable(s: Seq<Json>, key: spec_fn(Json) -> ValueView) -> bool {
    forall|p: int, q: int|
        #![trigger key(s[p]), key(s[q])]
        0 <= p < s.len() && 0 <= q < s.len() && p != q ==> spec_cmp_asc(key(s[p]), key(s[q]))
            != Outcome::Equal
}

/// Under pairwise comparable, tie-free keys, each element's key compares
/// `Less` to every later one's, by chaining neighbour steps.
proof fn lemma_less_chain(
    s: Seq<Json>,
    key: spec_fn(Json) -> ValueView,
    ascending: bool,
    p: int,
    q: int,
)
    requires
        sorted_adjacent(s, key, ascending),
        distinct_comparable(s, key),
        0 <= p < q < s.len(),
    ensures
        spec_cmp(key(s[p]), key(s[q]), ascending) == Outcome::Less,
    decreases q - p,
{
    if q == p + 1 {
        assert(le(key(s[p]), key(s[q]), ascending));
        assert(spec_cmp_asc(key(s[p]), key(s[q])) != Outcome::Equal);
        assert(spec_cmp_asc(key(s[q]), key(s[p])) != Outcome::Equal);
    } else {
        lemma_less_chain(s, key, ascending, p, q - 1);
        lemma_less_chain(s, key, ascending, q - 1, q);
        lemma_cmp_trans(key(s[p]), key(s[q - 1]), key(s[q]), ascending);
    }
}

/// With pairwise comparable, tie-free keys, neighbourwise order is full
/// strict order.
pub proof fn lemma_adjacent_strictly_sorted(
    s: Seq<Json>,
    key: spec_fn(Json) -> ValueView,
    ascending: bool,
)
    requires
        sorted_adjacent(s, key, ascending),
        distinct_comparable(s, key),
    ensures
        strictly_sorted(s, key, ascending),
{
    assert forall|p: int, q: int|
        #![trigger key(s[p]), key(s[q])]
        0 <= p < q < s.len() implies spec_cmp(key(s[p]), key(s[q]), ascending)
        == Outcome::Less by {
        lemma_less_chain(s, key, ascending, p, q);
    }
}

/// Pairwise comparable and tie-free carries over to any rearrangement of
/// the same elements.
pub proof fn lemma_distinct_transfer(s: Seq<Json>, t: Seq<Json>, key: spec_fn(Json) -> ValueView)
    requires
        s.to_multiset() == t.to_multiset(),
        distinct_comparable(s, key),
    ensures
        distinct_comparable(t, key),
{
    broadcast use vstd::seq_lib::group_to_multiset_ensures;

    assert forall|p: int, q: int|
        #![trigger key(t[p]), key(t[q])]
        0 <= p < t.len() && 0 <= q < t.len() && p != q implies spec_cmp_asc(key(t[p]), key(t[q]))
        != Outcome::Equal by {
        if t[p] == t[q] {
            lemma_dup_count(t, p, q);
            let (i, j) = lemma_count_two_indices(s, t[p]);
            lemma_cmp_refl(key(s[i]));
            assert(spec_cmp_asc(key(s[i]), key(s[j])) != Outcome::Equal);
            assert(false);
        } else {
            assert(t.contains(t[p]));
            assert(t.contains(t[q]));
            let i = lemma_multiset_index(s, t[p]);
            let j = lemma_multiset_index(s, t[q]);
            assert(spec_cmp_asc(key(s[i]), key(s[j])) != Outcome::Equal);
        }
    }
}

/// Same elements in the same strict order: the arrangements coincide.
pub proof fn lemma_strictly_sorted_unique(
    a: Seq<Json>,
    b: Seq<Json>,
    key: spec_fn(Json) -> ValueView,
    ascending: bool,
)
    requires
        a.to_multiset() == b.to_multiset(),
        strictly_sorted(a, key, ascending),
        strictly_sorted(b, key, ascending),
    ensures
        a == b,
    decreases a.len(),
{
    broadcast use vstd::seq_lib::group_to_multiset_ensures;

    assert(a.to_multiset().len() == a.len());
    assert(b.to_multiset().len() == b.len());
    if a.len() == 0 {
        assert(a =~= b);
    } else {
        assert(a.contains(a[0]));
        assert(b.contains(b[0]));
        let m = lemma_multiset_index(b, a[0]);
        let k = lemma_multiset_index(a, b[0]);
        if m > 0 && k > 0 {
            assert(spec_cmp(key(b[0]), key(b[m]), ascending) == Outcome::Less);
            assert(spec_cmp(key(a[0]), key(a[k]), ascending) == Outcome::Less);
            if ascending {
                lemma_cmp_flip(key(a[0]), key(b[0]));
            } else {
                lemma_cmp_flip(key(b[0]), key(a[0]));
            }
            assert(false);
        }
        assert(a[0] == b[0]);
        let a1 = a.remove(0);
        let b1 = b.remove(0);
        a.remove_ensures(0);
        b.remove_ensures(0);
        assert(a1.to_multiset() == b1.to_multiset());
        assert(strictly_sorted(a1, key, ascending)) by {
            assert forall|p: int, q: int|
                #![trigger key(a1[p]), key(a1[q])]
                0 <= p < q < a1.len() implies spec_cmp(key(a1[p]), key(a1[q]), ascending)
                == Outcome::Less by {
                assert(a1[p] == a[p + 1]);
                assert(a1[q] == a[q + 1]);
            }
        }
        assert(strictly_sorted(b1, key, ascending)) by {
            assert forall|p: int, q: int|
                #![trigger key(b1[p]), key(b1[q])]
                0 <= p < q < b1.len() implies spec_cmp(key(b1[p]), key(b1[q]), ascending)
                == Outcome::Less by {
                assert(b1[p] == b[p + 1]);
                assert(b1[q] == b[q + 1]);
            }
        }
        lemma_strictly_sorted_unique(a1, b1, key, ascending);
        assert forall|i: int| 0 <= i < a.len() implies a[i] == b[i] by {
            if i > 0 {
                assert(a[i] == a1[i - 1]);
                assert(b[i] == b1[i - 1]);
            }
        }
        assert(a =~= b);
    }
}

/// Direction symmetry: over pairwise comparable, tie-free keys, the
/// descending arrangement of a collection is exactly the reverse of its
/// ascending arrangement — sorting ascending and reversing equals
/// sorting descending.
pub proof fn lemma_direction_symmetry(a: Seq<Json>, d: Seq<Json>, key: spec_fn(Json) -> ValueView)
    requires
        a.to_multiset() == d.to_multiset(),
        sorted_adjacent(a, key, true),
        sorted_adjacent(d, key, false),
        distinct_comparable(a, key),
    ensures
        d == a.reverse(),
{
    lemma_adjacent_strictly_sorted(a, key, true);
    lemma_distinct_transfer(a, d, key);
    lemma_adjacent_strictly_sorted(d, key, false);
    a.lemma_reverse_to_multiset();
    let r = a.reverse();
    assert(strictly_sorted(r, key, false)) by {
        assert forall|p: int, q: int|
            #![trigger key(r[p]), key(r[q])]
            0 <= p < q < r.len() implies spec_cmp(key(r[p]), key(r[q]), false)
            == Outcome::Less by {
            let n = a.len();
            assert(r[p] == a[n - 1 - p]);
            assert(r[q] == a[n - 1 - q]);
            assert(spec_cmp(key(a[n - 1 - q]), key(a[n - 1 - p]), true) == Outcome::Less);
        }
    }
    lemma_strictly_sorted_unique(r, d, key, false);
}

/// No two distinct positions hold elements whose classifications compare
/// `Equal`: the tie-free, pairwise comparable condition in the form the
/// flat collection entry points speak.
pub open spec fn distinct_comparable_elements(s: Seq<Json>) -> bool {
    forall|p: int, q: int|
        #![trigger s[p], s[q]]
        0 <= p < s.len() && 0 <= q < s.len() && p != q ==> spec_cmp_asc(
            spec_classify(s[p]),
            spec_classify(s[q]),
        ) != Outcome::Equal
}

/// Direction symmetry in the form the flat collection entry points
/// promise: over comparable, tie-free elements, an ascending arrangement
/// reversed is exactly the descending arrangement of the same elements.
pub proof fn lemma_direction_symmetry_elements(a: Seq<Json>, d: Seq<Json>)
    requires
        a.to_multiset() == d.to_multiset(),
        sorted_elements(a, true),
        sorted_elements(d, false),
        distinct_comparable_elements(a),
    ensures
        d == a.reverse(),
{
    let key = (|x: Json| spec_classify(x));
    assert(sorted_adjacent(a, key, true)) by {
        assert forall|p: int|
            #![trigger key(a[p])]
            0 <= p && p + 1 < a.len() implies le(key(a[p]), key(a[p + 1]), true) by {
            assert(le(spec_classify(a[p]), spec_classify(a[p + 1]), true));
        }
    }
    assert(sorted_adjacent(d, key, false)) by {
        assert forall|p: int|
            #![trigger key(d[p])]
            0 <= p && p + 1 < d.len() implies le(key(d[p]), key(d[p + 1]), false) by {
            assert(le(spec_classify(d[p]), spec_classify(d[p + 1]), false));
        }
    }
    assert(distinct_comparable(a, key)) by {
        assert forall|p: int, q: int|
            #![trigger key(a[p]), key(a[q])]
            0 <= p < a.len() && 0 <= q < a.len() && p != q implies spec_cmp_asc(
            key(a[p]),
            key(a[q]),
        ) != Outcome::Equal by {
            assert(spec_cmp_asc(spec_classify(a[p]), spec_classify(a[q])) != Outcome::Equal);
        }
    }
    lemma_direction_symmetry(a, d, key);
}

/// No two distinct positions hold records whose keys under the named
/// column compare `Equal`: the tie-free, pairwise comparable condition in
/// the form the column entry point speaks.
pub open spec fn distinct_comparable_by_column(s: Seq<Json>, column: Seq<char>) -> bool {
    forall|p: int, q: int|
        #![trigger s[p], s[q]]
        0 <= p < s.len() && 0 <= q < s.len() && p != q ==> spec_cmp_asc(
            spec_column_key(s[p], column),
            spec_column_key(s[q], column),
        ) != Outcome::Equal
}

/// Direction symmetry in the form the column entry point promises: over
/// comparable, tie-free column keys, an ascending arrangement reversed is
/// exactly the descending arrangement of the same records.
pub proof fn lemma_direction_symmetry_by_column(a: Seq<Json>, d: Seq<Json>, column: Seq<char>)
    requires
        a.to_multiset() == d.to_multiset(),
        sorted_by_column(a, column, true),
        sorted_by_column(d, column, false),
        distinct_comparable_by_column(a, column),
    ensures
        d == a.reverse(),
{
    let key = (|x: Json| spec_column_key(x, column));
    assert(sorted_adjacent(a, key, true)) by {
        assert forall|p: int|
            #![trigger key(a[p])]
            0 <= p && p + 1 < a.len() implies le(key(a[p]), key(a[p + 1]), true) by {
            assert(le(spec_column_key(a[p], column), spec_column_key(a[p + 1], column), true));
        }
    }
    assert(sorted_adjacent(d, key, false)) by {
        assert forall|p: int|
            #![trigger key(d[p])]
            0 <= p && p + 1 < d.len() implies le(key(d[p]), key(d[p + 1]), false) by {
            assert(le(spec_column_key(d[p], column), spec_column_key(d[p + 1], column), false));
        }
    }
    assert(distinct_comparable(a, key)) by {
        assert forall|p: int, q: int|
            #![trigger key(a[p]), key(a[q])]
            0 <= p < a.len() && 0 <= q < a.len() && p != q implies spec_cmp_asc(
            key(a[p]),
            key(a[q]),
        ) != Outcome::Equal by {
            assert(spec_cmp_asc(spec_column_key(a[p], column), spec_column_key(a[q], column))
                != Outcome::Equal);
        }
    }
    lemma_direction_symmetry(a, d, key);
}

/// Idempotence: over pairwise comparable, tie-free keys there is only
/// one in-order arrangement of given elements, so sorting an in-order
/// collection again can only hand it back. (The executable sort returns
/// an in-order input unchanged even with ties and incomparable pairs:
/// see `sort_records`.)
pub proof fn lemma_sort_idempotent(
    s: Seq<Json>,
    out: Seq<Json>,
    key: spec_fn(Json) -> ValueView,
    ascending: bool,
)
    requires
        s.to_multiset() == out.to_multiset(),
        sorted_adjacent(s, key, ascending),
        sorted_adjacent(out, key, ascending),
        distinct_comparable(s, key),
    ensures
        out == s,
{
    lemma_adjacent_strictly_sorted(s, key, ascending);
    lemma_distinct_transfer(s, out, key);
    lemma_adjacent_strictly_sorted(out, key, ascending);
    lemma_strictly_sorted_unique(s, out, key, ascending);
}

} // verus!
