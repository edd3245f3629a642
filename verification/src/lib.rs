//! Sorting utilities over dynamically typed collections: flat numeric
//! collections, flat string collections, and collections of records
//! sorted by a named column or by a caller-supplied key projection.
//!
//! Each entry point decodes its input into a typed sequence, orders it
//! with a comparison sort driven by the type-coercing comparator, and
//! returns a fresh collection. Decoding never fails: an input that is
//! not a collection at all yields the empty collection, and an element
//! of the wrong kind degrades to a documented fallback, so sorting
//! degrades gracefully on heterogeneous data instead of aborting.
//!
//! Numbers are carried as order-preserving integer keys chosen by the
//! boundary (smaller finite doubles map to smaller keys); the library
//! itself only ever orders the keys.

use vstd::prelude::*;

pub mod compare;
pub mod laws;
pub mod perm;
pub mod sort;
pub mod value;

use crate::compare::le;
use crate::perm::lemma_multiset_index;
use crate::sort::ColumnKey;
use crate::sort::ElementKey;
use crate::sort::KeyExtractor;
use crate::sort::sort_records;
use crate::sort::sorted_adjacent_by;
use crate::value::Json;
use crate::value::spec_classify;
use crate::value::spec_column_key;

verus! {

/// The order key that the boundary encoding assigns to the double zero:
/// the per-element fallback for elements of a numeric collection that
/// are not numbers.
pub const ZERO_KEY: u64 = 0x8000_0000_0000_0000;

/// A numeric element as decoded: itself when it is a number, the number
/// zero otherwise.
pub open spec fn spec_coerce_num(j: Json) -> Json {
    if j is Num {
        j
    } else {
        (Json::Num { key: ZERO_KEY, finite: true })
    }
}

/// The decoded elements of a numeric collection: each element coerced
/// to a number. An input that is not a collection decodes to nothing.
pub open spec fn spec_number_elems(j: Json) -> Seq<Json> {
    match j {
        Json::Arr(items) => Seq::new(items@.len(), |p: int| spec_coerce_num(items@[p])),
        _ => Seq::empty(),
    }
}

/// The text a string element carries: the empty text for an element
/// that is not a string.
pub open spec fn spec_str_view(j: Json) -> Seq<char> {
    match j {
        Json::Str(s) => s@,
        _ => Seq::empty(),
    }
}

/// The texts a sequence of string elements carries.
pub open spec fn text_views(s: Seq<Json>) -> Seq<Seq<char>> {
    Seq::new(s.len(), |p: int| spec_str_view(s[p]))
}

/// The decoded texts of a string collection. An input that is not a
/// collection decodes to nothing.
pub open spec fn spec_string_views(j: Json) -> Seq<Seq<char>> {
    match j {
        Json::Arr(items) => text_views(items@),
        _ => Seq::empty(),
    }
}

/// Neighbours are in order under their own classification.
pub open spec fn sorted_elements(s: Seq<Json>, ascending: bool) -> bool {
    forall|p: int|
        #![trigger s[p]]
        0 <= p && p + 1 < s.len() ==> le(spec_classify(s[p]), spec_classify(s[p + 1]), ascending)
}

/// Neighbours are in order under the named column's classified value.
pub open spec fn sorted_by_column(s: Seq<Json>, column: Seq<char>, ascending: bool) -> bool {
    forall|p: int|
        #![trigger s[p]]
        0 <= p && p + 1 < s.len() ==> le(
            spec_column_key(s[p], column),
            spec_column_key(s[p + 1], column),
            ascending,
        )
}

/// Decodes a numeric collection: every element becomes a number, with
/// zero as the fallback for one that is not.
fn decode_numbers(input: Json) -> (r: Vec<Json>)
    ensures
        r@ == spec_number_elems(input),
{
    match input {
        Json::Arr(items) => {
            let n = items.len();
            let mut out: Vec<Json> = Vec::new();
            let mut idx: usize = 0;
            while idx < n
                invariant
                    idx <= n,
                    n == items@.len(),
                    out@.len() == idx,
                    forall|p: int|
                        #![trigger out@[p]]
                        0 <= p < idx as int ==> out@[p] == spec_coerce_num(items@[p]),
                decreases n - idx,
            {
                let e = &items[idx];
                let c = match e {
                    Json::Num { key, finite } => Json::Num { key: *key, finite: *finite },
                    _ => Json::Num { key: ZERO_KEY, finite: true },
                };
                out.push(c);
                idx = idx + 1;
            }
            proof {
                assert(out@ =~= spec_number_elems(input));
            }
            out
        },
        _ => Vec::new(),
    }
}

/// Decodes a string collection: every element becomes a string, with the
/// empty string as the fallback for one that is not.
fn decode_strings(input: Json) -> (r: Vec<Json>)
    ensures
        r@.len() == spec_string_views(input).len(),
        forall|p: int| 0 <= p < r@.len() ==> (#[trigger] r@[p]) is Str,
        forall|p: int|
            0 <= p < r@.len() ==> spec_str_view(#[trigger] r@[p]) == spec_string_views(input)[p],
        input matches Json::Arr(items) ==> forall|p: int|
            0 <= p < items@.len() && (#[trigger] items@[p]) is Str ==> r@[p] == items@[p],
{
    match input {
        Json::Arr(items) => {
            let n = items.len();
            let mut out: Vec<Json> = Vec::new();
            let mut idx: usize = 0;
            while idx < n
                invariant
                    idx <= n,
                    n == items@.len(),
                    out@.len() == idx,
                    forall|p: int| 0 <= p < idx as int ==> (#[trigger] out@[p]) is Str,
                    forall|p: int|
                        0 <= p < idx as int ==> spec_str_view(#[trigger] out@[p]) == spec_str_view(
                            items@[p],
                        ),
                    forall|p: int|
                        0 <= p < idx as int && (#[trigger] items@[p]) is Str ==> out@[p]
                            == items@[p],
                decreases n - idx,
            {
                let e = &items[idx];
                let c = match e {
                    Json::Str(s) => Json::Str(s.clone()),
                    _ => Json::Str(String::new()),
                };
                out.push(c);
                idx = idx + 1;
            }
            out
        },
        _ => Vec::new(),
    }
}

/// Sorts a flat numeric collection.
///
/// The input is decoded per element — an element that is not a number
/// decodes to the number zero rather than failing — and an input that is
/// not a collection at all yields the empty collection. The result holds
/// exactly the decoded numbers (a permutation), with neighbours in the
/// requested order; a decoded sequence that was already in order comes
/// back unchanged.
pub fn sort_numbers(numbers: Json, ascending: bool) -> (r: Json)
    ensures
        r is Arr,
        (r->Arr_0)@.to_multiset() == spec_number_elems(numbers).to_multiset(),
        sorted_elements((r->Arr_0)@, ascending),
        forall|p: int| 0 <= p < (r->Arr_0)@.len() ==> (#[trigger] (r->Arr_0)@[p]) is Num,
        sorted_elements(spec_number_elems(numbers), ascending) ==> (r->Arr_0)@
            == spec_number_elems(numbers),
{
    let decoded = decode_numbers(numbers);
    let ghost dec = decoded@;
    let mut key = ElementKey;
    let sorted = sort_records(decoded, &mut key, ascending);
    proof {
        assert forall|p: int|
            #![trigger sorted@[p]]
            0 <= p && p + 1 < sorted@.len() implies le(
            spec_classify(sorted@[p]),
            spec_classify(sorted@[p + 1]),
            ascending,
        ) by {
            assert(le(
                ElementKey.key_spec(sorted@[p]),
                ElementKey.key_spec(sorted@[p + 1]),
                ascending,
            ));
        }
        assert forall|p: int| 0 <= p < sorted@.len() implies (#[trigger] sorted@[p]) is Num by {
            broadcast use vstd::seq_lib::group_to_multiset_ensures;

            assert(sorted@.contains(sorted@[p]));
            let q = lemma_multiset_index(dec, sorted@[p]);
        }
        if sorted_elements(spec_number_elems(numbers), ascending) {
            assert(sorted_adjacent_by(dec, ElementKey, ascending)) by {
                assert forall|p: int|
                    #![trigger ElementKey.key_spec(dec[p])]
                    0 <= p && p + 1 < dec.len() implies le(
                    ElementKey.key_spec(dec[p]),
                    ElementKey.key_spec(dec[p + 1]),
                    ascending,
                ) by {
                    assert(le(spec_classify(dec[p]), spec_classify(dec[p + 1]), ascending));
                }
            }
        }
    }
    Json::Arr(sorted)
}

/// A permutation of string elements carries the same texts.
proof fn lemma_text_views_multiset(s: Seq<Json>, t: Seq<Json>)
    requires
        s.to_multiset() == t.to_multiset(),
    ensures
        text_views(s).to_multiset() == text_views(t).to_multiset(),
    decreases s.len(),
{
    broadcast use vstd::seq_lib::group_to_multiset_ensures;
    broadcast use vstd::multiset::group_multiset_axioms;

    if s.len() == 0 {
        assert(s.to_multiset().len() == s.len());
        assert(t.to_multiset().len() == t.len());
        assert(t.len() == 0);
        assert(text_views(s) =~= text_views(t));
    } else {
        let x = s[0];
        assert(s.contains(x));
        let q = crate::perm::lemma_multiset_index(t, x);
        let s1 = s.remove(0);
        let t1 = t.remove(q);
        assert(s1.to_multiset() == t1.to_multiset());
        lemma_text_views_multiset(s1, t1);
        s.remove_ensures(0);
        t.remove_ensures(q);
        text_views(s).remove_ensures(0);
        text_views(t).remove_ensures(q);
        assert(text_views(s1) =~= text_views(s).remove(0));
        assert(text_views(t1) =~= text_views(t).remove(q));
        let v = spec_str_view(x);
        assert(text_views(s)[0] == v);
        assert(text_views(t)[q] == v);
        assert(text_views(s).contains(v));
        assert(text_views(t).contains(v));
        assert(text_views(s).remove(0).to_multiset() == text_views(s).to_multiset().remove(v));
        assert(text_views(t).remove(q).to_multiset() == text_views(t).to_multiset().remove(v));
        crate::perm::lemma_multiset_remove_insert(text_views(s).to_multiset(), v);
        crate::perm::lemma_multiset_remove_insert(text_views(t).to_multiset(), v);
    }
}

/// Sorts a flat string collection.
///
/// The input is decoded per element — an element that is not a string
/// decodes to the empty string rather than failing — and an input that
/// is not a collection at all yields the empty collection. The result is
/// a collection of strings carrying exactly the decoded texts (a
/// permutation), with neighbours in the requested order; an input of
/// strings that was already in order comes back unchanged.
pub fn sort_strings(strings: Json, ascending: bool) -> (r: Json)
    ensures
        r is Arr,
        (r->Arr_0)@.len() == spec_string_views(strings).len(),
        text_views((r->Arr_0)@).to_multiset() == spec_string_views(strings).to_multiset(),
        sorted_elements((r->Arr_0)@, ascending),
        forall|p: int| 0 <= p < (r->Arr_0)@.len() ==> (#[trigger] (r->Arr_0)@[p]) is Str,
        strings matches Json::Arr(items) ==> ((forall|p: int|
            0 <= p < items@.len() ==> (#[trigger] items@[p]) is Str) && sorted_elements(
            items@,
            ascending,
        ) ==> (r->Arr_0)@ == items@),
{
    let decoded = decode_strings(strings);
    let ghost dec = decoded@;
    let mut key = ElementKey;
    let sorted = sort_records(decoded, &mut key, ascending);
    proof {
        broadcast use vstd::seq_lib::group_to_multiset_ensures;

        assert(sorted@.to_multiset().len() == dec.to_multiset().len());
        assert forall|p: int|
            #![trigger sorted@[p]]
            0 <= p && p + 1 < sorted@.len() implies le(
            spec_classify(sorted@[p]),
            spec_classify(sorted@[p + 1]),
            ascending,
        ) by {
            assert(le(
                ElementKey.key_spec(sorted@[p]),
                ElementKey.key_spec(sorted@[p + 1]),
                ascending,
            ));
        }
        assert forall|p: int| 0 <= p < sorted@.len() implies (#[trigger] sorted@[p]) is Str by {
            assert(sorted@.contains(sorted@[p]));
            let q = lemma_multiset_index(dec, sorted@[p]);
        }
        lemma_text_views_multiset(sorted@, dec);
        assert(text_views(dec) =~= spec_string_views(strings));
        if strings is Arr {
            let itemsv = (strings->Arr_0)@;
            if (forall|p: int| 0 <= p < itemsv.len() ==> (#[trigger] itemsv[p]) is Str)
                && sorted_elements(itemsv, ascending) {
                assert(dec =~= itemsv);
                assert(sorted_adjacent_by(dec, ElementKey, ascending)) by {
                    assert forall|p: int|
                        #![trigger ElementKey.key_spec(dec[p])]
                        0 <= p && p + 1 < dec.len() implies le(
                        ElementKey.key_spec(dec[p]),
                        ElementKey.key_spec(dec[p + 1]),
                        ascending,
                    ) by {
                        assert(le(spec_classify(dec[p]), spec_classify(dec[p + 1]), ascending));
                    }
                }
            }
        }
    }
    Json::Arr(sorted)
}

/// Sorts a collection of records by a caller-supplied key projection.
///
/// For each comparison the sort performs, the projection is invoked once
/// on each of the two records being compared, so it runs many times per
/// record over one sort; it must assign each record a fixed key (see
/// `KeyExtractor`). The result holds exactly the input records (a
/// permutation), with neighbours in order under the projected keys; an
/// input already in order comes back unchanged, and one that is not a
/// collection yields the empty collection.
pub fn sort_objects_by_key_fn<K: KeyExtractor>(objects: Json, key_fn: &mut K, ascending: bool) -> (r:
    Json)
    ensures
        r is Arr,
        forall|x: Json| #[trigger] final(key_fn).key_spec(x) == old(key_fn).key_spec(x),
        objects matches Json::Arr(items) ==> (r->Arr_0)@.to_multiset() == items@.to_multiset(),
        sorted_adjacent_by((r->Arr_0)@, *old(key_fn), ascending),
        objects matches Json::Arr(items) ==> (sorted_adjacent_by(items@, *old(key_fn), ascending)
            ==> (r->Arr_0)@ == items@),
        !(objects is Arr) ==> (r->Arr_0)@.len() == 0,
{
    match objects {
        Json::Arr(items) => Json::Arr(sort_records(items, key_fn, ascending)),
        _ => Json::Arr(Vec::new()),
    }
}

/// Sorts a collection of records by the named column.
///
/// A record's key is the classified value of its named field; a record
/// without the field, or an element that is not a record, has the key
/// `Missing` and so compares `Equal` to everything. The result holds
/// exactly the input elements (a permutation), with neighbours in order
/// under the column keys; an input already in order comes back
/// unchanged, and one that is not a collection yields the empty
/// collection.
pub fn sort_objects_by_column(objects: Json, column: &str, ascending: bool) -> (r: Json)
    ensures
        r is Arr,
        objects matches Json::Arr(items) ==> (r->Arr_0)@.to_multiset() == items@.to_multiset(),
        sorted_by_column((r->Arr_0)@, column@, ascending),
        objects matches Json::Arr(items) ==> (sorted_by_column(items@, column@, ascending) ==> (
        r->Arr_0)@ == items@),
        !(objects is Arr) ==> (r->Arr_0)@.len() == 0,
{
    match objects {
        Json::Arr(items) => {
            let ghost input = items@;
            let mut key = ColumnKey::new(column);
            let ghost k0 = key;
            let sorted = sort_records(items, &mut key, ascending);
            proof {
                assert forall|p: int|
                    #![trigger sorted@[p]]
                    0 <= p && p + 1 < sorted@.len() implies le(
                    spec_column_key(sorted@[p], column@),
                    spec_column_key(sorted@[p + 1], column@),
                    ascending,
                ) by {
                    assert(le(k0.key_spec(sorted@[p]), k0.key_spec(sorted@[p + 1]), ascending));
                }
                if sorted_by_column(input, column@, ascending) {
                    assert(sorted_adjacent_by(input, k0, ascending)) by {
                        assert forall|p: int|
                            #![trigger k0.key_spec(input[p])]
                            0 <= p && p + 1 < input.len() implies le(
                            k0.key_spec(input[p]),
                            k0.key_spec(input[p + 1]),
                            ascending,
                        ) by {
                            assert(le(
                                spec_column_key(input[p], column@),
                                spec_column_key(input[p + 1], column@),
                                ascending,
                            ));
                        }
                    }
                }
            }
            Json::Arr(sorted)
        },
        _ => Json::Arr(Vec::new()),
    }
}

} // verus!
