//! The value model: the dynamically typed input values, and the
//! classification of a value into a comparison key.
//!
//! A numeric value is carried as `Num { key, finite }`, where `key` is an
//! order-preserving integer encoding of the underlying double: the encoding
//! chosen at the boundary must map smaller finite doubles to smaller keys.
//! The library itself only ever orders keys, so any order-preserving
//! encoding works; the boundary converts back on the way out.

use vstd::prelude::*;

verus! {

/// A dynamically typed input value: one element of a boundary collection,
/// or one field of a record.
///
/// A record is a mapping from field name to value, carried as a sequence of
/// pairs; a field name is looked up by its first occurrence.
#[derive(Debug, PartialEq, Eq)]
pub enum Json {
    Num { key: u64, finite: bool },
    Str(String),
    Bool(bool),
    Null,
    Arr(Vec<Json>),
    Obj(Vec<(String, Json)>),
}

/// An executable comparison key: the classification of a value
/// that the comparator engine dispatches on.
///
/// `Missing` stands for "field absent from this record" or "no comparable
/// key produced"; `Other` for a value that is neither numeric nor textual
/// (a nested structure, a boolean, null) and is treated as incomparable.
#[derive(Debug, PartialEq, Eq)]
pub enum Value {
    Number { key: u64, finite: bool },
    Text(String),
    Boolean(bool),
    Null,
    Missing,
    Other,
}

/// The mathematical model of a comparison key: as `Value`, with text
/// abstracted to its character sequence.
pub enum ValueView {
    Number { key: u64, finite: bool },
    Text(Seq<char>),
    Boolean(bool),
    Null,
    Missing,
    Other,
}

impl View for Value {
    type V = ValueView;

    open spec fn view(&self) -> ValueView {
        match self {
            Value::Number { key, finite } => ValueView::Number { key: *key, finite: *finite },
            Value::Text(s) => ValueView::Text(s@),
            Value::Boolean(b) => ValueView::Boolean(*b),
            Value::Null => ValueView::Null,
            Value::Missing => ValueView::Missing,
            Value::Other => ValueView::Other,
        }
    }
}

/// Classification of a value into a comparison key: numbers and text keep
/// their content, booleans and null are kept apart as incomparable kinds,
/// and structured values classify as `Other`.
pub open spec fn spec_classify(j: Json) -> ValueView {
    match j {
        Json::Num { key, finite } => ValueView::Number { key, finite },
        Json::Str(s) => ValueView::Text(s@),
        Json::Bool(b) => ValueView::Boolean(b),
        Json::Null => ValueView::Null,
        Json::Arr(_) => ValueView::Other,
        Json::Obj(_) => ValueView::Other,
    }
}

/// Classifies a value into a comparison key. Never fails: a value of an
/// unrecognized shape classifies as `Other` rather than being rejected.
pub fn classify(j: &Json) -> (r: Value)
    ensures
        r@ == spec_classify(*j),
{
    match j {
        Json::Num { key, finite } => Value::Number { key: *key, finite: *finite },
        Json::Str(s) => Value::Text(s.clone()),
        Json::Bool(b) => Value::Boolean(*b),
        Json::Null => Value::Null,
        Json::Arr(_) => Value::Other,
        Json::Obj(_) => Value::Other,
    }
}

/// The value of the first field named `name`, if any.
pub open spec fn spec_get(fields: Seq<(String, Json)>, name: Seq<char>) -> Option<Json>
    decreases fields.len(),
{
    if fields.len() == 0 {
        Option::None
    } else if fields[0].0@ == name {
        Option::Some(fields[0].1)
    } else {
        spec_get(fields.drop_first(), name)
    }
}

/// The comparison key held in a field list: the classified value of the
/// first field named `name`, or `Missing` when there is none.
pub open spec fn spec_field_key(fields: Seq<(String, Json)>, name: Seq<char>) -> ValueView {
    match spec_get(fields, name) {
        Option::Some(v) => spec_classify(v),
        Option::None => ValueView::Missing,
    }
}

/// The comparison key of a record's named column: the classified field
/// value, or `Missing` when the element is not a record or has no such
/// field.
pub open spec fn spec_column_key(j: Json, name: Seq<char>) -> ValueView {
    match j {
        Json::Obj(fields) => spec_field_key(fields@, name),
        _ => ValueView::Missing,
    }
}

/// Looks a field up in a field list and classifies it.
fn field_key(fields: &Vec<(String, Json)>, name: &str) -> (r: Value)
    ensures
        r@ == spec_field_key(fields@, name@),
{
    let n = fields.len();
    let mut i: usize = 0;
    proof {
        assert(fields@.skip(0) =~= fields@);
    }
    while i < n
        invariant
            i <= n,
            n == fields@.len(),
            spec_get(fields@, name@) == spec_get(fields@.skip(i as int), name@),
        decreases n - i,
    {
        let pair = &fields[i];
        if crate::compare::str_eq(pair.0.as_str(), name) {
            proof {
                assert(fields@.skip(i as int)[0] == fields@[i as int]);
                assert(fields@.skip(i as int).len() > 0);
                assert(fields@[i as int].0@ == name@);
                assert(spec_get(fields@.skip(i as int), name@)
                    == Option::Some(fields@[i as int].1));
            }
            return classify(&pair.1);
        }
        proof {
            assert(fields@.skip(i as int).drop_first() =~= fields@.skip(i as int + 1));
            assert(fields@.skip(i as int)[0] == fields@[i as int]);
        }
        i = i + 1;
    }
    proof {
        assert(fields@.skip(n as int) =~= Seq::<(String, Json)>::empty());
    }
    Value::Missing
}

/// Looks a column up in an element and classifies it, yielding `Missing`
/// for non-records and absent fields.
pub fn column_key(j: &Json, name: &str) -> (r: Value)
    ensures
        r@ == spec_column_key(*j, name@),
{
    match j {
        Json::Obj(fields) => field_key(fields, name),
        _ => Value::Missing,
    }
}

} // verus!
