//! End-to-end tests of the four sorting entry points.

use dynsort::ZERO_KEY;
use dynsort::sort::CountingColumnKey;
use dynsort::sort_numbers;
use dynsort::sort_objects_by_column;
use dynsort::sort_objects_by_key_fn;
use dynsort::sort_strings;
use dynsort::value::Json;

/// Order-preserving integer encoding of a double: smaller doubles map to
/// smaller keys.
fn num_key(x: f64) -> u64 {
    let b = x.to_bits();
    if b >> 63 == 1 { !b } else { b | (1u64 << 63) }
}

fn num(x: f64) -> Json {
    Json::Num { key: num_key(x), finite: x.is_finite() }
}

fn text(t: &str) -> Json {
    Json::Str(t.to_string())
}

fn obj(fields: Vec<(&str, Json)>) -> Json {
    Json::Obj(fields.into_iter().map(|(k, v)| (k.to_string(), v)).collect())
}

fn unwrap_arr(j: Json) -> Vec<Json> {
    match j {
        Json::Arr(v) => v,
        _ => panic!("expected a collection"),
    }
}

fn nums(xs: Vec<f64>) -> Json {
    Json::Arr(xs.into_iter().map(num).collect())
}

fn texts(ts: Vec<&str>) -> Json {
    Json::Arr(ts.into_iter().map(text).collect())
}

#[test]
fn numbers_ascending() {
    let out = sort_numbers(nums(vec![3.0, 1.0, 2.0]), true);
    assert_eq!(unwrap_arr(out), vec![num(1.0), num(2.0), num(3.0)]);
}

#[test]
fn numbers_descending() {
    let out = sort_numbers(nums(vec![3.0, 1.0, 2.0]), false);
    assert_eq!(unwrap_arr(out), vec![num(3.0), num(2.0), num(1.0)]);
}

#[test]
fn numbers_negative_and_fractional() {
    let out = sort_numbers(nums(vec![2.25, -1.5, 0.0, -7.0]), true);
    assert_eq!(unwrap_arr(out), vec![num(-7.0), num(-1.5), num(0.0), num(2.25)]);
}

#[test]
fn numbers_with_duplicates_keep_the_multiset() {
    let out = sort_numbers(nums(vec![2.0, 1.0, 2.0]), true);
    assert_eq!(unwrap_arr(out), vec![num(1.0), num(2.0), num(2.0)]);
}

#[test]
fn numbers_non_numeric_element_falls_back_to_zero() {
    let input = Json::Arr(vec![num(5.0), Json::Bool(true), num(-1.0)]);
    let out = sort_numbers(input, true);
    assert_eq!(unwrap_arr(out), vec![num(-1.0), num(0.0), num(5.0)]);
    assert_eq!(num(0.0), Json::Num { key: ZERO_KEY, finite: true });
}

#[test]
fn numbers_non_finite_stay_in_the_collection() {
    let out = sort_numbers(nums(vec![f64::NAN, 2.0, 1.0]), true);
    let v = unwrap_arr(out);
    assert_eq!(v.len(), 3);
    assert!(v.contains(&num(1.0)));
    assert!(v.contains(&num(2.0)));
    assert!(v.contains(&num(f64::NAN)));
}

#[test]
fn numbers_malformed_input_yields_empty() {
    let out = sort_numbers(text("not a collection"), true);
    assert_eq!(unwrap_arr(out), Vec::<Json>::new());
}

#[test]
fn numbers_ascending_reversed_equals_descending() {
    let mut reversed = unwrap_arr(sort_numbers(nums(vec![3.0, 1.0, 2.0]), true));
    reversed.reverse();
    let desc = unwrap_arr(sort_numbers(nums(vec![3.0, 1.0, 2.0]), false));
    assert_eq!(reversed, desc);
}

#[test]
fn numbers_sorting_twice_changes_nothing() {
    let expected = vec![num(1.0), num(2.0), num(2.0), num(3.0)];
    let once = sort_numbers(nums(vec![3.0, 1.0, 2.0, 2.0]), true);
    assert_eq!(unwrap_arr(once), expected);
    let twice = sort_numbers(Json::Arr(expected), true);
    assert_eq!(unwrap_arr(twice), vec![num(1.0), num(2.0), num(2.0), num(3.0)]);
}

#[test]
fn strings_ascending() {
    let out = sort_strings(texts(vec!["banana", "apple", "cherry"]), true);
    assert_eq!(unwrap_arr(out), vec![text("apple"), text("banana"), text("cherry")]);
}

#[test]
fn strings_descending() {
    let out = sort_strings(texts(vec!["banana", "apple", "cherry"]), false);
    assert_eq!(unwrap_arr(out), vec![text("cherry"), text("banana"), text("apple")]);
}

#[test]
fn strings_ascending_reversed_equals_descending() {
    let mut reversed = unwrap_arr(sort_strings(texts(vec!["pear", "fig", "lime"]), true));
    reversed.reverse();
    let desc = unwrap_arr(sort_strings(texts(vec!["pear", "fig", "lime"]), false));
    assert_eq!(reversed, desc);
}

#[test]
fn strings_non_string_element_falls_back_to_empty() {
    let input = Json::Arr(vec![text("b"), num(1.0), text("a")]);
    let out = sort_strings(input, true);
    assert_eq!(unwrap_arr(out), vec![text(""), text("a"), text("b")]);
}

#[test]
fn strings_malformed_input_yields_empty() {
    let out = sort_strings(Json::Null, true);
    assert_eq!(unwrap_arr(out), Vec::<Json>::new());
}

#[test]
fn column_ascending() {
    let input = Json::Arr(vec![
        obj(vec![("age", num(30.0))]),
        obj(vec![("age", num(20.0))]),
        obj(vec![("age", num(25.0))]),
    ]);
    let out = sort_objects_by_column(input, "age", true);
    assert_eq!(
        unwrap_arr(out),
        vec![
            obj(vec![("age", num(20.0))]),
            obj(vec![("age", num(25.0))]),
            obj(vec![("age", num(30.0))]),
        ]
    );
}

#[test]
fn column_descending() {
    let input = Json::Arr(vec![obj(vec![("age", num(20.0))]), obj(vec![("age", num(30.0))])]);
    let out = sort_objects_by_column(input, "age", false);
    assert_eq!(
        unwrap_arr(out),
        vec![obj(vec![("age", num(30.0))]), obj(vec![("age", num(20.0))])]
    );
}

#[test]
fn column_of_strings() {
    let input = Json::Arr(vec![
        obj(vec![("name", text("cherry"))]),
        obj(vec![("name", text("apple"))]),
    ]);
    let out = sort_objects_by_column(input, "name", true);
    assert_eq!(
        unwrap_arr(out),
        vec![obj(vec![("name", text("apple"))]), obj(vec![("name", text("cherry"))])]
    );
}

#[test]
fn column_missing_field_is_tolerated() {
    let input = Json::Arr(vec![obj(vec![("age", num(20.0))]), obj(vec![("name", text("x"))])]);
    let out = unwrap_arr(sort_objects_by_column(input, "age", true));
    assert_eq!(out.len(), 2);
    assert!(out.contains(&obj(vec![("age", num(20.0))])));
    assert!(out.contains(&obj(vec![("name", text("x"))])));
}

#[test]
fn column_malformed_input_yields_empty() {
    let out = sort_objects_by_column(num(5.0), "age", true);
    assert_eq!(unwrap_arr(out), Vec::<Json>::new());
}

#[test]
fn key_fn_sorts_and_is_invoked() {
    let input = Json::Arr(vec![obj(vec![("v", num(3.0))]), obj(vec![("v", num(1.0))])]);
    let mut key = CountingColumnKey::new("v");
    let out = sort_objects_by_key_fn(input, &mut key, true);
    assert_eq!(
        unwrap_arr(out),
        vec![obj(vec![("v", num(1.0))]), obj(vec![("v", num(3.0))])]
    );
    assert!(key.call_count() > 0);
}

#[test]
fn key_fn_malformed_input_yields_empty() {
    let mut key = CountingColumnKey::new("v");
    let out = sort_objects_by_key_fn(Json::Bool(false), &mut key, true);
    assert_eq!(unwrap_arr(out), Vec::<Json>::new());
    assert_eq!(key.call_count(), 0);
}

#[test]
fn mixed_kinds_compare_equal_and_are_kept() {
    let input = Json::Arr(vec![num(9.0), text("a")]);
    let kept = unwrap_arr(sort_objects_by_column(input, "age", true));
    assert_eq!(kept.len(), 2);
    assert!(kept.contains(&num(9.0)));
    assert!(kept.contains(&text("a")));
}

#[test]
fn empty_collections_sort_to_empty() {
    assert_eq!(unwrap_arr(sort_numbers(Json::Arr(vec![]), true)), Vec::<Json>::new());
    assert_eq!(unwrap_arr(sort_strings(Json::Arr(vec![]), false)), Vec::<Json>::new());
    assert_eq!(
        unwrap_arr(sort_objects_by_column(Json::Arr(vec![]), "age", true)),
        Vec::<Json>::new()
    );
}
