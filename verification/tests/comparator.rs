//! Tests of the comparator engine and the value classification.

use dynsort::compare::Outcome;
use dynsort::compare::compare_values;
use dynsort::compare::str_eq;
use dynsort::compare::text_cmp;
use dynsort::value::Json;
use dynsort::value::Value;
use dynsort::value::classify;
use dynsort::value::column_key;

fn num_key(x: f64) -> u64 {
    let b = x.to_bits();
    if b >> 63 == 1 { !b } else { b | (1u64 << 63) }
}

fn vnum(x: f64) -> Value {
    Value::Number { key: num_key(x), finite: x.is_finite() }
}

fn vtext(t: &str) -> Value {
    Value::Text(t.to_string())
}

#[test]
fn numbers_compare_numerically() {
    assert_eq!(compare_values(&vnum(1.0), &vnum(2.0), true), Outcome::Less);
    assert_eq!(compare_values(&vnum(2.0), &vnum(1.0), true), Outcome::Greater);
    assert_eq!(compare_values(&vnum(2.0), &vnum(2.0), true), Outcome::Equal);
    assert_eq!(compare_values(&vnum(-3.0), &vnum(0.5), true), Outcome::Less);
}

#[test]
fn descending_swaps_the_operands() {
    assert_eq!(compare_values(&vnum(1.0), &vnum(2.0), false), Outcome::Greater);
    assert_eq!(compare_values(&vtext("a"), &vtext("b"), false), Outcome::Greater);
    assert_eq!(compare_values(&vnum(2.0), &vnum(2.0), false), Outcome::Equal);
}

#[test]
fn non_finite_numbers_compare_equal() {
    assert_eq!(compare_values(&vnum(f64::NAN), &vnum(1.0), true), Outcome::Equal);
    assert_eq!(compare_values(&vnum(1.0), &vnum(f64::NAN), false), Outcome::Equal);
}

#[test]
fn texts_compare_codepoint_wise() {
    assert_eq!(compare_values(&vtext("apple"), &vtext("banana"), true), Outcome::Less);
    assert_eq!(compare_values(&vtext("b"), &vtext("ab"), true), Outcome::Greater);
    assert_eq!(compare_values(&vtext(""), &vtext("a"), true), Outcome::Less);
    assert_eq!(compare_values(&vtext("same"), &vtext("same"), true), Outcome::Equal);
}

#[test]
fn mismatched_or_incomparable_kinds_compare_equal() {
    assert_eq!(compare_values(&vnum(1.0), &vtext("a"), true), Outcome::Equal);
    assert_eq!(compare_values(&Value::Boolean(true), &Value::Boolean(false), true), Outcome::Equal);
    assert_eq!(compare_values(&Value::Null, &vnum(1.0), true), Outcome::Equal);
    assert_eq!(compare_values(&Value::Missing, &vtext("a"), false), Outcome::Equal);
    assert_eq!(compare_values(&Value::Other, &Value::Other, true), Outcome::Equal);
}

#[test]
fn text_cmp_orders_prefixes_first() {
    assert_eq!(text_cmp("ab", "abc"), Outcome::Less);
    assert_eq!(text_cmp("abc", "ab"), Outcome::Greater);
    assert_eq!(text_cmp("", ""), Outcome::Equal);
}

#[test]
fn str_eq_compares_characters() {
    assert!(str_eq("age", "age"));
    assert!(!str_eq("age", "agent"));
    assert!(!str_eq("age", ""));
}

#[test]
fn classify_tags_each_kind() {
    assert_eq!(classify(&Json::Num { key: 7, finite: true }), Value::Number { key: 7, finite: true });
    assert_eq!(classify(&Json::Str("t".to_string())), vtext("t"));
    assert_eq!(classify(&Json::Bool(true)), Value::Boolean(true));
    assert_eq!(classify(&Json::Null), Value::Null);
    assert_eq!(classify(&Json::Arr(vec![])), Value::Other);
    assert_eq!(classify(&Json::Obj(vec![])), Value::Other);
}

#[test]
fn column_key_looks_the_field_up() {
    let rec = Json::Obj(vec![
        ("name".to_string(), Json::Str("x".to_string())),
        ("age".to_string(), Json::Num { key: 9, finite: true }),
    ]);
    assert_eq!(column_key(&rec, "age"), Value::Number { key: 9, finite: true });
    assert_eq!(column_key(&rec, "name"), vtext("x"));
    assert_eq!(column_key(&rec, "height"), Value::Missing);
    assert_eq!(column_key(&Json::Null, "age"), Value::Missing);
}
