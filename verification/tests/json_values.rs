use rlg::json::{
    array_contains, array_without, json_equal, obj_find, obj_get, obj_insert, obj_remove, Json,
    Number,
};

fn s(x: &str) -> Json {
    Json::Str(x.to_string())
}

fn num(n: u64) -> Json {
    Json::Number(Number::PosInt(n))
}

fn obj(entries: Vec<(&str, Json)>) -> Json {
    Json::Object(entries.into_iter().map(|(k, v)| (k.to_string(), v)).collect())
}

fn entries(entries: Vec<(&str, Json)>) -> Vec<(String, Json)> {
    entries.into_iter().map(|(k, v)| (k.to_string(), v)).collect()
}

#[test]
fn objects_compare_as_maps() {
    let a = obj(vec![("a", num(1)), ("b", s("x"))]);
    let b = obj(vec![("b", s("x")), ("a", num(1))]);
    assert!(json_equal(&a, &b));
    let c = obj(vec![("b", s("x")), ("a", num(2))]);
    assert!(!json_equal(&a, &c));
    let d = obj(vec![("a", num(1))]);
    assert!(!json_equal(&a, &d));
}

#[test]
fn arrays_compare_in_order() {
    let a = Json::Array(vec![num(1), num(2)]);
    let b = Json::Array(vec![num(2), num(1)]);
    assert!(!json_equal(&a, &b));
    assert!(json_equal(&a, &Json::Array(vec![num(1), num(2)])));
}

#[test]
fn numbers_compare_by_kind_and_zero_signs() {
    let pos_zero = Json::Number(Number::Float(0));
    let neg_zero = Json::Number(Number::Float(0x8000_0000_0000_0000));
    assert!(json_equal(&pos_zero, &neg_zero));
    assert!(!json_equal(&num(1), &Json::Number(Number::NegInt(1))));
    assert!(!json_equal(&num(1), &Json::Number(Number::Float(1.0f64.to_bits()))));
    assert!(json_equal(&Json::Number(Number::Float(1.5f64.to_bits())), &Json::Number(Number::Float(1.5f64.to_bits()))));
}

#[test]
fn object_insert_replaces_in_place_or_appends() {
    let mut e = entries(vec![("a", num(1)), ("b", num(2))]);
    obj_insert(&mut e, "a".to_string(), num(9));
    assert_eq!(e.len(), 2);
    assert_eq!(e[0].0, "a");
    assert!(json_equal(&e[0].1, &num(9)));
    obj_insert(&mut e, "c".to_string(), num(3));
    assert_eq!(e.len(), 3);
    assert_eq!(e[2].0, "c");
    assert_eq!(obj_find(&e, "b"), Some(1));
    assert_eq!(obj_find(&e, "z"), None);
}

#[test]
fn object_remove_gives_the_value() {
    let mut e = entries(vec![("a", num(1)), ("b", num(2))]);
    let v = obj_remove(&mut e, "a").unwrap();
    assert!(json_equal(&v, &num(1)));
    assert_eq!(e.len(), 1);
    assert!(obj_get(&e, "a").is_none());
    assert!(obj_remove(&mut e, "a").is_none());
}

#[test]
fn array_filtering_keeps_order() {
    let a = vec![num(1), s("x"), num(2), s("x"), num(3)];
    let b = vec![s("x"), num(2)];
    let r = array_without(&a, &b);
    assert_eq!(r.len(), 2);
    assert!(json_equal(&r[0], &num(1)));
    assert!(json_equal(&r[1], &num(3)));
    assert!(array_contains(&b, &num(2)));
    assert!(!array_contains(&b, &num(1)));
}

#[test]
fn copies_are_equal() {
    let v = obj(vec![("a", Json::Array(vec![num(1), Json::Null, Json::Bool(true)])), ("s", s("t"))]);
    let c = v.copy();
    assert!(json_equal(&v, &c));
}
