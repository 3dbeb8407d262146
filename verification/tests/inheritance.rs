use rlg::inherit::{delete_entries, extend_entries, inherit_entries, overlay_entries, relative_entries};
use rlg::json::{json_equal, obj_get, Json, Number};

fn s(x: &str) -> Json {
    Json::Str(x.to_string())
}

fn num(n: u64) -> Json {
    Json::Number(Number::PosInt(n))
}

fn arr(v: Vec<Json>) -> Json {
    Json::Array(v)
}

fn entries(entries: Vec<(&str, Json)>) -> Vec<(String, Json)> {
    entries.into_iter().map(|(k, v)| (k.to_string(), v)).collect()
}

fn obj(e: Vec<(&str, Json)>) -> Json {
    Json::Object(entries(e))
}

fn get<'a>(e: &'a Vec<(String, Json)>, k: &str) -> &'a Json {
    obj_get(e, k).unwrap()
}

#[test]
fn extend_appends_to_arrays_and_adds_keys() {
    let base = entries(vec![("flags", arr(vec![s("A")]))]);
    let ext = entries(vec![("flags", arr(vec![s("B"), s("C")])), ("qualities", arr(vec![s("Q")]))]);
    let r = extend_entries(base, &ext).unwrap();
    assert!(json_equal(get(&r, "flags"), &arr(vec![s("A"), s("B"), s("C")])));
    assert!(json_equal(get(&r, "qualities"), &arr(vec![s("Q")])));
}

#[test]
fn extend_of_a_non_array_fails() {
    let base = entries(vec![("name", s("x"))]);
    assert!(extend_entries(base, &entries(vec![("name", arr(vec![]))])).is_none());
    let base = entries(vec![("flags", arr(vec![]))]);
    assert!(extend_entries(base, &entries(vec![("flags", s("B"))])).is_none());
}

#[test]
fn delete_removes_elements_and_nulls_strings() {
    let base = entries(vec![("flags", arr(vec![s("A"), s("B"), s("A")])), ("looks_like", s("x"))]);
    let del = entries(vec![("flags", arr(vec![s("A")])), ("looks_like", num(0))]);
    let r = delete_entries(base, &del).unwrap();
    assert!(json_equal(get(&r, "flags"), &arr(vec![s("B")])));
    assert!(json_equal(get(&r, "looks_like"), &Json::Null));
}

#[test]
fn delete_of_a_missing_key_fails() {
    let base = entries(vec![("flags", arr(vec![]))]);
    assert!(delete_entries(base, &entries(vec![("other", arr(vec![]))])).is_none());
}

#[test]
fn relative_sums_numbers_and_nested_objects() {
    let base = entries(vec![
        ("weight", num(100)),
        ("damage", obj(vec![("amount", num(10)), ("type", s("bullet"))])),
        ("name", s("gun")),
    ]);
    let rel = entries(vec![
        ("weight", num(5)),
        ("damage", obj(vec![("amount", num(2)), ("type", s("bullet")), ("pierce", num(1))])),
        ("name", num(3)),
        ("range", num(4)),
    ]);
    let r = relative_entries(base, &rel).unwrap();
    let sum = Json::Number(Number::Sum(Box::new(Number::PosInt(100)), Box::new(Number::PosInt(5))));
    assert!(json_equal(get(&r, "weight"), &sum));
    let inner = obj(vec![
        ("amount", Json::Number(Number::Sum(Box::new(Number::PosInt(10)), Box::new(Number::PosInt(2))))),
        ("type", s("bullet")),
        ("pierce", num(1)),
    ]);
    assert!(json_equal(get(&r, "damage"), &inner));
    assert!(json_equal(get(&r, "name"), &s("gun")));
    assert!(json_equal(get(&r, "range"), &num(4)));
}

#[test]
fn relative_mismatches_fail() {
    let base = entries(vec![("weight", num(100))]);
    assert!(relative_entries(base, &entries(vec![("weight", s("heavy"))])).is_none());
    let base = entries(vec![("damage", obj(vec![("type", s("bullet"))]))]);
    let rel = entries(vec![("damage", obj(vec![("type", s("cut"))]))]);
    assert!(relative_entries(base, &rel).is_none());
    let base = entries(vec![("damage", obj(vec![]))]);
    assert!(relative_entries(base, &entries(vec![("damage", num(1))])).is_none());
}

#[test]
fn overlay_replaces_and_adds() {
    let base = entries(vec![("a", num(1)), ("b", num(2))]);
    let r = overlay_entries(base, &entries(vec![("b", num(3)), ("c", num(4))]));
    assert!(json_equal(&Json::Object(r), &Json::Object(entries(vec![("a", num(1)), ("b", num(3)), ("c", num(4))]))));
}

#[test]
fn inherit_applies_all_steps() {
    let parent = entries(vec![
        ("id", s("base_gun")),
        ("weight", num(100)),
        ("flags", arr(vec![s("A"), s("B")])),
        ("color", s("black")),
    ]);
    let child = entries(vec![
        ("id", s("my_gun")),
        ("copy-from", s("base_gun")),
        ("extend", obj(vec![("flags", arr(vec![s("C")]))])),
        ("delete", obj(vec![("flags", arr(vec![s("A")]))])),
        ("relative", obj(vec![("weight", num(10))])),
        ("proportional", obj(vec![("weight", num(2))])),
        ("replace_materials", obj(vec![])),
        ("color", s("red")),
    ]);
    let r = inherit_entries(&child, &parent).unwrap();
    let want = entries(vec![
        ("id", s("my_gun")),
        ("weight", Json::Number(Number::Sum(Box::new(Number::PosInt(100)), Box::new(Number::PosInt(10))))),
        ("flags", arr(vec![s("B"), s("C")])),
        ("color", s("red")),
    ]);
    assert!(json_equal(&Json::Object(r.clone_entries()), &Json::Object(want)));
}

#[test]
fn inherit_of_a_non_object_step_fails() {
    let parent = entries(vec![("weight", num(1))]);
    let child = entries(vec![("copy-from", s("p")), ("extend", arr(vec![]))]);
    assert!(inherit_entries(&child, &parent).is_none());
}

#[test]
fn own_entries_win_and_the_rest_is_inherited() {
    let parent = entries(vec![("color", s("black")), ("volume", num(5)), ("weight", num(7))]);
    let child = entries(vec![("copy-from", s("p")), ("color", s("red")), ("weight", num(9))]);
    let r = inherit_entries(&child, &parent).unwrap();
    assert!(json_equal(get(&r, "color"), &s("red")));
    assert!(json_equal(get(&r, "weight"), &num(9)));
    assert!(json_equal(get(&r, "volume"), &num(5)));
    assert!(obj_get(&r, "copy-from").is_none());
}

#[test]
fn inherited_steps_extend_delete_and_add() {
    let parent = entries(vec![
        ("flags", arr(vec![s("A"), s("B")])),
        ("looks_like", s("rock")),
        ("melee", obj(vec![("bash", num(3))])),
        ("name", s("thing")),
    ]);
    let child = entries(vec![
        ("copy-from", s("p")),
        ("extend", obj(vec![("flags", arr(vec![s("C")])), ("techniques", arr(vec![s("T")]))])),
        ("delete", obj(vec![("looks_like", s("rock"))])),
        ("relative", obj(vec![("melee", obj(vec![("cut", num(2))])), ("range", num(4)), ("name", num(1))])),
    ]);
    let r = inherit_entries(&child, &parent).unwrap();
    assert!(json_equal(get(&r, "flags"), &arr(vec![s("A"), s("B"), s("C")])));
    assert!(json_equal(get(&r, "techniques"), &arr(vec![s("T")])));
    assert!(json_equal(get(&r, "looks_like"), &Json::Null));
    assert!(json_equal(get(&r, "melee"), &obj(vec![("bash", num(3)), ("cut", num(2))])));
    assert!(json_equal(get(&r, "range"), &num(4)));
    assert!(json_equal(get(&r, "name"), &s("thing")));
}

trait CloneEntries {
    fn clone_entries(&self) -> Vec<(String, Json)>;
}

impl CloneEntries for Vec<(String, Json)> {
    fn clone_entries(&self) -> Vec<(String, Json)> {
        rlg::json::copy_entries(self)
    }
}
