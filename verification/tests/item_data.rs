use rlg::catalog::{
    build_catalog, check_records, init_json2, init_serde_data, load_item_data, SERDEdata,
};
use rlg::json::{json_equal, obj_get, Json, Number};
use rlg::resolve::{one_pass, try_resolve_copy_from};
use rlg::tables::ItemTable;

fn s(x: &str) -> Json {
    Json::Str(x.to_string())
}

fn num(n: u64) -> Json {
    Json::Number(Number::PosInt(n))
}

fn arr(v: Vec<Json>) -> Json {
    Json::Array(v)
}

fn entries(entries: Vec<(&str, Json)>) -> Vec<(String, Json)> {
    entries.into_iter().map(|(k, v)| (k.to_string(), v)).collect()
}

fn obj(e: Vec<(&str, Json)>) -> Json {
    Json::Object(entries(e))
}

fn field<'a>(t: &'a ItemTable, id: &str, k: &str) -> Option<&'a Json> {
    obj_get(t.get(id).unwrap(), k)
}

fn sorted_keys(t: &ItemTable) -> Vec<String> {
    let mut k = t.keys();
    k.sort();
    k
}

fn chain_table() -> ItemTable {
    let mut t = ItemTable::new();
    t.insert("root".to_string(), entries(vec![("id", s("root")), ("weight", num(10)), ("color", s("gray"))]));
    t.insert(
        "mid".to_string(),
        entries(vec![("id", s("mid")), ("copy-from", s("root")), ("color", s("blue"))]),
    );
    t.insert(
        "leaf".to_string(),
        entries(vec![("id", s("leaf")), ("copy-from", s("mid")), ("relative", obj(vec![("weight", num(1))]))]),
    );
    t
}

#[test]
fn chains_resolve_from_the_root_down() {
    let t = chain_table();
    let r = try_resolve_copy_from(&t, 10).unwrap();
    assert_eq!(sorted_keys(&r), vec!["leaf".to_string(), "mid".to_string(), "root".to_string()]);
    assert!(json_equal(field(&r, "mid", "color").unwrap(), &s("blue")));
    assert!(json_equal(field(&r, "mid", "weight").unwrap(), &num(10)));
    assert!(field(&r, "mid", "copy-from").is_none());
    assert!(json_equal(field(&r, "leaf", "color").unwrap(), &s("blue")));
    let sum = Json::Number(Number::Sum(Box::new(Number::PosInt(10)), Box::new(Number::PosInt(1))));
    assert!(json_equal(field(&r, "leaf", "weight").unwrap(), &sum));
    assert!(json_equal(field(&r, "leaf", "id").unwrap(), &s("leaf")));
    assert!(field(&r, "leaf", "relative").is_none());
    // the root keeps its definition
    assert!(json_equal(field(&r, "root", "color").unwrap(), &s("gray")));
}

#[test]
fn a_waiting_item_stays_for_the_next_pass() {
    let t = chain_table();
    let (next, waited) = one_pass(&t).unwrap();
    assert!(waited);
    assert!(field(&next, "mid", "copy-from").is_none());
    assert!(json_equal(field(&next, "leaf", "copy-from").unwrap(), &s("mid")));
    let (last, waited2) = one_pass(&next).unwrap();
    assert!(!waited2);
    assert!(field(&last, "leaf", "copy-from").is_none());
}

#[test]
fn two_passes_are_needed_for_a_chain_of_two() {
    let t = chain_table();
    assert!(try_resolve_copy_from(&t, 1).is_none());
    assert!(try_resolve_copy_from(&t, 2).is_some());
}

#[test]
fn a_plain_table_resolves_unchanged() {
    let mut t = ItemTable::new();
    t.insert("a".to_string(), entries(vec![("id", s("a")), ("weight", num(3))]));
    t.insert("b".to_string(), entries(vec![("id", s("b")), ("flags", arr(vec![s("X")]))]));
    let r = try_resolve_copy_from(&t, 1).unwrap();
    assert_eq!(sorted_keys(&r), vec!["a".to_string(), "b".to_string()]);
    assert!(json_equal(&Json::Object(rlg::json::copy_entries(r.get("a").unwrap())), &obj(vec![("id", s("a")), ("weight", num(3))])));
    assert!(json_equal(&Json::Object(rlg::json::copy_entries(r.get("b").unwrap())), &obj(vec![("id", s("b")), ("flags", arr(vec![s("X")]))])));
}

#[test]
fn more_passes_change_nothing() {
    let t = chain_table();
    let a = try_resolve_copy_from(&t, 3).unwrap();
    let b = try_resolve_copy_from(&t, 50).unwrap();
    assert_eq!(sorted_keys(&a), sorted_keys(&b));
    for id in sorted_keys(&a) {
        let x = Json::Object(rlg::json::copy_entries(a.get(&id).unwrap()));
        let y = Json::Object(rlg::json::copy_entries(b.get(&id).unwrap()));
        assert!(json_equal(&x, &y));
    }
}

#[test]
fn missing_source_fails() {
    let mut t = ItemTable::new();
    t.insert("a".to_string(), entries(vec![("copy-from", s("nowhere"))]));
    assert!(one_pass(&t).is_none());
    assert!(try_resolve_copy_from(&t, 5).is_none());
}

#[test]
fn non_string_source_fails() {
    let mut t = ItemTable::new();
    t.insert("a".to_string(), entries(vec![("copy-from", num(1))]));
    assert!(try_resolve_copy_from(&t, 5).is_none());
}

#[test]
fn a_cycle_never_settles() {
    let mut t = ItemTable::new();
    t.insert("a".to_string(), entries(vec![("copy-from", s("b"))]));
    t.insert("b".to_string(), entries(vec![("copy-from", s("a"))]));
    assert!(try_resolve_copy_from(&t, 50).is_none());
}

fn records() -> Vec<Json> {
    vec![
        obj(vec![("type", s("ARMOR")), ("id", s("vest")), ("weight", num(3))]),
        obj(vec![("type", s("json_flag")), ("id", s("FLAG_A"))]),
        obj(vec![("type", s("GUN")), ("id", arr(vec![s("gun_a"), s("gun_b")])), ("damage", num(7))]),
        obj(vec![("type", s("tool")), ("abstract", s("tool_base")), ("id", s("ignored"))]),
        obj(vec![("type", s("monster")), ("id", s("zombie"))]),
        obj(vec![("type", s("json_flag")), ("id", s("FLAG_B"))]),
        obj(vec![("type", s("tool")), ("id", s("hammer")), ("copy-from", s("tool_base"))]),
        obj(vec![("type", s("ammo"))]),
    ]
}

#[test]
fn records_are_filed_by_id_and_flags_collected() {
    let values = records();
    assert!(check_records(&values));
    let (table, flags) = build_catalog(&values);
    assert_eq!(flags, vec!["FLAG_A".to_string(), "FLAG_B".to_string()]);
    assert_eq!(
        sorted_keys(&table),
        vec!["gun_a", "gun_b", "hammer", "tool_base", "vest"].into_iter().map(String::from).collect::<Vec<_>>()
    );
    assert!(json_equal(field(&table, "gun_b", "damage").unwrap(), &num(7)));
    assert!(table.get("zombie").is_none());
}

#[test]
fn types_are_compared_in_lower_case() {
    let values = vec![obj(vec![("type", s("Generic")), ("id", s("rock"))])];
    let (table, _) = build_catalog(&values);
    assert!(table.get("rock").is_some());
}

#[test]
fn unreadable_records_are_refused() {
    assert!(!check_records(&vec![obj(vec![("id", s("x"))])]));
    assert!(!check_records(&vec![s("not an object")]));
    assert!(!check_records(&vec![obj(vec![("type", num(1))])]));
    assert!(!check_records(&vec![obj(vec![("type", s("json_flag")), ("id", num(1))])]));
    assert!(!check_records(&vec![obj(vec![("type", s("gun")), ("id", arr(vec![num(1)]))])]));
    assert!(!check_records(&vec![obj(vec![("type", s("gun")), ("abstract", num(1))])]));
    assert!(check_records(&vec![obj(vec![("type", s("monster")), ("id", num(1))])]));
}

#[test]
fn item_data_is_loaded_and_resolved() {
    let data = SERDEdata { data: records() };
    let d = load_item_data(&data).unwrap();
    assert_eq!(d.json_flag_set, vec!["FLAG_A".to_string(), "FLAG_B".to_string()]);
    let hammer = d.item_map.get("hammer").unwrap();
    assert!(json_equal(obj_get(hammer, "id").unwrap(), &s("hammer")));
    assert!(obj_get(hammer, "copy-from").is_none());
    assert!(json_equal(obj_get(hammer, "abstract").unwrap(), &s("tool_base")));
    let again = init_serde_data(&data);
    assert_eq!(again.json_flag_set.len(), 2);
}

#[test]
fn unresolvable_item_data_is_refused() {
    let data = SERDEdata {
        data: vec![obj(vec![("type", s("gun")), ("id", s("g")), ("copy-from", s("missing"))])],
    };
    assert!(load_item_data(&data).is_none());
    let bad = SERDEdata { data: vec![obj(vec![("id", s("g"))])] };
    assert!(load_item_data(&bad).is_none());
}

#[test]
fn data_files_give_objects_and_array_elements() {
    let docs = vec![
        obj(vec![("a", num(1))]),
        arr(vec![obj(vec![("b", num(2))]), obj(vec![("c", num(3))])]),
        arr(vec![]),
    ];
    let d = init_json2(&docs);
    assert_eq!(d.data.len(), 3);
    assert!(json_equal(&d.data[2], &obj(vec![("c", num(3))])));
}
