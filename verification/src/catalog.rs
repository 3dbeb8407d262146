use vstd::prelude::*;

use crate::json::{
    copy_entries, lemma_view_array, lemma_view_array_take, lookup, obj_get, view_array,
    view_entries, Json, JsonV, ObjV,
};
use crate::resolve::{
    inherits_settled, law_chains_bound_the_passes, law_resolution_keeps_ids, run, settles_within, try_resolve_copy_from, Items,
};
use crate::tables::{
    item_table_view, no_items, type_groups_view, type_set_view, ItemTable, TypeGroups, TypeSet,
};
use crate::text::{lowercase, str_eq, to_lowercase};

verus! {

/// The lower-cased `type` of a record of the item data.
pub open spec fn record_type(v: JsonV) -> Option<Seq<char>> {
    match v {
        JsonV::Obj(o) => match lookup(o, "type"@) {
            Some(JsonV::Str(t)) => Some(lowercase(t)),
            _ => None,
        },
        _ => None,
    }
}

/// The entries of a record.
pub open spec fn record_entries(v: JsonV) -> ObjV {
    match v {
        JsonV::Obj(o) => o,
        _ => Seq::empty(),
    }
}

/// The record types that define items.
pub open spec fn is_item_type(t: Seq<char>) -> bool {
    ||| t == "armor"@
    ||| t == "generic"@
    ||| t == "gun"@
    ||| t == "ammo"@
    ||| t == "comestible"@
    ||| t == "tool"@
    ||| t == "tool_armor"@
}

pub open spec fn all_strings(s: Seq<JsonV>) -> bool {
    forall|i: int| 0 <= i < s.len() ==> s[i] is Str
}

/// A record the loader can read: an object with a string `type`; a
/// `json_flag` has a string `id`; an item has a string `abstract`, or else
/// an `id` that is a string or an array of strings, or no `id` at all.
pub open spec fn record_ok(v: JsonV) -> bool {
    match record_type(v) {
        None => false,
        Some(t) => {
            let o = record_entries(v);
            if t == "json_flag"@ {
                lookup(o, "id"@) matches Some(JsonV::Str(_))
            } else if is_item_type(t) {
                match lookup(o, "abstract"@) {
                    Some(a) => a is Str,
                    None => match lookup(o, "id"@) {
                        None => true,
                        Some(JsonV::Str(_)) => true,
                        Some(JsonV::Arr(ids)) => all_strings(ids),
                        Some(_) => false,
                    },
                }
            } else {
                true
            }
        }
    }
}

pub open spec fn records_ok(vs: Seq<JsonV>) -> bool {
    forall|i: int| 0 <= i < vs.len() ==> #[trigger] record_ok(vs[i])
}

/// The ids an item record is filed under: its `abstract`, else its `id` or
/// the strings of its `id` array.
pub open spec fn item_keys(o: ObjV) -> Seq<Seq<char>> {
    match lookup(o, "abstract"@) {
        Some(JsonV::Str(a)) => seq![a],
        Some(_) => Seq::empty(),
        None => match lookup(o, "id"@) {
            Some(JsonV::Str(i)) => seq![i],
            Some(JsonV::Arr(ids)) => ids.map_values(
                |x: JsonV|
                    match x {
                        JsonV::Str(s) => s,
                        _ => Seq::empty(),
                    },
            ),
            _ => Seq::empty(),
        },
    }
}

/// `m` with each of `keys` bound to `d`, in order.
pub open spec fn insert_all(m: Items, keys: Seq<Seq<char>>, d: ObjV) -> Items
    decreases keys.len(),
{
    if keys.len() == 0 {
        m
    } else {
        insert_all(m, keys.drop_last(), d).insert(keys.last(), d)
    }
}

/// `m` with the item records of `g` filed, in order.
pub open spec fn add_records(m: Items, g: Seq<JsonV>) -> Items
    decreases g.len(),
{
    if g.len() == 0 {
        m
    } else {
        let o = record_entries(g.last());
        insert_all(add_records(m, g.drop_last()), item_keys(o), o)
    }
}

/// The records of `vs` of type `t`, in order.
pub open spec fn group(vs: Seq<JsonV>, t: Seq<char>) -> Seq<JsonV>
    decreases vs.len(),
{
    if vs.len() == 0 {
        Seq::empty()
    } else if record_type(vs.last()) == Some(t) {
        group(vs.drop_last(), t).push(vs.last())
    } else {
        group(vs.drop_last(), t)
    }
}

/// The item table filled type by type in the given order of the types.
pub open spec fn table_for_order(vs: Seq<JsonV>, order: Seq<Seq<char>>) -> Items
    decreases order.len(),
{
    if order.len() == 0 {
        Map::empty()
    } else if is_item_type(order.last()) {
        add_records(table_for_order(vs, order.drop_last()), group(vs, order.last()))
    } else {
        table_for_order(vs, order.drop_last())
    }
}

/// The types of the records of `vs`.
pub open spec fn record_types(vs: Seq<JsonV>) -> Set<Seq<char>> {
    Set::new(|t: Seq<char>| exists|i: int| 0 <= i < vs.len() && record_type(vs[i]) == Some(t))
}

/// `order` lists each record type of `vs` once.
pub open spec fn is_type_order(order: Seq<Seq<char>>, vs: Seq<JsonV>) -> bool {
    &&& forall|i: int, j: int| 0 <= i < j < order.len() ==> order[i] != order[j]
    &&& forall|t: Seq<char>| #[trigger] order.contains(t) <==> record_types(vs).contains(t)
}

/// The string `id` of a record.
pub open spec fn string_id(v: JsonV) -> Seq<char> {
    match lookup(record_entries(v), "id"@) {
        Some(JsonV::Str(s)) => s,
        _ => Seq::empty(),
    }
}

/// The ids of the `json_flag` records, in order.
pub open spec fn flag_ids(vs: Seq<JsonV>) -> Seq<Seq<char>> {
    group(vs, "json_flag"@).map_values(|v: JsonV| string_id(v))
}

/// `json_flag` records define no items.
pub proof fn lemma_flag_type_not_item()
    ensures
        !is_item_type("json_flag"@),
{
    reveal_strlit("json_flag");
    reveal_strlit("armor");
    assert("json_flag"@[0] != "armor"@[0]);
    reveal_strlit("generic");
    assert("json_flag"@[0] != "generic"@[0]);
    reveal_strlit("gun");
    assert("json_flag"@[0] != "gun"@[0]);
    reveal_strlit("ammo");
    assert("json_flag"@[0] != "ammo"@[0]);
    reveal_strlit("comestible");
    assert("json_flag"@[0] != "comestible"@[0]);
    reveal_strlit("tool");
    assert("json_flag"@[0] != "tool"@[0]);
    reveal_strlit("tool_armor");
    assert("json_flag"@[0] != "tool_armor"@[0]);
}

pub proof fn lemma_group_members(vs: Seq<JsonV>, t: Seq<char>)
    requires
        records_ok(vs),
    ensures
        forall|j: int|
            0 <= j < group(vs, t).len() ==> record_type(#[trigger] group(vs, t)[j]) == Some(t)
                && record_ok(group(vs, t)[j]),
    decreases vs.len(),
{
    if vs.len() > 0 {
        assert(records_ok(vs.drop_last())) by {
            assert forall|i: int| 0 <= i < vs.len() - 1 implies #[trigger] record_ok(
                vs.drop_last()[i],
            ) by {
                assert(vs.drop_last()[i] == vs[i]);
            }
        }
        lemma_group_members(vs.drop_last(), t);
        assert(record_ok(vs[vs.len() - 1]));
    }
}

pub proof fn lemma_group_take(vs: Seq<JsonV>, t: Seq<char>, i: int)
    requires
        0 <= i < vs.len(),
    ensures
        group(vs.take(i + 1), t) == if record_type(vs[i]) == Some(t) {
            group(vs.take(i), t).push(vs[i])
        } else {
            group(vs.take(i), t)
        },
{
    assert(vs.take(i + 1).drop_last() =~= vs.take(i));
}

/// Whether `t` is a record type that defines items.
pub fn item_type(t: &str) -> (r: bool)
    ensures
        r == is_item_type(t@),
{
    str_eq(t, "armor") || str_eq(t, "generic") || str_eq(t, "gun") || str_eq(t, "ammo") || str_eq(
        t,
        "comestible",
    ) || str_eq(t, "tool") || str_eq(t, "tool_armor")
}

/// The lower-cased type of a record.
pub fn record_type_of(rec: &Json) -> (r: String)
    requires
        record_type(rec@) is Some,
    ensures
        record_type(rec@) == Some(r@),
{
    match rec {
        Json::Object(e) => match obj_get(e, "type") {
            Some(Json::Str(s)) => to_lowercase(s.as_str()),
            _ => {
                assert(false);
                String::new()
            },
        },
        _ => {
            assert(false);
            String::new()
        },
    }
}

/// Whether every record can be read by the loader (see `record_ok`).
pub fn check_records(values: &Vec<Json>) -> (r: bool)
    ensures
        r == records_ok(view_array(values@)),
{
    let ghost vs = view_array(values@);
    proof {
        lemma_view_array(values@);
    }
    let mut i: usize = 0;
    while i < values.len()
        invariant
            i <= values.len(),
            vs == view_array(values@),
            vs.len() == values.len(),
            forall|j: int| 0 <= j < values.len() ==> #[trigger] vs[j] == values@[j]@,
            forall|j: int| 0 <= j < i ==> #[trigger] record_ok(vs[j]),
        decreases values.len() - i,
    {
        if !check_record(&values[i]) {
            assert(!record_ok(vs[i as int]));
            return false;
        }
        i = i + 1;
    }
    true
}

/// Whether one record can be read by the loader (see `record_ok`).
pub fn check_record(rec: &Json) -> (r: bool)
    ensures
        r == record_ok(rec@),
{
    let e = match rec {
        Json::Object(e) => e,
        _ => return false,
    };
    let t = match obj_get(e, "type") {
        Some(Json::Str(s)) => to_lowercase(s.as_str()),
        _ => return false,
    };
    if str_eq(t.as_str(), "json_flag") {
        match obj_get(e, "id") {
            Some(Json::Str(_)) => true,
            _ => false,
        }
    } else if item_type(t.as_str()) {
        match obj_get(e, "abstract") {
            Some(Json::Str(_)) => true,
            Some(_) => false,
            None => match obj_get(e, "id") {
                None => true,
                Some(Json::Str(_)) => true,
                Some(Json::Array(ids)) => all_str(ids),
                Some(_) => false,
            },
        }
    } else {
        true
    }
}

/// Whether every element of `ids` is a string.
pub fn all_str(ids: &Vec<Json>) -> (r: bool)
    ensures
        r == all_strings(view_array(ids@)),
{
    proof {
        lemma_view_array(ids@);
    }
    let mut j: usize = 0;
    while j < ids.len()
        invariant
            j <= ids.len(),
            view_array(ids@).len() == ids.len(),
            forall|x: int| 0 <= x < ids.len() ==> #[trigger] view_array(ids@)[x] == ids@[x]@,
            forall|x: int| 0 <= x < j ==> view_array(ids@)[x] is Str,
        decreases ids.len() - j,
    {
        match &ids[j] {
            Json::Str(_) => {},
            _ => {
                assert(!(view_array(ids@)[j as int] is Str));
                return false;
            },
        }
        j = j + 1;
    }
    true
}

pub proof fn lemma_record_types_take(vs: Seq<JsonV>, i: int, t: Seq<char>)
    requires
        0 <= i < vs.len(),
        record_type(vs[i]) == Some(t),
    ensures
        record_types(vs.take(i + 1)) == record_types(vs.take(i)).insert(t),
{
    let a = vs.take(i + 1);
    let b = vs.take(i);
    assert forall|u: Seq<char>| record_types(a).contains(u) <==> record_types(b).insert(t).contains(u) by {
        if record_types(a).contains(u) {
            let j = choose|j: int| 0 <= j < a.len() && record_type(a[j]) == Some(u);
            if j < i {
                assert(b[j] == a[j]);
            }
        }
        if record_types(b).contains(u) {
            let j = choose|j: int| 0 <= j < b.len() && record_type(b[j]) == Some(u);
            assert(a[j] == b[j]);
        }
        if u == t {
            assert(a[i] == vs[i]);
        }
    }
    assert(record_types(a) =~= record_types(b).insert(t));
}

pub proof fn lemma_group_absent(vs: Seq<JsonV>, t: Seq<char>)
    requires
        !record_types(vs).contains(t),
    ensures
        group(vs, t) == Seq::<JsonV>::empty(),
    decreases vs.len(),
{
    if vs.len() > 0 {
        assert(!record_types(vs.drop_last()).contains(t)) by {
            if record_types(vs.drop_last()).contains(t) {
                let j = choose|j: int| 0 <= j < vs.len() - 1 && record_type(vs.drop_last()[j]) == Some(t);
                assert(vs[j] == vs.drop_last()[j]);
            }
        }
        lemma_group_absent(vs.drop_last(), t);
        if record_type(vs.last()) == Some(t) {
            assert(record_types(vs).contains(t));
        }
    }
}

/// The set of lower-cased types of the records.
pub fn collect_types(values: &Vec<Json>) -> (r: TypeSet)
    requires
        records_ok(view_array(values@)),
    ensures
        type_set_view(r) == record_types(view_array(values@)),
{
    let ghost vs = view_array(values@);
    proof {
        lemma_view_array(values@);
    }
    let mut set = TypeSet::new();
    let mut i: usize = 0;
    assert(record_types(vs.take(0)) =~= Set::<Seq<char>>::empty());
    while i < values.len()
        invariant
            i <= values.len(),
            vs == view_array(values@),
            vs.len() == values.len(),
            forall|j: int| 0 <= j < values.len() ==> #[trigger] vs[j] == values@[j]@,
            records_ok(vs),
            type_set_view(set) == record_types(vs.take(i as int)),
        decreases values.len() - i,
    {
        assert(record_ok(vs[i as int]));
        let t = record_type_of(&values[i]);
        proof {
            lemma_record_types_take(vs, i as int, t@);
        }
        set.insert(t);
        i = i + 1;
    }
    assert(vs.take(values.len() as int) =~= vs);
    set
}

/// The records grouped by their lower-cased type, each group in the order of
/// the records.
pub fn group_records(values: &Vec<Json>) -> (r: TypeGroups)
    requires
        records_ok(view_array(values@)),
    ensures
        type_groups_view(r).dom() == record_types(view_array(values@)),
        forall|t: Seq<char>| #[trigger]
            type_groups_view(r).dom().contains(t) ==> type_groups_view(r)[t] == group(
                view_array(values@),
                t,
            ),
{
    let ghost vs = view_array(values@);
    proof {
        lemma_view_array(values@);
    }
    let types = collect_types(values);
    let tv = types.to_vec();
    let mut groups = TypeGroups::new();
    let mut j: usize = 0;
    while j < tv.len()
        invariant
            j <= tv.len(),
            forall|x: int| 0 <= x < tv.len() ==> type_set_view(types).contains(#[trigger] tv[x]@),
            forall|k: Seq<char>| #[trigger]
                type_set_view(types).contains(k) ==> exists|x: int| 0 <= x < tv.len() && tv[x]@ == k,
            forall|k: Seq<char>| #[trigger]
                type_groups_view(groups).dom().contains(k) ==> exists|x: int| 0 <= x < j && tv[x]@ == k,
            forall|x: int| 0 <= x < j ==> type_groups_view(groups).dom().contains(#[trigger] tv[x]@),
            forall|k: Seq<char>| #[trigger]
                type_groups_view(groups).dom().contains(k) ==> type_groups_view(groups)[k]
                    == Seq::<JsonV>::empty(),
        decreases tv.len() - j,
    {
        let ghost before = type_groups_view(groups);
        let empty: Vec<Json> = Vec::new();
        groups.insert(tv[j].clone(), empty);
        proof {
            assert forall|k: Seq<char>| #[trigger] type_groups_view(groups).dom().contains(k) implies exists|x: int| 0 <= x < j + 1 && tv[x]@ == k by {
                if k != tv[j as int]@ {
                    assert(before.dom().contains(k));
                }
            }
        }
        j = j + 1;
    }
    assert(type_groups_view(groups).dom() =~= record_types(vs)) by {
        assert forall|k: Seq<char>| type_groups_view(groups).dom().contains(k) <==> type_set_view(types).contains(k) by {
            if type_set_view(types).contains(k) {
                let x = choose|x: int| 0 <= x < tv.len() && tv[x]@ == k;
                assert(type_groups_view(groups).dom().contains(tv[x]@));
            }
            if type_groups_view(groups).dom().contains(k) {
                let x = choose|x: int| 0 <= x < j && tv[x]@ == k;
                assert(type_set_view(types).contains(tv[x]@));
            }
        }
    }
    let mut i: usize = 0;
    while i < values.len()
        invariant
            i <= values.len(),
            vs == view_array(values@),
            vs.len() == values.len(),
            forall|x: int| 0 <= x < values.len() ==> #[trigger] vs[x] == values@[x]@,
            records_ok(vs),
            type_groups_view(groups).dom() == record_types(vs),
            forall|t: Seq<char>| #[trigger]
                type_groups_view(groups).dom().contains(t) ==> type_groups_view(groups)[t] == group(
                    vs.take(i as int),
                    t,
                ),
        decreases values.len() - i,
    {
        assert(record_ok(vs[i as int]));
        let t = record_type_of(&values[i]);
        let ghost before = type_groups_view(groups);
        proof {
            assert(record_types(vs).contains(t@));
        }
        groups.push(t.as_str(), values[i].copy());
        proof {
            assert forall|u: Seq<char>| #[trigger] type_groups_view(groups).dom().contains(u) implies type_groups_view(groups)[u] == group(vs.take(i + 1), u) by {
                lemma_group_take(vs, u, i as int);
            }
        }
        i = i + 1;
    }
    assert(vs.take(values.len() as int) =~= vs);
    groups
}

/// Files one item record under each of its ids.
pub fn file_record(table: &mut ItemTable, rec: &Json)
    requires
        record_ok(rec@),
        is_item_type(record_type(rec@)->0),
    ensures
        item_table_view(*final(table)) == insert_all(
            item_table_view(*old(table)),
            item_keys(record_entries(rec@)),
            record_entries(rec@),
        ),
{
    let e = match rec {
        Json::Object(e) => e,
        _ => {
            assert(false);
            return;
        },
    };
    let ghost o = view_entries(e@);
    let ghost m0 = item_table_view(*table);
    proof {
        lemma_flag_type_not_item();
    }
    match obj_get(e, "abstract") {
        Some(Json::Str(a)) => {
            table.insert(a.clone(), copy_entries(e));
            proof {
                assert(item_keys(o) == seq![a@]);
                assert(item_keys(o).drop_last() =~= Seq::<Seq<char>>::empty());
                assert(insert_all(m0, item_keys(o).drop_last(), o) == m0);
                assert(item_table_view(*table) == insert_all(m0, item_keys(o), o));
            }
        },
        Some(_) => {
            assert(false);
        },
        None => match obj_get(e, "id") {
            Some(Json::Str(x)) => {
                table.insert(x.clone(), copy_entries(e));
                proof {
                    assert(item_keys(o) == seq![x@]);
                    assert(item_keys(o).drop_last() =~= Seq::<Seq<char>>::empty());
                    assert(insert_all(m0, item_keys(o).drop_last(), o) == m0);
                    assert(item_table_view(*table) == insert_all(m0, item_keys(o), o));
                }
            },
            Some(Json::Array(ids)) => {
                let ghost keys = item_keys(o);
                proof {
                    lemma_view_array(ids@);
                    assert(keys.take(0) =~= Seq::<Seq<char>>::empty());
                }
                let mut y: usize = 0;
                while y < ids.len()
                    invariant
                        y <= ids.len(),
                        keys == view_array(ids@).map_values(
                            |x: JsonV|
                                match x {
                                    JsonV::Str(s) => s,
                                    _ => Seq::empty(),
                                },
                        ),
                        view_array(ids@).len() == ids.len(),
                        forall|x: int| 0 <= x < ids.len() ==> #[trigger] view_array(ids@)[x] == ids@[x]@,
                        o == view_entries(e@),
                        all_strings(view_array(ids@)),
                        item_table_view(*table) == insert_all(m0, keys.take(y as int), o),
                    decreases ids.len() - y,
                {
                    proof {
                        assert(keys.take(y + 1).drop_last() =~= keys.take(y as int));
                    }
                    match &ids[y] {
                        Json::Str(s) => {
                            table.insert(s.clone(), copy_entries(e));
                        },
                        _ => {
                            assert(!(view_array(ids@)[y as int] is Str));
                            assert(false);
                        },
                    }
                    y = y + 1;
                }
                proof {
                    assert(keys.take(ids.len() as int) =~= keys);
                    assert(item_table_view(*table) == insert_all(m0, item_keys(o), o));
                }
            },
            _ => {
                assert(item_keys(o) =~= Seq::<Seq<char>>::empty());
                assert(item_table_view(*table) == insert_all(m0, item_keys(o), o));
            },
        },
    }
}

/// The characters of each string.
pub open spec fn strings_view(v: Seq<String>) -> Seq<Seq<char>> {
    v.map_values(|s: String| s@)
}

/// Files the item records of `g`, in order.
pub fn file_group(table: &mut ItemTable, g: &Vec<Json>)
    requires
        forall|x: int|
            0 <= x < view_array(g@).len() ==> record_ok(#[trigger] view_array(g@)[x])
                && is_item_type(record_type(view_array(g@)[x])->0),
    ensures
        item_table_view(*final(table)) == add_records(item_table_view(*old(table)), view_array(g@)),
{
    let ghost gv = view_array(g@);
    let ghost m0 = item_table_view(*table);
    proof {
        lemma_view_array(g@);
        assert(gv.take(0) =~= Seq::<JsonV>::empty());
    }
    let mut x: usize = 0;
    while x < g.len()
        invariant
            x <= g.len(),
            gv == view_array(g@),
            gv.len() == g.len(),
            forall|y: int| 0 <= y < g.len() ==> #[trigger] gv[y] == g@[y]@,
            forall|y: int|
                0 <= y < gv.len() ==> record_ok(#[trigger] gv[y]) && is_item_type(
                    record_type(gv[y])->0,
                ),
            item_table_view(*table) == add_records(m0, gv.take(x as int)),
        decreases g.len() - x,
    {
        proof {
            assert(gv.take(x + 1).drop_last() =~= gv.take(x as int));
            assert(record_ok(gv[x as int]));
        }
        file_record(table, &g[x]);
        x = x + 1;
    }
    proof {
        assert(gv.take(g.len() as int) =~= gv);
    }
}

/// Appends the `id` of each `json_flag` record of `g` to `flags`.
pub fn collect_flag_ids(flags: &mut Vec<String>, g: &Vec<Json>)
    requires
        forall|x: int|
            0 <= x < view_array(g@).len() ==> record_ok(#[trigger] view_array(g@)[x])
                && record_type(view_array(g@)[x]) == Some("json_flag"@),
    ensures
        strings_view(final(flags)@) == strings_view(old(flags)@) + view_array(g@).map_values(
            |v: JsonV| string_id(v),
        ),
{
    let ghost gv = view_array(g@);
    let ghost f0 = strings_view(flags@);
    proof {
        lemma_view_array(g@);
    }
    let mut x: usize = 0;
    while x < g.len()
        invariant
            x <= g.len(),
            gv == view_array(g@),
            gv.len() == g.len(),
            forall|y: int| 0 <= y < g.len() ==> #[trigger] gv[y] == g@[y]@,
            forall|y: int|
                0 <= y < gv.len() ==> record_ok(#[trigger] gv[y]) && record_type(gv[y]) == Some(
                    "json_flag"@,
                ),
            strings_view(flags@) == f0 + gv.take(x as int).map_values(|v: JsonV| string_id(v)),
        decreases g.len() - x,
    {
        proof {
            assert(record_ok(gv[x as int]));
        }
        let id = match &g[x] {
            Json::Object(e) => match obj_get(e, "id") {
                Some(Json::Str(s)) => s.clone(),
                _ => {
                    assert(false);
                    String::new()
                },
            },
            _ => {
                assert(false);
                String::new()
            },
        };
        let ghost before = flags@;
        flags.push(id);
        proof {
            assert(strings_view(flags@) =~= strings_view(before).push(string_id(gv[x as int])));
            assert(gv.take(x + 1).map_values(|v: JsonV| string_id(v)) =~= gv.take(x as int).map_values(
                |v: JsonV| string_id(v),
            ).push(string_id(gv[x as int])));
        }
        x = x + 1;
    }
    proof {
        assert(gv.take(g.len() as int) =~= gv);
    }
}

/// Reads the item data records: files every item record under its ids
/// (type by type, in the order of the type table) and collects the ids of
/// the `json_flag` records, in order.
pub fn build_catalog(values: &Vec<Json>) -> (r: (ItemTable, Vec<String>))
    requires
        records_ok(view_array(values@)),
    ensures
        strings_view(r.1@) == flag_ids(view_array(values@)),
        exists|order: Seq<Seq<char>>|
            is_type_order(order, view_array(values@)) && item_table_view(r.0) == table_for_order(
                view_array(values@),
                order,
            ),
{
    let ghost vs = view_array(values@);
    let groups = group_records(values);
    let order = groups.keys();
    let ghost ov = strings_view(order@);
    let mut table = ItemTable::new();
    let mut flags: Vec<String> = Vec::new();
    proof {
        lemma_flag_type_not_item();
        lemma_group_members(vs, "json_flag"@);
        assert(ov.take(0) =~= Seq::<Seq<char>>::empty());
        assert(item_table_view(table) =~= table_for_order(vs, ov.take(0)));
        assert(strings_view(flags@) =~= Seq::<Seq<char>>::empty());
    }
    let mut j: usize = 0;
    while j < order.len()
        invariant
            j <= order.len(),
            vs == view_array(values@),
            records_ok(vs),
            ov == strings_view(order@),
            ov.len() == order.len(),
            !is_item_type("json_flag"@),
            forall|x: int, y: int| 0 <= x < y < order.len() ==> order[x]@ != order[y]@,
            forall|x: int| 0 <= x < order.len() ==> type_groups_view(groups).dom().contains(#[trigger] order[x]@),
            forall|k: Seq<char>| #[trigger]
                type_groups_view(groups).dom().contains(k) ==> exists|x: int| 0 <= x < order.len() && order[x]@ == k,
            type_groups_view(groups).dom() == record_types(vs),
            forall|t: Seq<char>| #[trigger]
                type_groups_view(groups).dom().contains(t) ==> type_groups_view(groups)[t] == group(vs, t),
            forall|x: int|
                0 <= x < group(vs, "json_flag"@).len() ==> record_type(#[trigger] group(vs, "json_flag"@)[x]) == Some("json_flag"@)
                    && record_ok(group(vs, "json_flag"@)[x]),
            item_table_view(table) == table_for_order(vs, ov.take(j as int)),
            strings_view(flags@) == if ov.take(j as int).contains("json_flag"@) {
                flag_ids(vs)
            } else {
                Seq::<Seq<char>>::empty()
            },
        decreases order.len() - j,
    {
        let t = &order[j];
        proof {
            assert(ov.take(j + 1).drop_last() =~= ov.take(j as int));
            assert(ov[j as int] == t@);
            assert(ov.take(j + 1).last() == t@);
        }
        let g = match groups.get(t.as_str()) {
            Some(g) => g,
            None => {
                assert(false);
                return (table, flags);
            },
        };
        if str_eq(t.as_str(), "json_flag") {
            proof {
                let pre = ov.take(j as int);
                assert(!pre.contains("json_flag"@)) by {
                    if pre.contains("json_flag"@) {
                        let x = choose|x: int| 0 <= x < pre.len() && pre[x] == "json_flag"@;
                        assert(order[x]@ == order[j as int]@);
                    }
                }
                assert(ov.take(j + 1).contains("json_flag"@)) by {
                    assert(ov.take(j + 1)[j as int] == "json_flag"@);
                }
            }
            collect_flag_ids(&mut flags, g);
            proof {
                assert(strings_view(flags@) =~= flag_ids(vs));
            }
        } else {
            proof {
                let pre1 = ov.take(j + 1);
                let pre = ov.take(j as int);
                assert(pre1.contains("json_flag"@) == pre.contains("json_flag"@)) by {
                    if pre1.contains("json_flag"@) {
                        let x = choose|x: int| 0 <= x < pre1.len() && pre1[x] == "json_flag"@;
                        assert(x != j);
                        assert(pre[x] == "json_flag"@);
                    }
                    if pre.contains("json_flag"@) {
                        let x = choose|x: int| 0 <= x < pre.len() && pre[x] == "json_flag"@;
                        assert(pre1[x] == "json_flag"@);
                    }
                }
            }
            if item_type(t.as_str()) {
                proof {
                    lemma_group_members(vs, t@);
                }
                file_group(&mut table, g);
            }
        }
        j = j + 1;
    }
    proof {
        assert(ov.take(order.len() as int) =~= ov);
        assert(is_type_order(ov, vs)) by {
            assert forall|t: Seq<char>| #[trigger] ov.contains(t) <==> record_types(vs).contains(t) by {
                if ov.contains(t) {
                    let x = choose|x: int| 0 <= x < ov.len() && ov[x] == t;
                    assert(type_groups_view(groups).dom().contains(order[x]@));
                }
                if record_types(vs).contains(t) {
                    let x = choose|x: int| 0 <= x < order.len() && order[x]@ == t;
                    assert(ov[x] == t);
                }
            }
        }
        if !ov.contains("json_flag"@) {
            lemma_group_absent(vs, "json_flag"@);
            assert(flag_ids(vs) =~= Seq::<Seq<char>>::empty());
        }
    }
    (table, flags)
}

/// The records read from the item data files.
pub struct SERDEdata {
    pub data: Vec<Json>,
}

/// The item definitions by id, with every `copy-from` resolved, and the ids
/// of the `json_flag` records.
pub struct SmartData {
    pub item_map: ItemTable,
    pub json_flag_set: Vec<String>,
}

/// The records of the data files, in order: a file holding an object gives
/// that object, a file holding an array gives its elements.
pub open spec fn file_records(docs: Seq<JsonV>) -> Seq<JsonV>
    decreases docs.len(),
{
    if docs.len() == 0 {
        Seq::empty()
    } else {
        file_records(docs.drop_last()) + match docs.last() {
            JsonV::Arr(a) => a,
            d => seq![d],
        }
    }
}

/// A data file holds an object or an array.
pub open spec fn docs_ok(docs: Seq<JsonV>) -> bool {
    forall|i: int| 0 <= i < docs.len() ==> (#[trigger] docs[i] is Obj || docs[i] is Arr)
}

/// Collects the records of the parsed data files (one JSON value per file, in
/// the order the files were found).
pub fn init_json2(documents: &Vec<Json>) -> (r: SERDEdata)
    requires
        docs_ok(view_array(documents@)),
    ensures
        view_array(r.data@) == file_records(view_array(documents@)),
{
    let ghost dv = view_array(documents@);
    proof {
        lemma_view_array(documents@);
    }
    let mut data: Vec<Json> = Vec::new();
    let mut i: usize = 0;
    while i < documents.len()
        invariant
            i <= documents.len(),
            dv == view_array(documents@),
            dv.len() == documents.len(),
            forall|j: int| 0 <= j < documents.len() ==> #[trigger] dv[j] == documents@[j]@,
            docs_ok(dv),
            view_array(data@) == file_records(dv.take(i as int)),
        decreases documents.len() - i,
    {
        proof {
            assert(dv.take(i + 1).drop_last() =~= dv.take(i as int));
            assert(dv[i as int] is Obj || dv[i as int] is Arr);
        }
        match &documents[i] {
            Json::Array(a) => {
                proof {
                    lemma_view_array(a@);
                }
                let mut j: usize = 0;
                let ghost d0 = view_array(data@);
                while j < a.len()
                    invariant
                        j <= a.len(),
                        view_array(a@).len() == a.len(),
                        forall|x: int| 0 <= x < a.len() ==> #[trigger] view_array(a@)[x] == a@[x]@,
                        view_array(data@) == d0 + view_array(a@).take(j as int),
                    decreases a.len() - j,
                {
                    let c = a[j].copy();
                    let ghost before = data@;
                    data.push(c);
                    proof {
                        assert(data@.drop_last() =~= before);
                        assert(view_array(a@).take(j + 1) =~= view_array(a@).take(j as int).push(
                            a@[j as int]@,
                        ));
                        assert(d0 + view_array(a@).take(j + 1) =~= (d0 + view_array(a@).take(
                            j as int,
                        )).push(a@[j as int]@));
                    }
                    j = j + 1;
                }
                proof {
                    assert(view_array(a@).take(a.len() as int) =~= view_array(a@));
                }
            },
            other => {
                let c = other.copy();
                let ghost before = data@;
                data.push(c);
                proof {
                    assert(data@.drop_last() =~= before);
                    assert(view_array(data@) =~= view_array(before) + seq![dv[i as int]]);
                }
            },
        }
        i = i + 1;
    }
    proof {
        assert(dv.take(documents.len() as int) =~= dv);
    }
    SERDEdata { data }
}

/// Most passes the loader makes over the items.
pub open spec fn max_passes() -> nat {
    u64::MAX as nat
}

/// The item data loaded from the records: `None` exactly where the game's
/// loader stops on the data (a record it cannot read, an item that names
/// no definition or one that has no meaning), or does not come to an end.
/// The item table is filled type by type in the order of the type table,
/// which decides between items of different types filed under one id.
pub fn load_item_data(serderes: &SERDEdata) -> (r: Option<SmartData>)
    ensures
        !records_ok(view_array(serderes.data@)) ==> r is None,
        records_ok(view_array(serderes.data@)) ==> exists|order: Seq<Seq<char>>|
            #![trigger table_for_order(view_array(serderes.data@), order)]
            is_type_order(order, view_array(serderes.data@)) && match r {
                Some(d) => strings_view(d.json_flag_set@) == flag_ids(view_array(serderes.data@))
                    && run(table_for_order(view_array(serderes.data@), order), max_passes()) == Some(
                    item_table_view(d.item_map),
                ),
                None => run(table_for_order(view_array(serderes.data@), order), max_passes()) is None,
            },
{
    if !check_records(&serderes.data) {
        return None;
    }
    let (table, flags) = build_catalog(&serderes.data);
    let resolved = try_resolve_copy_from(&table, u64::MAX);
    match resolved {
        Some(t) => Some(SmartData { item_map: t, json_flag_set: flags }),
        None => None,
    }
}

/// The item data loaded from the records, for data the game's loader reads
/// to the end (see `load_item_data`).
pub fn init_serde_data(serderes: &SERDEdata) -> (r: SmartData)
    requires
        records_ok(view_array(serderes.data@)),
        forall|order: Seq<Seq<char>>|
            is_type_order(order, view_array(serderes.data@)) ==> (#[trigger] run(
                table_for_order(view_array(serderes.data@), order),
                max_passes(),
            )) is Some,
    ensures
        strings_view(r.json_flag_set@) == flag_ids(view_array(serderes.data@)),
        exists|order: Seq<Seq<char>>|
            #![trigger table_for_order(view_array(serderes.data@), order)]
            is_type_order(order, view_array(serderes.data@)) && run(
                table_for_order(view_array(serderes.data@), order),
                max_passes(),
            ) == Some(item_table_view(r.item_map)),
{
    match load_item_data(serderes) {
        Some(d) => d,
        None => {
            proof {
                let order = choose|order: Seq<Seq<char>>|
                    #![trigger table_for_order(view_array(serderes.data@), order)]
                    is_type_order(order, view_array(serderes.data@)) && run(
                        table_for_order(view_array(serderes.data@), order),
                        max_passes(),
                    ) is None;
                assert(run(table_for_order(view_array(serderes.data@), order), max_passes()) is Some);
            }
            SmartData { item_map: ItemTable::new(), json_flag_set: Vec::new() }
        },
    }
}


/// The loader does not give up while its passes still make progress: where
/// no chain of `copy-from` links among the item definitions is longer than
/// `n` (and what an item inherits from a settled definition copies from
/// nothing again), the loader's passes give what `n + 1` passes give, so the
/// items load wherever `n + 1` passes resolve them.
pub proof fn law_loader_passes_suffice(vs: Seq<JsonV>, order: Seq<Seq<char>>, n: nat)
    requires
        is_type_order(order, vs),
        forall|k: Seq<char>|
            table_for_order(vs, order).dom().contains(k) ==> #[trigger] settles_within(
                table_for_order(vs, order),
                k,
                n,
            ),
        inherits_settled(table_for_order(vs, order)),
        n < 0xffff_ffff_ffff_ffffnat,
    ensures
        run(table_for_order(vs, order), max_passes()) == run(table_for_order(vs, order), n + 1),
{
    law_chains_bound_the_passes(table_for_order(vs, order), n, max_passes());
}


/// Binding keys keeps every key already bound and binds each of them.
pub proof fn lemma_insert_all_dom(m: Items, keys: Seq<Seq<char>>, d: ObjV)
    ensures
        forall|k: Seq<char>| m.dom().contains(k) ==> #[trigger] insert_all(m, keys, d).dom().contains(k),
        forall|j: int| 0 <= j < keys.len() ==> insert_all(m, keys, d).dom().contains(#[trigger] keys[j]),
    decreases keys.len(),
{
    if keys.len() > 0 {
        lemma_insert_all_dom(m, keys.drop_last(), d);
        assert forall|k: Seq<char>| m.dom().contains(k) implies #[trigger] insert_all(
            m,
            keys,
            d,
        ).dom().contains(k) by {
            assert(insert_all(m, keys.drop_last(), d).dom().contains(k));
        }
        assert forall|j: int| 0 <= j < keys.len() implies insert_all(m, keys, d).dom().contains(
            #[trigger] keys[j],
        ) by {
            if j < keys.len() - 1 {
                assert(keys.drop_last()[j] == keys[j]);
            }
        }
    }
}

/// Filing records keeps every id already filed and files each id of each
/// record.
pub proof fn lemma_add_records_dom(m: Items, g: Seq<JsonV>)
    ensures
        forall|k: Seq<char>| m.dom().contains(k) ==> #[trigger] add_records(m, g).dom().contains(k),
        forall|j: int, x: int|
            0 <= j < g.len() && 0 <= x < item_keys(record_entries(g[j])).len() ==> add_records(
                m,
                g,
            ).dom().contains(#[trigger] item_keys(record_entries(#[trigger] g[j]))[x]),
    decreases g.len(),
{
    if g.len() > 0 {
        let p = g.drop_last();
        let o = record_entries(g.last());
        lemma_add_records_dom(m, p);
        lemma_insert_all_dom(add_records(m, p), item_keys(o), o);
        assert forall|j: int, x: int|
            0 <= j < g.len() && 0 <= x < item_keys(record_entries(g[j])).len() implies add_records(
            m,
            g,
        ).dom().contains(#[trigger] item_keys(record_entries(#[trigger] g[j]))[x]) by {
            if j < g.len() - 1 {
                assert(p[j] == g[j]);
                assert(add_records(m, p).dom().contains(item_keys(record_entries(p[j]))[x]));
            }
        }
    }
}

/// A record of type `t` is among the records grouped under `t`.
pub proof fn lemma_group_has(vs: Seq<JsonV>, t: Seq<char>, i: int)
    requires
        0 <= i < vs.len(),
        record_type(vs[i]) == Some(t),
    ensures
        exists|j: int| 0 <= j < group(vs, t).len() && #[trigger] group(vs, t)[j] == vs[i],
    decreases vs.len(),
{
    let g = group(vs, t);
    if i == vs.len() - 1 {
        assert(g[g.len() - 1] == vs[i]);
    } else {
        lemma_group_has(vs.drop_last(), t, i);
        let gp = group(vs.drop_last(), t);
        let j = choose|j: int| 0 <= j < gp.len() && #[trigger] gp[j] == vs.drop_last()[i];
        assert(g[j] == vs[i]);
    }
}

/// Filling the table type by type keeps what is filed, and files the ids of
/// each record of each item type of the order.
pub proof fn lemma_table_files(vs: Seq<JsonV>, order: Seq<Seq<char>>, t: Seq<char>, i: int, x: Seq<char>)
    requires
        order.contains(t),
        is_item_type(t),
        0 <= i < vs.len(),
        record_type(vs[i]) == Some(t),
        item_keys(record_entries(vs[i])).contains(x),
    ensures
        table_for_order(vs, order).dom().contains(x),
    decreases order.len(),
{
    let prev = table_for_order(vs, order.drop_last());
    if order.last() == t {
        lemma_group_has(vs, t, i);
        let g = group(vs, t);
        let j = choose|j: int| 0 <= j < g.len() && #[trigger] g[j] == vs[i];
        let ks = item_keys(record_entries(vs[i]));
        let xi = choose|xi: int| 0 <= xi < ks.len() && ks[xi] == x;
        lemma_add_records_dom(prev, g);
        assert(item_keys(record_entries(g[j]))[xi] == x);
    } else {
        let a = choose|a: int| 0 <= a < order.len() && order[a] == t;
        assert(order.drop_last()[a] == t);
        lemma_table_files(vs, order.drop_last(), t, i, x);
        if is_item_type(order.last()) {
            lemma_add_records_dom(prev, group(vs, order.last()));
        }
    }
}

/// Every record of an item type (armor, generic, gun, ammo, comestible,
/// tool, tool_armor, compared in lower case) is filed: its string `id`, where
/// it has no `abstract`, is an id of the item table whatever the order of the
/// types, and stays one however the `copy-from` links resolve.
pub proof fn law_item_records_are_filed(
    vs: Seq<JsonV>,
    order: Seq<Seq<char>>,
    i: int,
    x: Seq<char>,
    fuel: nat,
)
    requires
        is_type_order(order, vs),
        0 <= i < vs.len(),
        record_type(vs[i]) == Some("armor"@) || record_type(vs[i]) == Some("generic"@)
            || record_type(vs[i]) == Some("gun"@) || record_type(vs[i]) == Some("ammo"@)
            || record_type(vs[i]) == Some("comestible"@) || record_type(vs[i]) == Some("tool"@)
            || record_type(vs[i]) == Some("tool_armor"@),
        lookup(record_entries(vs[i]), "abstract"@) is None,
        lookup(record_entries(vs[i]), "id"@) == Some(JsonV::Str(x)),
    ensures
        table_for_order(vs, order).dom().contains(x),
        forall|r: Items| run(table_for_order(vs, order), fuel) == Some(r) ==> r.dom().contains(x),
{
    let t = record_type(vs[i])->0;
    assert(record_types(vs).contains(t));
    assert(order.contains(t));
    assert(item_keys(record_entries(vs[i])) == seq![x]);
    assert(item_keys(record_entries(vs[i]))[0] == x);
    lemma_table_files(vs, order, t, i, x);
    assert forall|r: Items| run(table_for_order(vs, order), fuel) == Some(r) implies r.dom().contains(x) by {
        law_resolution_keeps_ids(table_for_order(vs, order), fuel, r);
    }
}

} // verus!
