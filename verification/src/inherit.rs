use vstd::prelude::*;

use crate::json::{
    bind, copy_array, copy_entries, has_key, json_same, key_index, keys_unique, lemma_key_index,
    lemma_key_index_none, lemma_lookup_bind, lemma_lookup_bind_other, lemma_lookup_unbind,
    lemma_unbind_unique, lemma_view_array, lemma_view_array_take, lemma_view_entries, lookup,
    obj_get, obj_insert, obj_remove, json_equal, array_without, seq_without, unbind, view_array,
    view_entries, Json, JsonV, Number, ObjV,
};

verus! {

// The item data lets one item definition start from another one: an item
// with a `copy-from` entry takes the definition it names, changes it with
// its `extend`, `delete` and `relative` entries, and lays its own entries
// over the result.
/// The entries of `s` applied to `b` one after another by `f`; `None` once a
/// step has no meaning.
pub open spec fn fold_entries(
    b: ObjV,
    s: ObjV,
    f: spec_fn(ObjV, Seq<char>, JsonV) -> Option<ObjV>,
) -> Option<ObjV>
    decreases s.len(),
{
    if s.len() == 0 {
        Some(b)
    } else {
        match fold_entries(b, s.drop_last(), f) {
            Some(b2) => f(b2, s.last().0, s.last().1),
            None => None,
        }
    }
}

pub proof fn lemma_fold_fails_later(
    b: ObjV,
    s: ObjV,
    f: spec_fn(ObjV, Seq<char>, JsonV) -> Option<ObjV>,
    n: int,
)
    requires
        0 <= n < s.len(),
        fold_entries(b, s.take(n + 1), f) is None,
    ensures
        fold_entries(b, s, f) is None,
    decreases s.len() - n,
{
    if n + 1 < s.len() {
        assert(s.take(n + 2).drop_last() =~= s.take(n + 1));
        lemma_fold_fails_later(b, s, f, n + 1);
    } else {
        assert(s.take(n + 1) =~= s);
    }
}

/// One `extend` entry: a new key is added, an array gets the given elements
/// appended; anything else has no meaning (`None`).
pub open spec fn extend_one(b: ObjV, k: Seq<char>, v: JsonV) -> Option<ObjV> {
    match lookup(b, k) {
        None => Some(bind(b, k, v)),
        Some(JsonV::Arr(a)) => match v {
            JsonV::Arr(x) => Some(bind(b, k, JsonV::Arr(a + x))),
            _ => None,
        },
        Some(_) => None,
    }
}

/// All `extend` entries, in order.
pub open spec fn extend_all(b: ObjV, ext: ObjV) -> Option<ObjV> {
    fold_entries(b, ext, |o: ObjV, k: Seq<char>, v: JsonV| extend_one(o, k, v))
}

/// One `delete` entry: from an array the given elements are removed, a string
/// becomes null; anything else has no meaning (`None`).
pub open spec fn delete_one(b: ObjV, k: Seq<char>, v: JsonV) -> Option<ObjV> {
    match lookup(b, k) {
        Some(JsonV::Arr(a)) => match v {
            JsonV::Arr(x) => Some(bind(b, k, JsonV::Arr(seq_without(a, x)))),
            _ => None,
        },
        Some(JsonV::Str(_)) => Some(bind(b, k, JsonV::Null)),
        _ => None,
    }
}

/// All `delete` entries, in order.
pub open spec fn delete_all(b: ObjV, del: ObjV) -> Option<ObjV> {
    fold_entries(b, del, |o: ObjV, k: Seq<char>, v: JsonV| delete_one(o, k, v))
}

/// One entry of a `relative` object given for a nested object: a new key is
/// added, a number is summed, any other value must already be equal.
pub open spec fn relative_inner_one(o: ObjV, k: Seq<char>, v: JsonV) -> Option<ObjV> {
    match lookup(o, k) {
        None => Some(bind(o, k, v)),
        Some(JsonV::Num(n)) => match v {
            JsonV::Num(m) => Some(bind(o, k, JsonV::Num(Number::Sum(Box::new(n), Box::new(m))))),
            _ => None,
        },
        Some(w) => if json_same(w, v) {
            Some(o)
        } else {
            None
        },
    }
}

pub open spec fn relative_inner_all(o: ObjV, rel: ObjV) -> Option<ObjV> {
    fold_entries(o, rel, |o: ObjV, k: Seq<char>, v: JsonV| relative_inner_one(o, k, v))
}

/// One `relative` entry: a new key is added, a number is summed, a nested
/// object takes the entries of the given object the same way one level
/// down; other values stay as they are.
pub open spec fn relative_one(b: ObjV, k: Seq<char>, v: JsonV) -> Option<ObjV> {
    match lookup(b, k) {
        None => Some(bind(b, k, v)),
        Some(JsonV::Num(n)) => match v {
            JsonV::Num(m) => Some(bind(b, k, JsonV::Num(Number::Sum(Box::new(n), Box::new(m))))),
            _ => None,
        },
        Some(JsonV::Obj(o)) => match v {
            JsonV::Obj(x) => match relative_inner_all(o, x) {
                Some(o2) => Some(bind(b, k, JsonV::Obj(o2))),
                None => None,
            },
            _ => None,
        },
        Some(_) => Some(b),
    }
}

pub open spec fn relative_all(b: ObjV, rel: ObjV) -> Option<ObjV> {
    fold_entries(b, rel, |o: ObjV, k: Seq<char>, v: JsonV| relative_one(o, k, v))
}

/// `b` with every entry of `c` laid over it, in order.
pub open spec fn overlay(b: ObjV, c: ObjV) -> ObjV
    decreases c.len(),
{
    if c.len() == 0 {
        b
    } else {
        bind(overlay(b, c.drop_last()), c.last().0, c.last().1)
    }
}

/// A step that an entry of the child asks for: absent means no change, an
/// object is applied by `f`, anything else has no meaning.
pub open spec fn apply_step(
    base: Option<ObjV>,
    arg: Option<JsonV>,
    f: spec_fn(ObjV, ObjV) -> Option<ObjV>,
) -> Option<ObjV> {
    match base {
        None => None,
        Some(b) => match arg {
            None => Some(b),
            Some(JsonV::Obj(x)) => f(b, x),
            Some(_) => None,
        },
    }
}

/// The definition of an item with a `copy-from` entry, made from its own
/// entries `child` and the definition `parent` it copies from; `None` where
/// the entries ask for something that has no meaning.
pub open spec fn inherit(child: ObjV, parent: ObjV) -> Option<ObjV> {
    let c0 = unbind(child, "copy-from"@);
    let ext = lookup(c0, "extend"@);
    let c1 = unbind(c0, "extend"@);
    let del = lookup(c1, "delete"@);
    let c2 = unbind(c1, "delete"@);
    let rel = lookup(c2, "relative"@);
    let c3 = unbind(c2, "relative"@);
    let own = unbind(unbind(c3, "proportional"@), "replace_materials"@);
    let b1 = apply_step(Some(parent), ext, |b: ObjV, x: ObjV| extend_all(b, x));
    let b2 = apply_step(b1, del, |b: ObjV, x: ObjV| delete_all(b, x));
    let b3 = apply_step(b2, rel, |b: ObjV, x: ObjV| relative_all(b, x));
    match b3 {
        Some(b) => Some(overlay(b, own)),
        None => None,
    }
}

/// The elements of `a` followed by those of `x`.
pub fn concat_arrays(a: &Vec<Json>, x: &Vec<Json>) -> (r: Vec<Json>)
    ensures
        view_array(r@) == view_array(a@) + view_array(x@),
{
    let mut out = copy_array(a);
    let mut i: usize = 0;
    while i < x.len()
        invariant
            i <= x.len(),
            view_array(out@) == view_array(a@) + view_array(x@.take(i as int)),
        decreases x.len() - i,
    {
        proof {
            lemma_view_array_take(x@, i as int);
        }
        let c = x[i].copy();
        let ghost before = out@;
        out.push(c);
        proof {
            assert(out@.drop_last() =~= before);
            assert(view_array(out@) =~= view_array(before).push(c@));
            assert(view_array(a@) + view_array(x@.take(i + 1)) =~= (view_array(a@) + view_array(
                x@.take(i as int),
            )).push(x@[i as int]@));
        }
        i = i + 1;
    }
    proof {
        assert(x@.take(x.len() as int) =~= x@);
    }
    out
}

/// Applies the entries of an `extend` object to `base`.
pub fn extend_entries(base: Vec<(String, Json)>, ext: &Vec<(String, Json)>) -> (r: Option<
    Vec<(String, Json)>,
>)
    ensures
        match r {
            Some(b) => extend_all(view_entries(base@), view_entries(ext@)) == Some(view_entries(b@)),
            None => extend_all(view_entries(base@), view_entries(ext@)) is None,
        },
{
    let ghost ev = view_entries(ext@);
    proof {
        lemma_view_entries(ext@);
    }
    let mut b = base;
    let mut i: usize = 0;
    while i < ext.len()
        invariant
            i <= ext.len(),
            ev == view_entries(ext@),
            ev.len() == ext.len(),
            forall|j: int| 0 <= j < ext.len() ==> #[trigger] ev[j] == (ext@[j].0@, ext@[j].1@),
            extend_all(view_entries(base@), ev.take(i as int)) == Some(view_entries(b@)),
        decreases ext.len() - i,
    {
        proof {
            assert(ev.take(i + 1).drop_last() =~= ev.take(i as int));
            assert(ev.take(i + 1).last() == ev[i as int]);
        }
        let k = &ext[i].0;
        let v = &ext[i].1;
        let next: Option<Json> = match obj_get(&b, k.as_str()) {
            None => None,
            Some(Json::Array(a)) => match v {
                Json::Array(x) => Some(Json::Array(concat_arrays(a, x))),
                _ => {
                    proof {
                        lemma_fold_fails_later(view_entries(base@), ev, |o: ObjV, k: Seq<char>, v: JsonV| extend_one(o, k, v), i as int);
                    }
                    return None;
                },
            },
            Some(_) => {
                proof {
                    lemma_fold_fails_later(view_entries(base@), ev, |o: ObjV, k: Seq<char>, v: JsonV| extend_one(o, k, v), i as int);
                }
                return None;
            },
        };
        match next {
            Some(n) => obj_insert(&mut b, k.clone(), n),
            None => obj_insert(&mut b, k.clone(), v.copy()),
        }
        i = i + 1;
    }
    proof {
        assert(ev.take(ext.len() as int) =~= ev);
    }
    Some(b)
}


/// Applies the entries of a `delete` object to `base`.
pub fn delete_entries(base: Vec<(String, Json)>, del: &Vec<(String, Json)>) -> (r: Option<
    Vec<(String, Json)>,
>)
    ensures
        match r {
            Some(b) => delete_all(view_entries(base@), view_entries(del@)) == Some(view_entries(b@)),
            None => delete_all(view_entries(base@), view_entries(del@)) is None,
        },
{
    let ghost ev = view_entries(del@);
    proof {
        lemma_view_entries(del@);
    }
    let mut b = base;
    let mut i: usize = 0;
    while i < del.len()
        invariant
            i <= del.len(),
            ev == view_entries(del@),
            ev.len() == del.len(),
            forall|j: int| 0 <= j < del.len() ==> #[trigger] ev[j] == (del@[j].0@, del@[j].1@),
            fold_entries(view_entries(base@), ev.take(i as int), |o: ObjV, k: Seq<char>, v: JsonV| delete_one(o, k, v)) == Some(view_entries(b@)),
        decreases del.len() - i,
    {
        proof {
            assert(ev.take(i + 1).drop_last() =~= ev.take(i as int));
            assert(ev.take(i + 1).last() == ev[i as int]);
        }
        let k = &del[i].0;
        let v = &del[i].1;
        let next: Json = match obj_get(&b, k.as_str()) {
            Some(Json::Array(a)) => match v {
                Json::Array(x) => Json::Array(array_without(a, x)),
                _ => {
                    proof {
                        lemma_fold_fails_later(view_entries(base@), ev, |o: ObjV, k: Seq<char>, v: JsonV| delete_one(o, k, v), i as int);
                    }
                    return None;
                },
            },
            Some(Json::Str(_)) => Json::Null,
            _ => {
                    proof {
                        lemma_fold_fails_later(view_entries(base@), ev, |o: ObjV, k: Seq<char>, v: JsonV| delete_one(o, k, v), i as int);
                    }
                    return None;
                },
        };
        obj_insert(&mut b, k.clone(), next);
        i = i + 1;
    }
    proof {
        assert(ev.take(del.len() as int) =~= ev);
    }
    Some(b)
}

/// Applies the entries of a `relative` object to a nested object `base`.
pub fn relative_inner_entries(base: Vec<(String, Json)>, rel: &Vec<(String, Json)>) -> (r: Option<
    Vec<(String, Json)>,
>)
    ensures
        match r {
            Some(b) => relative_inner_all(view_entries(base@), view_entries(rel@)) == Some(view_entries(b@)),
            None => relative_inner_all(view_entries(base@), view_entries(rel@)) is None,
        },
{
    let ghost ev = view_entries(rel@);
    proof {
        lemma_view_entries(rel@);
    }
    let mut b = base;
    let mut i: usize = 0;
    while i < rel.len()
        invariant
            i <= rel.len(),
            ev == view_entries(rel@),
            ev.len() == rel.len(),
            forall|j: int| 0 <= j < rel.len() ==> #[trigger] ev[j] == (rel@[j].0@, rel@[j].1@),
            fold_entries(view_entries(base@), ev.take(i as int), |o: ObjV, k: Seq<char>, v: JsonV| relative_inner_one(o, k, v)) == Some(view_entries(b@)),
        decreases rel.len() - i,
    {
        proof {
            assert(ev.take(i + 1).drop_last() =~= ev.take(i as int));
            assert(ev.take(i + 1).last() == ev[i as int]);
        }
        let k = &rel[i].0;
        let v = &rel[i].1;
        let next: Option<Json> = match obj_get(&b, k.as_str()) {
            None => Some(v.copy()),
            Some(Json::Number(n)) => match v {
                Json::Number(m) => Some(Json::Number(Number::Sum(Box::new(n.copy()), Box::new(m.copy())))),
                _ => {
                    proof {
                        lemma_fold_fails_later(view_entries(base@), ev, |o: ObjV, k: Seq<char>, v: JsonV| relative_inner_one(o, k, v), i as int);
                    }
                    return None;
                },
            },
            Some(w) => {
                if json_equal(w, v) {
                    None
                } else {
                    proof {
                        lemma_fold_fails_later(view_entries(base@), ev, |o: ObjV, k: Seq<char>, v: JsonV| relative_inner_one(o, k, v), i as int);
                    }
                    return None;
                }
            },
        };
        match next {
            Some(n) => obj_insert(&mut b, k.clone(), n),
            None => {},
        }
        i = i + 1;
    }
    proof {
        assert(ev.take(rel.len() as int) =~= ev);
    }
    Some(b)
}

/// Applies the entries of a `relative` object to `base`.
pub fn relative_entries(base: Vec<(String, Json)>, rel: &Vec<(String, Json)>) -> (r: Option<
    Vec<(String, Json)>,
>)
    ensures
        match r {
            Some(b) => relative_all(view_entries(base@), view_entries(rel@)) == Some(view_entries(b@)),
            None => relative_all(view_entries(base@), view_entries(rel@)) is None,
        },
{
    let ghost ev = view_entries(rel@);
    proof {
        lemma_view_entries(rel@);
    }
    let mut b = base;
    let mut i: usize = 0;
    while i < rel.len()
        invariant
            i <= rel.len(),
            ev == view_entries(rel@),
            ev.len() == rel.len(),
            forall|j: int| 0 <= j < rel.len() ==> #[trigger] ev[j] == (rel@[j].0@, rel@[j].1@),
            fold_entries(view_entries(base@), ev.take(i as int), |o: ObjV, k: Seq<char>, v: JsonV| relative_one(o, k, v)) == Some(view_entries(b@)),
        decreases rel.len() - i,
    {
        proof {
            assert(ev.take(i + 1).drop_last() =~= ev.take(i as int));
            assert(ev.take(i + 1).last() == ev[i as int]);
        }
        let k = &rel[i].0;
        let v = &rel[i].1;
        let next: Option<Json> = match obj_get(&b, k.as_str()) {
            None => Some(v.copy()),
            Some(Json::Number(n)) => match v {
                Json::Number(m) => Some(Json::Number(Number::Sum(Box::new(n.copy()), Box::new(m.copy())))),
                _ => {
                    proof {
                        lemma_fold_fails_later(view_entries(base@), ev, |o: ObjV, k: Seq<char>, v: JsonV| relative_one(o, k, v), i as int);
                    }
                    return None;
                },
            },
            Some(Json::Object(o)) => match v {
                Json::Object(x) => match relative_inner_entries(copy_entries(o), x) {
                    Some(o2) => Some(Json::Object(o2)),
                    None => {
                    proof {
                        lemma_fold_fails_later(view_entries(base@), ev, |o: ObjV, k: Seq<char>, v: JsonV| relative_one(o, k, v), i as int);
                    }
                    return None;
                },
                },
                _ => {
                    proof {
                        lemma_fold_fails_later(view_entries(base@), ev, |o: ObjV, k: Seq<char>, v: JsonV| relative_one(o, k, v), i as int);
                    }
                    return None;
                },
            },
            Some(_) => None,
        };
        match next {
            Some(n) => obj_insert(&mut b, k.clone(), n),
            None => {},
        }
        i = i + 1;
    }
    proof {
        assert(ev.take(rel.len() as int) =~= ev);
    }
    Some(b)
}

/// `base` with every entry of `c` laid over it.
pub fn overlay_entries(base: Vec<(String, Json)>, c: &Vec<(String, Json)>) -> (r: Vec<(String, Json)>)
    ensures
        view_entries(r@) == overlay(view_entries(base@), view_entries(c@)),
{
    let ghost ev = view_entries(c@);
    proof {
        lemma_view_entries(c@);
    }
    let mut b = base;
    let mut i: usize = 0;
    while i < c.len()
        invariant
            i <= c.len(),
            ev == view_entries(c@),
            ev.len() == c.len(),
            forall|j: int| 0 <= j < c.len() ==> #[trigger] ev[j] == (c@[j].0@, c@[j].1@),
            overlay(view_entries(base@), ev.take(i as int)) == view_entries(b@),
        decreases c.len() - i,
    {
        proof {
            assert(ev.take(i + 1).drop_last() =~= ev.take(i as int));
            assert(ev.take(i + 1).last() == ev[i as int]);
        }
        obj_insert(&mut b, c[i].0.clone(), c[i].1.copy());
        i = i + 1;
    }
    proof {
        assert(ev.take(c.len() as int) =~= ev);
    }
    b
}

/// The definition of an item with a `copy-from` entry, made from its own
/// entries `child` and the definition `parent` it copies from.
pub fn inherit_entries(child: &Vec<(String, Json)>, parent: &Vec<(String, Json)>) -> (r: Option<
    Vec<(String, Json)>,
>)
    ensures
        match r {
            Some(d) => inherit(view_entries(child@), view_entries(parent@)) == Some(view_entries(d@)),
            None => inherit(view_entries(child@), view_entries(parent@)) is None,
        },
{
    let mut c = copy_entries(child);
    let _ = obj_remove(&mut c, "copy-from");
    let ext = obj_remove(&mut c, "extend");
    let del = obj_remove(&mut c, "delete");
    let rel = obj_remove(&mut c, "relative");
    let _ = obj_remove(&mut c, "proportional");
    let _ = obj_remove(&mut c, "replace_materials");
    let b = copy_entries(parent);
    let b = match ext {
        None => b,
        Some(Json::Object(x)) => match extend_entries(b, &x) {
            Some(b2) => b2,
            None => return None,
        },
        Some(_) => return None,
    };
    let b = match del {
        None => b,
        Some(Json::Object(x)) => match delete_entries(b, &x) {
            Some(b2) => b2,
            None => return None,
        },
        Some(_) => return None,
    };
    let b = match rel {
        None => b,
        Some(Json::Object(x)) => match relative_entries(b, &x) {
            Some(b2) => b2,
            None => return None,
        },
        Some(_) => return None,
    };
    Some(overlay_entries(b, &c))
}


/// Steps that change an object only under the key they are given leave the
/// lookup of a key that no entry of `s` names as it was.
pub proof fn lemma_fold_keeps(
    b: ObjV,
    s: ObjV,
    f: spec_fn(ObjV, Seq<char>, JsonV) -> Option<ObjV>,
    key: Seq<char>,
)
    requires
        fold_entries(b, s, f) is Some,
        !has_key(s, key),
        forall|o: ObjV, k: Seq<char>, v: JsonV|
            k != key && (#[trigger] f(o, k, v)) is Some ==> lookup(f(o, k, v)->0, key) == lookup(
                o,
                key,
            ),
    ensures
        lookup(fold_entries(b, s, f)->0, key) == lookup(b, key),
    decreases s.len(),
{
    if s.len() > 0 {
        lemma_key_index(s, key);
        let p = s.drop_last();
        assert forall|j: int| 0 <= j < p.len() implies (#[trigger] p[j]).0 != key by {
            assert(p[j] == s[j]);
        }
        lemma_key_index_none(p, key);
        lemma_fold_keeps(b, p, f, key);
        assert(s.last().0 != key);
    }
}

/// Laying entries that do not name `key` over an object leaves its lookup of
/// `key` as it was.
pub proof fn lemma_overlay_absent(b: ObjV, c: ObjV, key: Seq<char>)
    requires
        !has_key(c, key),
    ensures
        lookup(overlay(b, c), key) == lookup(b, key),
    decreases c.len(),
{
    if c.len() > 0 {
        lemma_key_index(c, key);
        let p = c.drop_last();
        assert forall|j: int| 0 <= j < p.len() implies (#[trigger] p[j]).0 != key by {
            assert(p[j] == c[j]);
        }
        lemma_key_index_none(p, key);
        lemma_overlay_absent(b, p, key);
        assert(c.last().0 != key);
        lemma_lookup_bind(overlay(b, p), c.last().0, c.last().1, key);
    }
}

/// Laying entries without repeated keys over an object makes its lookup of a
/// key they name what they give.
pub proof fn lemma_overlay_present(b: ObjV, c: ObjV, key: Seq<char>)
    requires
        keys_unique(c),
        has_key(c, key),
    ensures
        lookup(overlay(b, c), key) == lookup(c, key),
    decreases c.len(),
{
    let p = c.drop_last();
    let e = c.last();
    lemma_lookup_bind(overlay(b, p), e.0, e.1, key);
    if e.0 == key {
        assert forall|j: int| 0 <= j < p.len() implies (#[trigger] p[j]).0 != key by {
            assert(p[j] == c[j]);
            assert(c[j].0 != c[c.len() - 1].0);
        }
        lemma_key_index_none(p, key);
    } else {
        assert forall|i: int, j: int| 0 <= i < j < p.len() implies #[trigger] p[i].0
            != #[trigger] p[j].0 by {
            assert(p[i] == c[i] && p[j] == c[j]);
        }
        lemma_overlay_present(b, p, key);
        lemma_key_index(p, key);
        assert(p[key_index(p, key)] == c[key_index(p, key)]);
    }
}

/// The keys of an item's entries that steer how it inherits.
pub open spec fn is_step_key(k: Seq<char>) -> bool {
    ||| k == "copy-from"@
    ||| k == "extend"@
    ||| k == "delete"@
    ||| k == "relative"@
    ||| k == "proportional"@
    ||| k == "replace_materials"@
}

/// The entries of an item that it lays over what it inherits.
pub open spec fn own_entries(child: ObjV) -> ObjV {
    unbind(
        unbind(
            unbind(
                unbind(unbind(unbind(child, "copy-from"@), "extend"@), "delete"@),
                "relative"@,
            ),
            "proportional"@,
        ),
        "replace_materials"@,
    )
}

/// An item's own entries look up a key that steers nothing as the item does.
pub proof fn lemma_own_entries_lookup(child: ObjV, key: Seq<char>)
    requires
        !is_step_key(key),
    ensures
        lookup(own_entries(child), key) == lookup(child, key),
{
    let c0 = unbind(child, "copy-from"@);
    let c1 = unbind(c0, "extend"@);
    let c2 = unbind(c1, "delete"@);
    let c3 = unbind(c2, "relative"@);
    let c4 = unbind(c3, "proportional"@);
    lemma_lookup_unbind(child, "copy-from"@, key);
    lemma_lookup_unbind(c0, "extend"@, key);
    lemma_lookup_unbind(c1, "delete"@, key);
    lemma_lookup_unbind(c2, "relative"@, key);
    lemma_lookup_unbind(c3, "proportional"@, key);
    lemma_lookup_unbind(c4, "replace_materials"@, key);
}

/// An inherited definition is the item's own entries laid over its parent
/// as changed by the item's steps.
pub proof fn lemma_inherit_shape(child: ObjV, parent: ObjV, d: ObjV)
    requires
        inherit(child, parent) == Some(d),
    ensures
        exists|b: ObjV| d == #[trigger] overlay(b, own_entries(child)),
{
    let c0 = unbind(child, "copy-from"@);
    let c1 = unbind(c0, "extend"@);
    let c2 = unbind(c1, "delete"@);
    let c3 = unbind(c2, "relative"@);
    let b1 = apply_step(Some(parent), lookup(c0, "extend"@), |b: ObjV, x: ObjV| extend_all(b, x));
    let b2 = apply_step(b1, lookup(c1, "delete"@), |b: ObjV, x: ObjV| delete_all(b, x));
    let b3 = apply_step(b2, lookup(c2, "relative"@), |b: ObjV, x: ObjV| relative_all(b, x));
    assert(d == overlay(b3->0, own_entries(child)));
}

/// An item's own entries win over what it inherits: each key that steers
/// nothing and that the item gives is looked up in the inherited definition
/// as in the item.
pub proof fn law_own_entries_win(child: ObjV, parent: ObjV, d: ObjV, key: Seq<char>)
    requires
        keys_unique(child),
        inherit(child, parent) == Some(d),
        has_key(child, key),
        !is_step_key(key),
    ensures
        lookup(d, key) == lookup(child, key),
{
    let c0 = unbind(child, "copy-from"@);
    let c1 = unbind(c0, "extend"@);
    let c2 = unbind(c1, "delete"@);
    let c3 = unbind(c2, "relative"@);
    let c4 = unbind(c3, "proportional"@);
    lemma_unbind_unique(child, "copy-from"@);
    lemma_unbind_unique(c0, "extend"@);
    lemma_unbind_unique(c1, "delete"@);
    lemma_unbind_unique(c2, "relative"@);
    lemma_unbind_unique(c3, "proportional"@);
    lemma_unbind_unique(c4, "replace_materials"@);
    lemma_own_entries_lookup(child, key);
    lemma_inherit_shape(child, parent, d);
    let b = choose|b: ObjV| d == #[trigger] overlay(b, own_entries(child));
    lemma_overlay_present(b, own_entries(child), key);
}


/// The step object that `child` gives under `step` names `key`.
pub open spec fn step_names(child: ObjV, step: Seq<char>, key: Seq<char>) -> bool {
    match lookup(child, step) {
        Some(JsonV::Obj(x)) => has_key(x, key),
        _ => false,
    }
}

/// The parent after the item's `extend` step.
pub open spec fn after_extend(child: ObjV, parent: ObjV) -> Option<ObjV> {
    apply_step(
        Some(parent),
        lookup(unbind(child, "copy-from"@), "extend"@),
        |b: ObjV, x: ObjV| extend_all(b, x),
    )
}

/// The parent after the item's `extend` and `delete` steps.
pub open spec fn after_delete(child: ObjV, parent: ObjV) -> Option<ObjV> {
    apply_step(
        after_extend(child, parent),
        lookup(unbind(unbind(child, "copy-from"@), "extend"@), "delete"@),
        |b: ObjV, x: ObjV| delete_all(b, x),
    )
}

/// The parent after the item's `extend`, `delete` and `relative` steps.
pub open spec fn after_relative(child: ObjV, parent: ObjV) -> Option<ObjV> {
    apply_step(
        after_delete(child, parent),
        lookup(unbind(unbind(unbind(child, "copy-from"@), "extend"@), "delete"@), "relative"@),
        |b: ObjV, x: ObjV| relative_all(b, x),
    )
}

/// Inheriting is taking the steps and laying the item's own entries over
/// the result.
pub proof fn lemma_inherit_steps(child: ObjV, parent: ObjV)
    ensures
        inherit(child, parent) == match after_relative(child, parent) {
            Some(b) => Some(overlay(b, own_entries(child))),
            None => None,
        },
        after_relative(child, parent) is Some ==> after_delete(child, parent) is Some,
        after_delete(child, parent) is Some ==> after_extend(child, parent) is Some,
        lookup(unbind(child, "copy-from"@), "extend"@) == lookup(child, "extend"@),
        lookup(unbind(unbind(child, "copy-from"@), "extend"@), "delete"@) == lookup(
            child,
            "delete"@,
        ),
        lookup(unbind(unbind(unbind(child, "copy-from"@), "extend"@), "delete"@), "relative"@)
            == lookup(child, "relative"@),
{
    reveal_strlit("copy-from");
    reveal_strlit("extend");
    reveal_strlit("delete");
    reveal_strlit("relative");
    assert("copy-from"@.len() != "extend"@.len());
    assert("copy-from"@.len() != "delete"@.len());
    assert("copy-from"@.len() != "relative"@.len());
    assert("extend"@.len() != "relative"@.len());
    assert("delete"@.len() != "relative"@.len());
    assert("extend"@[0] != "delete"@[0]);
    let c0 = unbind(child, "copy-from"@);
    let c1 = unbind(c0, "extend"@);
    lemma_lookup_unbind(child, "copy-from"@, "extend"@);
    lemma_lookup_unbind(child, "copy-from"@, "delete"@);
    lemma_lookup_unbind(c0, "extend"@, "delete"@);
    lemma_lookup_unbind(child, "copy-from"@, "relative"@);
    lemma_lookup_unbind(c0, "extend"@, "relative"@);
    lemma_lookup_unbind(c1, "delete"@, "relative"@);
}

/// A step that changes an object only under the key it is given, applied
/// with the entries that `child` gives under `step`, leaves the lookup of a
/// key they do not name as it was.
pub proof fn lemma_step_keeps(
    b: ObjV,
    arg: Option<JsonV>,
    g: spec_fn(ObjV, ObjV) -> Option<ObjV>,
    f: spec_fn(ObjV, Seq<char>, JsonV) -> Option<ObjV>,
    key: Seq<char>,
)
    requires
        apply_step(Some(b), arg, g) is Some,
        forall|o: ObjV, x: ObjV| #[trigger] g(o, x) == fold_entries(o, x, f),
        forall|o: ObjV, k: Seq<char>, v: JsonV|
            k != key && (#[trigger] f(o, k, v)) is Some ==> lookup(f(o, k, v)->0, key) == lookup(
                o,
                key,
            ),
        match arg {
            Some(JsonV::Obj(x)) => !has_key(x, key),
            _ => true,
        },
    ensures
        lookup(apply_step(Some(b), arg, g)->0, key) == lookup(b, key),
{
    if let Some(JsonV::Obj(x)) = arg {
        lemma_fold_keeps(b, x, f, key);
    }
}

/// The `extend` step leaves the lookup of a key it does not name as it was.
pub proof fn lemma_extend_keeps(child: ObjV, parent: ObjV, key: Seq<char>)
    requires
        after_extend(child, parent) is Some,
        !step_names(child, "extend"@, key),
    ensures
        lookup(after_extend(child, parent)->0, key) == lookup(parent, key),
{
    lemma_inherit_steps(child, parent);
    let f = |o: ObjV, k: Seq<char>, v: JsonV| extend_one(o, k, v);
    assert forall|o: ObjV, k: Seq<char>, v: JsonV| k != key && (#[trigger] f(o, k, v)) is Some implies lookup(
        f(o, k, v)->0,
        key,
    ) == lookup(o, key) by {
        lemma_lookup_bind_other(o, k, key);
    }
    lemma_step_keeps(
        parent,
        lookup(unbind(child, "copy-from"@), "extend"@),
        |b: ObjV, x: ObjV| extend_all(b, x),
        f,
        key,
    );
}

/// The `delete` step leaves the lookup of a key it does not name as it was.
pub proof fn lemma_delete_keeps(child: ObjV, parent: ObjV, key: Seq<char>)
    requires
        after_delete(child, parent) is Some,
        !step_names(child, "delete"@, key),
    ensures
        lookup(after_delete(child, parent)->0, key) == lookup(after_extend(child, parent)->0, key),
{
    lemma_inherit_steps(child, parent);
    let f = |o: ObjV, k: Seq<char>, v: JsonV| delete_one(o, k, v);
    assert forall|o: ObjV, k: Seq<char>, v: JsonV| k != key && (#[trigger] f(o, k, v)) is Some implies lookup(
        f(o, k, v)->0,
        key,
    ) == lookup(o, key) by {
        lemma_lookup_bind_other(o, k, key);
    }
    lemma_step_keeps(
        after_extend(child, parent)->0,
        lookup(unbind(unbind(child, "copy-from"@), "extend"@), "delete"@),
        |b: ObjV, x: ObjV| delete_all(b, x),
        f,
        key,
    );
}

/// The `relative` step leaves the lookup of a key it does not name as it was.
pub proof fn lemma_relative_keeps(child: ObjV, parent: ObjV, key: Seq<char>)
    requires
        after_relative(child, parent) is Some,
        !step_names(child, "relative"@, key),
    ensures
        lookup(after_relative(child, parent)->0, key) == lookup(after_delete(child, parent)->0, key),
{
    lemma_inherit_steps(child, parent);
    let f = |o: ObjV, k: Seq<char>, v: JsonV| relative_one(o, k, v);
    assert forall|o: ObjV, k: Seq<char>, v: JsonV| k != key && (#[trigger] f(o, k, v)) is Some implies lookup(
        f(o, k, v)->0,
        key,
    ) == lookup(o, key) by {
        lemma_lookup_bind_other(o, k, key);
    }
    lemma_step_keeps(
        after_delete(child, parent)->0,
        lookup(unbind(unbind(unbind(child, "copy-from"@), "extend"@), "delete"@), "relative"@),
        |b: ObjV, x: ObjV| relative_all(b, x),
        f,
        key,
    );
}

/// A key that steers nothing and that the item does not give is looked up in
/// the inherited definition as after the steps.
pub proof fn lemma_not_own_entry(child: ObjV, parent: ObjV, d: ObjV, key: Seq<char>)
    requires
        inherit(child, parent) == Some(d),
        !is_step_key(key),
        !has_key(child, key),
    ensures
        after_relative(child, parent) is Some,
        after_delete(child, parent) is Some,
        after_extend(child, parent) is Some,
        lookup(d, key) == lookup(after_relative(child, parent)->0, key),
{
    lemma_inherit_steps(child, parent);
    lemma_own_entries_lookup(child, key);
    lemma_overlay_absent(after_relative(child, parent)->0, own_entries(child), key);
}

/// What an item says nothing about it inherits unchanged: a key that steers
/// nothing, that the item does not give and that none of its `extend`,
/// `delete` and `relative` objects names is looked up in the inherited
/// definition as in the parent.
pub proof fn law_unmentioned_entries_inherited(
    child: ObjV,
    parent: ObjV,
    d: ObjV,
    key: Seq<char>,
)
    requires
        inherit(child, parent) == Some(d),
        !is_step_key(key),
        !has_key(child, key),
        !step_names(child, "extend"@, key),
        !step_names(child, "delete"@, key),
        !step_names(child, "relative"@, key),
    ensures
        lookup(d, key) == lookup(parent, key),
{
    lemma_not_own_entry(child, parent, d, key);
    lemma_extend_keeps(child, parent, key);
    lemma_delete_keeps(child, parent, key);
    lemma_relative_keeps(child, parent, key);
}


/// Steps over entries without repeated keys, of which one names `key` with
/// `v`: the lookup of `key` after all of them is what the step on `key` made
/// of an object that looked `key` up as `b` does.
pub proof fn lemma_fold_single(
    b: ObjV,
    s: ObjV,
    f: spec_fn(ObjV, Seq<char>, JsonV) -> Option<ObjV>,
    key: Seq<char>,
    v: JsonV,
)
    requires
        fold_entries(b, s, f) is Some,
        keys_unique(s),
        lookup(s, key) == Some(v),
        forall|o: ObjV, k: Seq<char>, w: JsonV|
            k != key && (#[trigger] f(o, k, w)) is Some ==> lookup(f(o, k, w)->0, key) == lookup(
                o,
                key,
            ),
    ensures
        exists|o: ObjV|
            lookup(o, key) == lookup(b, key) && (#[trigger] f(o, key, v)) is Some && lookup(
                fold_entries(b, s, f)->0,
                key,
            ) == lookup(f(o, key, v)->0, key),
    decreases s.len(),
{
    lemma_key_index(s, key);
    let p = s.drop_last();
    let e = s.last();
    assert forall|i: int, j: int| 0 <= i < j < p.len() implies #[trigger] p[i].0
        != #[trigger] p[j].0 by {
        assert(p[i] == s[i] && p[j] == s[j]);
    }
    if e.0 == key {
        assert forall|j: int| 0 <= j < p.len() implies (#[trigger] p[j]).0 != key by {
            assert(p[j] == s[j]);
            assert(s[j].0 != s[s.len() - 1].0);
        }
        lemma_key_index_none(p, key);
        lemma_fold_keeps(b, p, f, key);
        let o = fold_entries(b, p, f)->0;
        assert(f(o, key, v) is Some);
    } else {
        lemma_key_index(p, key);
        assert(p[key_index(p, key)] == s[key_index(p, key)]);
        lemma_fold_single(b, p, f, key, v);
        let o = choose|o: ObjV|
            lookup(o, key) == lookup(b, key) && (#[trigger] f(o, key, v)) is Some && lookup(
                fold_entries(b, p, f)->0,
                key,
            ) == lookup(f(o, key, v)->0, key);
        assert(f(o, key, v) is Some);
    }
}

/// `extend` adds what the parent lacks and appends to the parent's arrays:
/// for a key that steers nothing, that the item does not give and that only
/// its `extend` object names, with `v`, the inherited definition holds `v`
/// where the parent has no entry and the parent's array followed by the
/// elements of `v` where it has one; anything else has no inherited
/// definition.
pub proof fn law_extend_appends(
    child: ObjV,
    parent: ObjV,
    d: ObjV,
    key: Seq<char>,
    ext: ObjV,
    v: JsonV,
)
    requires
        inherit(child, parent) == Some(d),
        !is_step_key(key),
        !has_key(child, key),
        lookup(child, "extend"@) == Some(JsonV::Obj(ext)),
        keys_unique(ext),
        lookup(ext, key) == Some(v),
        !step_names(child, "delete"@, key),
        !step_names(child, "relative"@, key),
    ensures
        match (lookup(parent, key), v) {
            (None, _) => lookup(d, key) == Some(v),
            (Some(JsonV::Arr(a)), JsonV::Arr(y)) => lookup(d, key) == Some(JsonV::Arr(a + y)),
            _ => false,
        },
{
    lemma_inherit_steps(child, parent);
    lemma_not_own_entry(child, parent, d, key);
    lemma_delete_keeps(child, parent, key);
    lemma_relative_keeps(child, parent, key);
    let f = |o: ObjV, k: Seq<char>, w: JsonV| extend_one(o, k, w);
    assert forall|o: ObjV, k: Seq<char>, w: JsonV| k != key && (#[trigger] f(o, k, w)) is Some implies lookup(
        f(o, k, w)->0,
        key,
    ) == lookup(o, key) by {
        lemma_lookup_bind_other(o, k, key);
    }
    assert(after_extend(child, parent) == extend_all(parent, ext));
    lemma_fold_single(parent, ext, f, key, v);
    let o = choose|o: ObjV|
        lookup(o, key) == lookup(parent, key) && (#[trigger] f(o, key, v)) is Some && lookup(
            fold_entries(parent, ext, f)->0,
            key,
        ) == lookup(f(o, key, v)->0, key);
    assert(f(o, key, v) is Some);
    match lookup(o, key) {
        None => lemma_lookup_bind(o, key, v, key),
        Some(JsonV::Arr(a)) => {
            if let JsonV::Arr(y) = v {
                lemma_lookup_bind(o, key, JsonV::Arr(a + y), key);
            }
        },
        _ => {},
    }
}

/// `delete` removes elements from the parent's arrays and clears its
/// strings: for a key that steers nothing, that the item does not give and
/// that only its `delete` object names, with `v`, the inherited definition
/// holds the parent's array without the elements of `v` (as JSON compares
/// them), or null where the parent has a string; anything else has no
/// inherited definition.
pub proof fn law_delete_removes(
    child: ObjV,
    parent: ObjV,
    d: ObjV,
    key: Seq<char>,
    del: ObjV,
    v: JsonV,
)
    requires
        inherit(child, parent) == Some(d),
        !is_step_key(key),
        !has_key(child, key),
        lookup(child, "delete"@) == Some(JsonV::Obj(del)),
        keys_unique(del),
        lookup(del, key) == Some(v),
        !step_names(child, "extend"@, key),
        !step_names(child, "relative"@, key),
    ensures
        match (lookup(parent, key), v) {
            (Some(JsonV::Arr(a)), JsonV::Arr(y)) => lookup(d, key) == Some(
                JsonV::Arr(seq_without(a, y)),
            ),
            (Some(JsonV::Str(_)), _) => lookup(d, key) == Some(JsonV::Null),
            _ => false,
        },
{
    lemma_inherit_steps(child, parent);
    lemma_not_own_entry(child, parent, d, key);
    lemma_extend_keeps(child, parent, key);
    lemma_relative_keeps(child, parent, key);
    let f = |o: ObjV, k: Seq<char>, w: JsonV| delete_one(o, k, w);
    assert forall|o: ObjV, k: Seq<char>, w: JsonV| k != key && (#[trigger] f(o, k, w)) is Some implies lookup(
        f(o, k, w)->0,
        key,
    ) == lookup(o, key) by {
        lemma_lookup_bind_other(o, k, key);
    }
    let b1 = after_extend(child, parent)->0;
    assert(after_delete(child, parent) == delete_all(b1, del));
    lemma_fold_single(b1, del, f, key, v);
    let o = choose|o: ObjV|
        lookup(o, key) == lookup(b1, key) && (#[trigger] f(o, key, v)) is Some && lookup(
            fold_entries(b1, del, f)->0,
            key,
        ) == lookup(f(o, key, v)->0, key);
    assert(f(o, key, v) is Some);
    match lookup(o, key) {
        Some(JsonV::Arr(a)) => {
            if let JsonV::Arr(y) = v {
                lemma_lookup_bind(o, key, JsonV::Arr(seq_without(a, y)), key);
            }
        },
        Some(JsonV::Str(_)) => lemma_lookup_bind(o, key, JsonV::Null, key),
        _ => {},
    }
}

/// `relative` adds to the parent's numbers: for a key that steers nothing,
/// that the item does not give and that only its `relative` object names,
/// with `v`, the inherited definition holds `v` where the parent has no
/// entry, the sum of the parent's number and `v` where both are numbers, the
/// parent's object with the entries of `v` taken one level down where both
/// are objects, and the parent's value where that is anything else; a number
/// or an object of the parent met by something else has no inherited
/// definition.
pub proof fn law_relative_adds(
    child: ObjV,
    parent: ObjV,
    d: ObjV,
    key: Seq<char>,
    rel: ObjV,
    v: JsonV,
)
    requires
        inherit(child, parent) == Some(d),
        !is_step_key(key),
        !has_key(child, key),
        lookup(child, "relative"@) == Some(JsonV::Obj(rel)),
        keys_unique(rel),
        lookup(rel, key) == Some(v),
        !step_names(child, "extend"@, key),
        !step_names(child, "delete"@, key),
    ensures
        match (lookup(parent, key), v) {
            (None, _) => lookup(d, key) == Some(v),
            (Some(JsonV::Num(n)), JsonV::Num(m)) => lookup(d, key) == Some(
                JsonV::Num(Number::Sum(Box::new(n), Box::new(m))),
            ),
            (Some(JsonV::Num(_)), _) => false,
            (Some(JsonV::Obj(o)), JsonV::Obj(x)) => relative_inner_all(o, x) is Some && lookup(
                d,
                key,
            ) == Some(JsonV::Obj(relative_inner_all(o, x)->0)),
            (Some(JsonV::Obj(_)), _) => false,
            (Some(w), _) => lookup(d, key) == Some(w),
        },
{
    lemma_inherit_steps(child, parent);
    lemma_not_own_entry(child, parent, d, key);
    lemma_extend_keeps(child, parent, key);
    lemma_delete_keeps(child, parent, key);
    let f = |o: ObjV, k: Seq<char>, w: JsonV| relative_one(o, k, w);
    assert forall|o: ObjV, k: Seq<char>, w: JsonV| k != key && (#[trigger] f(o, k, w)) is Some implies lookup(
        f(o, k, w)->0,
        key,
    ) == lookup(o, key) by {
        lemma_lookup_bind_other(o, k, key);
    }
    let b2 = after_delete(child, parent)->0;
    assert(after_relative(child, parent) == relative_all(b2, rel));
    lemma_fold_single(b2, rel, f, key, v);
    let o = choose|o: ObjV|
        lookup(o, key) == lookup(b2, key) && (#[trigger] f(o, key, v)) is Some && lookup(
            fold_entries(b2, rel, f)->0,
            key,
        ) == lookup(f(o, key, v)->0, key);
    assert(f(o, key, v) is Some);
    match lookup(o, key) {
        None => lemma_lookup_bind(o, key, v, key),
        Some(JsonV::Num(n)) => {
            if let JsonV::Num(m) = v {
                lemma_lookup_bind(o, key, JsonV::Num(Number::Sum(Box::new(n), Box::new(m))), key);
            }
        },
        Some(JsonV::Obj(p)) => {
            if let JsonV::Obj(x) = v {
                if let Some(p2) = relative_inner_all(p, x) {
                    lemma_lookup_bind(o, key, JsonV::Obj(p2), key);
                }
            }
        },
        _ => {},
    }
}

} // verus!
