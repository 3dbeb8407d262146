use vstd::prelude::*;

use crate::text::str_eq;

verus! {

/// A JSON number, kept the way the data files spell it.
///
/// `Float` holds the IEEE-754 bit pattern of a fractional number. `Sum`
/// is a number that a `relative` entry of an item definition asks to be
/// added to another one: its floating-point value is evaluated by the
/// program that owns the item data, never by this library.
pub enum Number {
    PosInt(u64),
    NegInt(i64),
    Float(u64),
    Sum(Box<Number>, Box<Number>),
}

/// A JSON value as the item and tile data files hold it. An object is the
/// list of its entries; the data this library builds never holds a key twice
/// in one object.
pub enum Json {
    Null,
    Bool(bool),
    Number(Number),
    Str(String),
    Array(Vec<Json>),
    Object(Vec<(String, Json)>),
}

/// The mathematical model of a JSON value.
pub enum JsonV {
    Null,
    Bool(bool),
    Num(Number),
    Str(Seq<char>),
    Arr(Seq<JsonV>),
    Obj(Seq<(Seq<char>, JsonV)>),
}

/// The model of a JSON object: its entries in order.
pub type ObjV = Seq<(Seq<char>, JsonV)>;

pub open spec fn view_array(s: Seq<Json>) -> Seq<JsonV>
    decreases s,
{
    if s.len() == 0 {
        Seq::empty()
    } else {
        view_array(s.drop_last()).push(s.last().view())
    }
}

pub open spec fn view_entries(s: Seq<(String, Json)>) -> ObjV
    decreases s,
{
    if s.len() == 0 {
        Seq::empty()
    } else {
        view_entries(s.drop_last()).push((s.last().0@, s.last().1.view()))
    }
}

impl View for Json {
    type V = JsonV;

    open spec fn view(&self) -> JsonV
        decreases self,
    {
        match self {
            Json::Null => JsonV::Null,
            Json::Bool(b) => JsonV::Bool(*b),
            Json::Number(n) => JsonV::Num(*n),
            Json::Str(s) => JsonV::Str(s@),
            Json::Array(v) => JsonV::Arr(view_array(v@)),
            Json::Object(e) => JsonV::Obj(view_entries(e@)),
        }
    }
}

pub proof fn lemma_view_array(s: Seq<Json>)
    ensures
        view_array(s).len() == s.len(),
        forall|i: int| 0 <= i < s.len() ==> #[trigger] view_array(s)[i] == s[i]@,
    decreases s.len(),
{
    reveal_with_fuel(view_array, 1);
    if s.len() > 0 {
        lemma_view_array(s.drop_last());
        assert(view_array(s) == view_array(s.drop_last()).push(s.last().view()));
    } else {
        assert(view_array(s) == Seq::<JsonV>::empty());
    }
}

pub proof fn lemma_view_entries(s: Seq<(String, Json)>)
    ensures
        view_entries(s).len() == s.len(),
        forall|i: int|
            0 <= i < s.len() ==> #[trigger] view_entries(s)[i] == (s[i].0@, s[i].1@),
    decreases s.len(),
{
    if s.len() > 0 {
        lemma_view_entries(s.drop_last());
        assert(view_entries(s) == view_entries(s.drop_last()).push((s.last().0@, s.last().1@)));
    } else {
        assert(view_entries(s) == Seq::<(Seq<char>, JsonV)>::empty());
    }
}

/// Index of the first entry with key `k`, or -1.
pub open spec fn key_index(o: ObjV, k: Seq<char>) -> int
    decreases o.len(),
{
    if o.len() == 0 {
        -1
    } else {
        let i = key_index(o.drop_last(), k);
        if i >= 0 {
            i
        } else if o.last().0 == k {
            o.len() - 1
        } else {
            -1
        }
    }
}

pub proof fn lemma_key_index(o: ObjV, k: Seq<char>)
    ensures
        -1 <= key_index(o, k) < o.len(),
        key_index(o, k) >= 0 ==> o[key_index(o, k)].0 == k,
        key_index(o, k) >= 0 ==> forall|j: int| 0 <= j < key_index(o, k) ==> o[j].0 != k,
        key_index(o, k) == -1 ==> forall|j: int| 0 <= j < o.len() ==> o[j].0 != k,
    decreases o.len(),
{
    if o.len() > 0 {
        lemma_key_index(o.drop_last(), k);
        assert forall|j: int| 0 <= j < o.len() - 1 implies o.drop_last()[j] == o[j] by {}
    }
}

/// What a lookup of `k` in object `o` gives.
pub open spec fn lookup(o: ObjV, k: Seq<char>) -> Option<JsonV> {
    let i = key_index(o, k);
    if i >= 0 {
        Some(o[i].1)
    } else {
        None
    }
}

pub open spec fn has_key(o: ObjV, k: Seq<char>) -> bool {
    key_index(o, k) >= 0
}

/// Object `o` with `k` bound to `v`: an existing entry is replaced in place,
/// a new key is appended.
pub open spec fn bind(o: ObjV, k: Seq<char>, v: JsonV) -> ObjV {
    let i = key_index(o, k);
    if i >= 0 {
        o.update(i, (k, v))
    } else {
        o.push((k, v))
    }
}

/// Object `o` without its entry for `k`.
pub open spec fn unbind(o: ObjV, k: Seq<char>) -> ObjV {
    let i = key_index(o, k);
    if i >= 0 {
        o.remove(i)
    } else {
        o
    }
}

/// No key occurs twice in object `o`.
pub open spec fn keys_unique(o: ObjV) -> bool {
    forall|i: int, j: int| 0 <= i < j < o.len() ==> #[trigger] o[i].0 != #[trigger] o[j].0
}

/// The first entry with key `k` is the one at `i`.
pub proof fn lemma_key_index_first(o: ObjV, k: Seq<char>, i: int)
    requires
        0 <= i < o.len(),
        o[i].0 == k,
        forall|j: int| 0 <= j < i ==> (#[trigger] o[j]).0 != k,
    ensures
        key_index(o, k) == i,
{
    lemma_key_index(o, k);
}

/// No entry has key `k`.
pub proof fn lemma_key_index_none(o: ObjV, k: Seq<char>)
    requires
        forall|j: int| 0 <= j < o.len() ==> (#[trigger] o[j]).0 != k,
    ensures
        key_index(o, k) == -1,
{
    lemma_key_index(o, k);
}

/// Binding `k` sets what a lookup of `k` gives and leaves every other key
/// as it was.
pub proof fn lemma_lookup_bind(o: ObjV, k: Seq<char>, v: JsonV, k2: Seq<char>)
    ensures
        lookup(bind(o, k, v), k2) == if k2 == k {
            Some(v)
        } else {
            lookup(o, k2)
        },
{
    lemma_key_index(o, k);
    lemma_key_index(o, k2);
    let o2 = bind(o, k, v);
    let i = key_index(o, k);
    assert forall|j: int| 0 <= j < o.len() implies (#[trigger] o2[j]).0 == o[j].0 by {}
    if k2 == k {
        if i >= 0 {
            lemma_key_index_first(o2, k, i);
        } else {
            lemma_key_index_first(o2, k, o.len() as int);
        }
    } else {
        let i2 = key_index(o, k2);
        if i2 >= 0 {
            lemma_key_index_first(o2, k2, i2);
        } else {
            lemma_key_index_none(o2, k2);
        }
    }
}

/// Binding `k` leaves the lookup of every other key as it was, whatever is
/// bound.
pub proof fn lemma_lookup_bind_other(o: ObjV, k: Seq<char>, k2: Seq<char>)
    requires
        k2 != k,
    ensures
        forall|v: JsonV| #[trigger] lookup(bind(o, k, v), k2) == lookup(o, k2),
{
    assert forall|v: JsonV| #[trigger] lookup(bind(o, k, v), k2) == lookup(o, k2) by {
        lemma_lookup_bind(o, k, v, k2);
    }
}

/// Removing the entry for `k` leaves the lookup of every other key as it was.
pub proof fn lemma_lookup_unbind(o: ObjV, k: Seq<char>, k2: Seq<char>)
    requires
        k2 != k,
    ensures
        lookup(unbind(o, k), k2) == lookup(o, k2),
{
    lemma_key_index(o, k);
    lemma_key_index(o, k2);
    let i = key_index(o, k);
    if i >= 0 {
        let o2 = o.remove(i);
        o.remove_ensures(i);
        let i2 = key_index(o, k2);
        if i2 >= 0 {
            if i2 < i {
                lemma_key_index_first(o2, k2, i2);
            } else {
                assert forall|j: int| 0 <= j < i2 - 1 implies (#[trigger] o2[j]).0 != k2 by {
                    if j >= i {
                        assert(o2[j] == o[j + 1]);
                    }
                }
                lemma_key_index_first(o2, k2, i2 - 1);
            }
        } else {
            assert forall|j: int| 0 <= j < o2.len() implies (#[trigger] o2[j]).0 != k2 by {
                if j >= i {
                    assert(o2[j] == o[j + 1]);
                }
            }
            lemma_key_index_none(o2, k2);
        }
    }
}

/// Removing the entry for `k` from an object without repeated keys leaves
/// one without repeated keys and without `k`.
pub proof fn lemma_unbind_unique(o: ObjV, k: Seq<char>)
    requires
        keys_unique(o),
    ensures
        keys_unique(unbind(o, k)),
        !has_key(unbind(o, k), k),
{
    lemma_key_index(o, k);
    let i = key_index(o, k);
    if i >= 0 {
        let o2 = o.remove(i);
        o.remove_ensures(i);
        assert forall|a: int, b: int| 0 <= a < b < o2.len() implies #[trigger] o2[a].0
            != #[trigger] o2[b].0 by {
            let a1 = if a < i { a } else { a + 1 };
            let b1 = if b < i { b } else { b + 1 };
            assert(o2[a] == o[a1]);
            assert(o2[b] == o[b1]);
            assert(o[a1].0 != o[b1].0);
        }
        assert forall|j: int| 0 <= j < o2.len() implies (#[trigger] o2[j]).0 != k by {
            let j1 = if j < i { j } else { j + 1 };
            assert(o2[j] == o[j1]);
            if j1 > i {
                assert(o[i].0 != o[j1].0);
            }
        }
        lemma_key_index_none(o2, k);
    } else {
        lemma_key_index_none(o, k);
    }
}

/// Equality of numbers as JSON compares them: same kind and value, where
/// positive and negative floating-point zero are equal.
pub open spec fn number_same(a: Number, b: Number) -> bool
    decreases a,
{
    match (a, b) {
        (Number::PosInt(x), Number::PosInt(y)) => x == y,
        (Number::NegInt(x), Number::NegInt(y)) => x == y,
        (Number::Float(x), Number::Float(y)) => x == y || (x & 0x7fff_ffff_ffff_ffffu64 == 0
            && y & 0x7fff_ffff_ffff_ffffu64 == 0),
        (Number::Sum(x1, x2), Number::Sum(y1, y2)) => number_same(*x1, *y1) && number_same(
            *x2,
            *y2,
        ),
        _ => false,
    }
}

/// Equality of JSON values: arrays element by element, objects as maps from
/// keys to values.
pub open spec fn json_same(a: JsonV, b: JsonV) -> bool
    decreases a,
{
    match (a, b) {
        (JsonV::Null, JsonV::Null) => true,
        (JsonV::Bool(x), JsonV::Bool(y)) => x == y,
        (JsonV::Num(x), JsonV::Num(y)) => number_same(x, y),
        (JsonV::Str(x), JsonV::Str(y)) => x == y,
        (JsonV::Arr(x), JsonV::Arr(y)) => x.len() == y.len() && seq_same(x, y),
        (JsonV::Obj(x), JsonV::Obj(y)) => x.len() == y.len() && entries_found(x, y),
        _ => false,
    }
}

/// Elementwise equality of two sequences of the same length.
pub open spec fn seq_same(x: Seq<JsonV>, y: Seq<JsonV>) -> bool
    decreases x,
{
    if x.len() == 0 || y.len() != x.len() {
        x.len() == y.len()
    } else {
        seq_same(x.drop_last(), y.drop_last()) && json_same(x.last(), y.last())
    }
}

/// Each entry of `x` has its key in `y`, bound there to an equal value.
pub open spec fn entries_found(x: ObjV, y: ObjV) -> bool
    decreases x,
{
    if x.len() == 0 {
        true
    } else {
        entries_found(x.drop_last(), y) && match lookup(y, x.last().0) {
            Some(w) => json_same(x.last().1, w),
            None => false,
        }
    }
}

/// Whether some element of `s` equals `v`.
pub open spec fn seq_contains_same(s: Seq<JsonV>, v: JsonV) -> bool
    decreases s.len(),
{
    if s.len() == 0 {
        false
    } else {
        seq_contains_same(s.drop_last(), v) || json_same(s.last(), v)
    }
}

/// The elements of `a` that equal no element of `b`, in order.
pub open spec fn seq_without(a: Seq<JsonV>, b: Seq<JsonV>) -> Seq<JsonV>
    decreases a.len(),
{
    if a.len() == 0 {
        Seq::empty()
    } else if seq_contains_same(b, a.last()) {
        seq_without(a.drop_last(), b)
    } else {
        seq_without(a.drop_last(), b).push(a.last())
    }
}

impl Number {
    /// A copy of this number.
    pub fn copy(&self) -> (r: Number)
        ensures
            r == *self,
        decreases self,
    {
        match self {
            Number::PosInt(x) => Number::PosInt(*x),
            Number::NegInt(x) => Number::NegInt(*x),
            Number::Float(x) => Number::Float(*x),
            Number::Sum(a, b) => Number::Sum(Box::new(a.copy()), Box::new(b.copy())),
        }
    }

    /// Whether two numbers are equal as JSON compares them.
    pub fn same(&self, other: &Number) -> (r: bool)
        ensures
            r == number_same(*self, *other),
        decreases self,
    {
        match (self, other) {
            (Number::PosInt(x), Number::PosInt(y)) => *x == *y,
            (Number::NegInt(x), Number::NegInt(y)) => *x == *y,
            (Number::Float(x), Number::Float(y)) => *x == *y || (*x & 0x7fff_ffff_ffff_ffffu64 == 0
                && *y & 0x7fff_ffff_ffff_ffffu64 == 0),
            (Number::Sum(x1, x2), Number::Sum(y1, y2)) => x1.same(y1) && x2.same(y2),
            _ => false,
        }
    }
}

impl Json {
    /// A copy of this value.
    pub fn copy(&self) -> (r: Json)
        ensures
            r@ == self@,
        decreases self,
    {
        match self {
            Json::Null => Json::Null,
            Json::Bool(b) => Json::Bool(*b),
            Json::Number(n) => Json::Number(n.copy()),
            Json::Str(s) => Json::Str(s.clone()),
            Json::Array(v) => Json::Array(copy_array(v)),
            Json::Object(e) => {
                let out = copy_entries(e);
                Json::Object(out)
            },
        }
    }
}

/// A copy of the elements of an array.
pub fn copy_array(v: &Vec<Json>) -> (r: Vec<Json>)
    ensures
        view_array(r@) == view_array(v@),
    decreases v,
{
    let mut out: Vec<Json> = Vec::new();
    let mut i: usize = 0;
    while i < v.len()
        invariant
            i <= v.len(),
            view_array(out@) == view_array(v@.take(i as int)),
        decreases v.len() - i,
    {
        proof {
            assert(decreases_to!(v => v[i as int]));
        }
        let c = v[i].copy();
        let ghost before = out@;
        out.push(c);
        proof {
            assert(out@.drop_last() =~= before);
            assert(v@.take(i + 1).drop_last() =~= v@.take(i as int));
        }
        i = i + 1;
    }
    proof {
        assert(v@.take(v.len() as int) =~= v@);
    }
    out
}

/// A copy of the entries of an object.
pub fn copy_entries(e: &Vec<(String, Json)>) -> (r: Vec<(String, Json)>)
    ensures
        view_entries(r@) == view_entries(e@),
    decreases e,
{
    let mut out: Vec<(String, Json)> = Vec::new();
    let mut i: usize = 0;
    while i < e.len()
        invariant
            i <= e.len(),
            view_entries(out@) == view_entries(e@.take(i as int)),
        decreases e.len() - i,
    {
        proof {
            assert(decreases_to!(e => e[i as int]));
        }
        let k = e[i].0.clone();
        let c = e[i].1.copy();
        let ghost before = out@;
        out.push((k, c));
        proof {
            assert(out@.drop_last() =~= before);
            assert(e@.take(i + 1).drop_last() =~= e@.take(i as int));
        }
        i = i + 1;
    }
    proof {
        assert(e@.take(e.len() as int) =~= e@);
    }
    out
}

pub proof fn lemma_view_entries_take(s: Seq<(String, Json)>, i: int)
    requires
        0 <= i < s.len(),
    ensures
        view_entries(s.take(i + 1)) == view_entries(s.take(i)).push((s[i].0@, s[i].1@)),
{
    assert(s.take(i + 1).drop_last() =~= s.take(i));
}

pub proof fn lemma_view_array_take(s: Seq<Json>, i: int)
    requires
        0 <= i < s.len(),
    ensures
        view_array(s.take(i + 1)) == view_array(s.take(i)).push(s[i]@),
{
    assert(s.take(i + 1).drop_last() =~= s.take(i));
}

pub proof fn lemma_view_array_prefix(s: Seq<Json>, n: int)
    requires
        0 <= n <= s.len(),
    ensures
        view_array(s.take(n)) == view_array(s).take(n),
{
    lemma_view_array(s);
    lemma_view_array(s.take(n));
    assert(view_array(s.take(n)) =~= view_array(s).take(n));
}

pub proof fn lemma_view_entries_prefix(s: Seq<(String, Json)>, n: int)
    requires
        0 <= n <= s.len(),
    ensures
        view_entries(s.take(n)) == view_entries(s).take(n),
{
    lemma_view_entries(s);
    lemma_view_entries(s.take(n));
    assert(view_entries(s.take(n)) =~= view_entries(s).take(n));
}

/// Position of the first entry with key `k`.
pub fn obj_find(e: &Vec<(String, Json)>, k: &str) -> (r: Option<usize>)
    ensures
        match r {
            Some(i) => i < e.len() && key_index(view_entries(e@), k@) == i as int,
            None => key_index(view_entries(e@), k@) == -1,
        },
{
    proof {
        lemma_view_entries(e@);
        lemma_key_index(view_entries(e@), k@);
    }
    let mut i: usize = 0;
    while i < e.len()
        invariant
            i <= e.len(),
            view_entries(e@).len() == e.len(),
            forall|j: int| 0 <= j < i ==> #[trigger] view_entries(e@)[j].0 != k@,
            forall|j: int| 0 <= j < e.len() ==> #[trigger] view_entries(e@)[j] == (e@[j].0@, e@[j].1@),
            -1 <= key_index(view_entries(e@), k@) < e.len(),
            key_index(view_entries(e@), k@) >= 0 ==> view_entries(e@)[key_index(view_entries(e@), k@)].0 == k@,
            key_index(view_entries(e@), k@) >= 0 ==> forall|j: int| 0 <= j < key_index(view_entries(e@), k@) ==> view_entries(e@)[j].0 != k@,
            key_index(view_entries(e@), k@) == -1 ==> forall|j: int| 0 <= j < e.len() ==> view_entries(e@)[j].0 != k@,
        decreases e.len() - i,
    {
        if str_eq(e[i].0.as_str(), k) {
            assert(view_entries(e@)[i as int].0 == k@);
            return Some(i);
        }
        i = i + 1;
    }
    None
}

/// The value bound to `k` in object `e`.
pub fn obj_get<'a>(e: &'a Vec<(String, Json)>, k: &str) -> (r: Option<&'a Json>)
    ensures
        match r {
            Some(v) => lookup(view_entries(e@), k@) == Some(v@),
            None => lookup(view_entries(e@), k@) is None,
        },
{
    proof {
        lemma_view_entries(e@);
    }
    match obj_find(e, k) {
        Some(i) => Some(&e[i].1),
        None => None,
    }
}

/// Binds `k` to `v` in object `e`.
pub fn obj_insert(e: &mut Vec<(String, Json)>, k: String, v: Json)
    ensures
        view_entries(final(e)@) == bind(view_entries(old(e)@), k@, v@),
{
    proof {
        lemma_view_entries(e@);
    }
    let ghost kv = k@;
    let ghost vv = v@;
    match obj_find(e, k.as_str()) {
        Some(i) => {
            let ghost before = e@;
            e.set(i, (k, v));
            proof {
                lemma_view_entries(e@);
                assert(view_entries(e@) =~= view_entries(before).update(i as int, (kv, vv)));
            }
        },
        None => {
            let ghost before = e@;
            e.push((k, v));
            proof {
                assert(e@.drop_last() =~= before);
            }
        },
    }
}

/// Removes the entry for `k` from object `e` and gives back its value.
pub fn obj_remove(e: &mut Vec<(String, Json)>, k: &str) -> (r: Option<Json>)
    ensures
        view_entries(final(e)@) == unbind(view_entries(old(e)@), k@),
        match r {
            Some(v) => lookup(view_entries(old(e)@), k@) == Some(v@),
            None => lookup(view_entries(old(e)@), k@) is None,
        },
{
    proof {
        lemma_view_entries(e@);
    }
    match obj_find(e, k) {
        Some(i) => {
            let ghost before = e@;
            let (_, v) = e.remove(i);
            proof {
                lemma_view_entries(e@);
                assert(view_entries(e@) =~= view_entries(before).remove(i as int));
            }
            Some(v)
        },
        None => None,
    }
}

/// Whether two values are equal as JSON compares them.
pub fn json_equal(a: &Json, b: &Json) -> (r: bool)
    ensures
        r == json_same(a@, b@),
    decreases a,
{
    match (a, b) {
        (Json::Null, Json::Null) => true,
        (Json::Bool(x), Json::Bool(y)) => *x == *y,
        (Json::Number(x), Json::Number(y)) => x.same(y),
        (Json::Str(x), Json::Str(y)) => str_eq(x.as_str(), y.as_str()),
        (Json::Array(x), Json::Array(y)) => {
            proof {
                lemma_view_array(x@);
                lemma_view_array(y@);
            }
            x.len() == y.len() && arrays_equal(x, y)
        },
        (Json::Object(x), Json::Object(y)) => {
            proof {
                lemma_view_entries(x@);
                lemma_view_entries(y@);
            }
            x.len() == y.len() && entries_equal(x, y)
        },
        (Json::Null, _) => false,
        (Json::Bool(_), _) => false,
        (Json::Number(_), _) => false,
        (Json::Str(_), _) => false,
        (Json::Array(_), _) => false,
        (Json::Object(_), _) => false,
    }
}

/// Elementwise equality of two arrays of the same length.
pub fn arrays_equal(x: &Vec<Json>, y: &Vec<Json>) -> (r: bool)
    requires
        x.len() == y.len(),
    ensures
        r == seq_same(view_array(x@), view_array(y@)),
    decreases x,
{
    proof {
        lemma_view_array(x@);
        lemma_view_array(y@);
    }
    let mut i: usize = 0;
    while i < x.len()
        invariant
            x.len() == y.len(),
            i <= x.len(),
            view_array(x@).len() == x.len(),
            view_array(y@).len() == y.len(),
            seq_same(view_array(x@.take(i as int)), view_array(y@.take(i as int))),
        decreases x.len() - i,
    {
        proof {
            assert(decreases_to!(x => x[i as int]));
            lemma_view_array_take(x@, i as int);
            lemma_view_array_take(y@, i as int);
            lemma_view_array(x@.take(i as int));
            lemma_view_array(y@.take(i as int));
            lemma_view_array(x@.take(i + 1));
            lemma_view_array(y@.take(i + 1));
            assert(view_array(x@.take(i + 1)).drop_last() =~= view_array(x@.take(i as int)));
            assert(view_array(y@.take(i + 1)).drop_last() =~= view_array(y@.take(i as int)));
        }
        if !json_equal(&x[i], &y[i]) {
            proof {
                assert(!seq_same(view_array(x@.take(i + 1)), view_array(y@.take(i + 1))));
                lemma_view_array_prefix(x@, i + 1);
                lemma_view_array_prefix(y@, i + 1);
                lemma_seq_same_prefix(view_array(x@), view_array(y@), i + 1);
                assert(x@.take(x.len() as int) =~= x@);
                assert(y@.take(y.len() as int) =~= y@);
            }
            return false;
        }
        i = i + 1;
    }
    proof {
        assert(x@.take(x.len() as int) =~= x@);
        assert(y@.take(y.len() as int) =~= y@);
    }
    true
}

/// A mismatch in a prefix is a mismatch of the whole.
pub proof fn lemma_seq_same_prefix(x: Seq<JsonV>, y: Seq<JsonV>, n: int)
    requires
        0 <= n <= x.len(),
        x.len() == y.len(),
        !seq_same(x.take(n), y.take(n)),
    ensures
        !seq_same(x, y),
    decreases x.len() - n,
{
    if n < x.len() {
        assert(x.take(n + 1).drop_last() =~= x.take(n));
        assert(y.take(n + 1).drop_last() =~= y.take(n));
        lemma_seq_same_prefix(x, y, n + 1);
    } else {
        assert(x.take(n) =~= x);
        assert(y.take(n) =~= y);
    }
}

/// A missing entry in a prefix is a missing entry of the whole.
pub proof fn lemma_entries_found_prefix(x: ObjV, y: ObjV, n: int)
    requires
        0 <= n <= x.len(),
        !entries_found(x.take(n), y),
    ensures
        !entries_found(x, y),
    decreases x.len() - n,
{
    if n < x.len() {
        assert(x.take(n + 1).drop_last() =~= x.take(n));
        lemma_entries_found_prefix(x, y, n + 1);
    } else {
        assert(x.take(n) =~= x);
    }
}

/// Each entry of `x` is bound in `y` to an equal value.
pub fn entries_equal(x: &Vec<(String, Json)>, y: &Vec<(String, Json)>) -> (r: bool)
    ensures
        r == entries_found(view_entries(x@), view_entries(y@)),
    decreases x,
{
    proof {
        lemma_view_entries(x@);
    }
    let mut i: usize = 0;
    while i < x.len()
        invariant
            i <= x.len(),
            view_entries(x@).len() == x.len(),
            entries_found(view_entries(x@.take(i as int)), view_entries(y@)),
        decreases x.len() - i,
    {
        proof {
            assert(decreases_to!(x => x[i as int]));
            lemma_view_entries_take(x@, i as int);
            assert(view_entries(x@.take(i + 1)).drop_last() =~= view_entries(x@.take(i as int)));
        }
        let found = match obj_get(y, x[i].0.as_str()) {
            Some(w) => json_equal(&x[i].1, w),
            None => false,
        };
        if !found {
            proof {
                assert(!entries_found(view_entries(x@.take(i + 1)), view_entries(y@)));
                lemma_view_entries_prefix(x@, i + 1);
                lemma_entries_found_prefix(view_entries(x@), view_entries(y@), i + 1);
            }
            return false;
        }
        i = i + 1;
    }
    proof {
        assert(x@.take(x.len() as int) =~= x@);
    }
    true
}

/// Whether some element of `b` equals `v`.
pub fn array_contains(b: &Vec<Json>, v: &Json) -> (r: bool)
    ensures
        r == seq_contains_same(view_array(b@), v@),
{
    let mut i: usize = 0;
    let mut found = false;
    while i < b.len()
        invariant
            i <= b.len(),
            found == seq_contains_same(view_array(b@.take(i as int)), v@),
        decreases b.len() - i,
    {
        proof {
            lemma_view_array_take(b@, i as int);
            assert(view_array(b@.take(i + 1)).drop_last() =~= view_array(b@.take(i as int)));
        }
        let hit = json_equal(&b[i], v);
        found = found || hit;
        i = i + 1;
    }
    proof {
        assert(b@.take(b.len() as int) =~= b@);
    }
    found
}

/// The elements of `a` that equal no element of `b`, in order.
pub fn array_without(a: &Vec<Json>, b: &Vec<Json>) -> (r: Vec<Json>)
    ensures
        view_array(r@) == seq_without(view_array(a@), view_array(b@)),
{
    let mut out: Vec<Json> = Vec::new();
    let mut i: usize = 0;
    while i < a.len()
        invariant
            i <= a.len(),
            view_array(out@) == seq_without(view_array(a@.take(i as int)), view_array(b@)),
        decreases a.len() - i,
    {
        proof {
            lemma_view_array_take(a@, i as int);
            assert(view_array(a@.take(i + 1)).drop_last() =~= view_array(a@.take(i as int)));
        }
        if !array_contains(b, &a[i]) {
            let c = a[i].copy();
            let ghost before = out@;
            out.push(c);
            proof {
                assert(out@.drop_last() =~= before);
            }
        }
        i = i + 1;
    }
    proof {
        assert(a@.take(a.len() as int) =~= a@);
    }
    out
}

} // verus!
