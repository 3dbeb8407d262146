use vstd::prelude::*;

use crate::inherit::{inherit, inherit_entries};
use crate::json::{copy_entries, has_key, lookup, obj_find, obj_get, Json, JsonV, ObjV};
use crate::tables::{item_table_view, ItemTable};

verus! {

/// Item definitions by id.
pub type Items = Map<Seq<char>, ObjV>;

/// Item `k` names a definition to copy from that itself still copies from
/// another one: in this pass it waits.
pub open spec fn waits(m: Items, k: Seq<char>) -> bool {
    match lookup(m[k], "copy-from"@) {
        Some(JsonV::Str(p)) => m.dom().contains(p) && has_key(m[p], "copy-from"@),
        _ => false,
    }
}

/// The definition of item `k` after one pass over `m`: an item without
/// `copy-from`, or one that waits, stays as it is; one whose source is
/// settled inherits from it. `None` where the item names no definition of the
/// table, names it by something other than a string, or inherits something
/// that has no meaning.
pub open spec fn step_item(m: Items, k: Seq<char>) -> Option<ObjV> {
    let d = m[k];
    match lookup(d, "copy-from"@) {
        None => Some(d),
        Some(JsonV::Str(p)) => if !m.dom().contains(p) {
            None
        } else if has_key(m[p], "copy-from"@) {
            Some(d)
        } else {
            inherit(d, m[p])
        },
        Some(_) => None,
    }
}

/// Every item of `m` can take its pass.
pub open spec fn pass_ok(m: Items) -> bool {
    forall|k: Seq<char>| m.dom().contains(k) ==> (#[trigger] step_item(m, k)) is Some
}

/// The table after one pass over `m`: every item takes its step, each from
/// the definitions as they were before the pass.
pub open spec fn pass_of(m: Items) -> Items {
    Map::new(|k: Seq<char>| m.dom().contains(k), |k: Seq<char>| step_item(m, k)->0)
}

/// Some item of `m` waits in this pass.
pub open spec fn any_waits(m: Items) -> bool {
    exists|k: Seq<char>| m.dom().contains(k) && #[trigger] waits(m, k)
}

/// Passes over the table until one pass has no waiting item, at most `fuel`
/// of them; `None` when a pass fails or the passes run out.
pub open spec fn run(m: Items, fuel: nat) -> Option<Items>
    decreases fuel,
{
    if fuel == 0 {
        None
    } else if !pass_ok(m) {
        None
    } else if any_waits(m) {
        run(pass_of(m), (fuel - 1) as nat)
    } else {
        Some(pass_of(m))
    }
}

/// A copy of a table.
pub fn copy_table(t: &ItemTable) -> (r: ItemTable)
    ensures
        item_table_view(r) == item_table_view(*t),
{
    let keys = t.keys();
    let mut out = ItemTable::new();
    let mut i: usize = 0;
    while i < keys.len()
        invariant
            i <= keys.len(),
            forall|j: int| 0 <= j < keys.len() ==> item_table_view(*t).dom().contains(#[trigger] keys[j]@),
            forall|k: Seq<char>| #[trigger]
                item_table_view(*t).dom().contains(k) ==> exists|j: int| 0 <= j < keys.len() && keys[j]@ == k,
            forall|k: Seq<char>| #[trigger]
                item_table_view(out).dom().contains(k) ==> exists|j: int| 0 <= j < i && keys[j]@ == k,
            forall|j: int|
                0 <= j < i ==> item_table_view(out).dom().contains(#[trigger] keys[j]@)
                    && item_table_view(out)[keys[j]@] == item_table_view(*t)[keys[j]@],
        decreases keys.len() - i,
    {
        let k = &keys[i];
        match t.get(k.as_str()) {
            Some(d) => {
                let c = copy_entries(d);
                out.insert(k.clone(), c);
            },
            None => {
                assert(false);
            },
        }
        i = i + 1;
    }
    proof {
        assert(item_table_view(out) =~= item_table_view(*t)) by {
            assert forall|k: Seq<char>| #[trigger] item_table_view(out).dom().contains(k) <==> item_table_view(*t).dom().contains(k) by {
                if item_table_view(*t).dom().contains(k) {
                    let j = choose|j: int| 0 <= j < keys.len() && keys[j]@ == k;
                }
            }
            assert forall|k: Seq<char>| #[trigger] item_table_view(out).dom().contains(k) implies item_table_view(out)[k] == item_table_view(*t)[k] by {
                let j = choose|j: int| 0 <= j < i && keys[j]@ == k;
            }
        }
    }
    out
}

/// One pass over the table: the table after it and whether an item waited;
/// `None` where the pass fails.
pub fn one_pass(m: &ItemTable) -> (r: Option<(ItemTable, bool)>)
    ensures
        match r {
            Some((t, w)) => pass_ok(item_table_view(*m)) && item_table_view(t) == pass_of(
                item_table_view(*m),
            ) && w == any_waits(item_table_view(*m)),
            None => !pass_ok(item_table_view(*m)),
        },
{
    let ghost mv = item_table_view(*m);
    let keys = m.keys();
    let mut next = ItemTable::new();
    let mut waited = false;
    let mut i: usize = 0;
    while i < keys.len()
        invariant
            i <= keys.len(),
            mv == item_table_view(*m),
            forall|j: int| 0 <= j < keys.len() ==> mv.dom().contains(#[trigger] keys[j]@),
            forall|k: Seq<char>| #[trigger]
                mv.dom().contains(k) ==> exists|j: int| 0 <= j < keys.len() && keys[j]@ == k,
            forall|k: Seq<char>| #[trigger]
                item_table_view(next).dom().contains(k) ==> exists|j: int| 0 <= j < i && keys[j]@ == k,
            forall|j: int|
                0 <= j < i ==> item_table_view(next).dom().contains(#[trigger] keys[j]@)
                    && step_item(mv, keys[j]@) == Some(item_table_view(next)[keys[j]@]),
            waited == exists|j: int| 0 <= j < i && #[trigger] waits(mv, keys[j]@),
        decreases keys.len() - i,
    {
        let k = &keys[i];
        let d = match m.get(k.as_str()) {
            Some(d) => d,
            None => {
                assert(false);
                return None;
            },
        };
        let ghost before = item_table_view(next);
        match obj_get(d, "copy-from") {
            None => {
                next.insert(k.clone(), copy_entries(d));
            },
            Some(Json::Str(p)) => match m.get(p.as_str()) {
                None => {
                    assert(step_item(mv, k@) is None);
                    return None;
                },
                Some(pd) => {
                    if obj_find(pd, "copy-from").is_some() {
                        waited = true;
                        assert(waits(mv, keys[i as int]@));
                        next.insert(k.clone(), copy_entries(d));
                    } else {
                        match inherit_entries(d, pd) {
                            Some(nd) => {
                                next.insert(k.clone(), nd);
                            },
                            None => {
                                assert(step_item(mv, k@) is None);
                                return None;
                            },
                        }
                    }
                },
            },
            Some(_) => {
                assert(step_item(mv, k@) is None);
                return None;
            },
        }
        proof {
            assert(!waits(mv, k@) ==> waited == exists|j: int| 0 <= j < i && #[trigger] waits(mv, keys[j]@));
            if waited {
                if !exists|j: int| 0 <= j < i && #[trigger] waits(mv, keys[j]@) {
                    assert(waits(mv, keys[i as int]@));
                }
            }
            assert forall|k2: Seq<char>| #[trigger] item_table_view(next).dom().contains(k2) implies exists|j: int| 0 <= j < i + 1 && keys[j]@ == k2 by {
                if k2 != k@ {
                    assert(before.dom().contains(k2));
                } else {
                    assert(keys[i as int]@ == k2);
                }
            }
        }
        i = i + 1;
    }
    proof {
        assert(item_table_view(next) =~= pass_of(mv)) by {
            assert forall|k: Seq<char>| #[trigger] item_table_view(next).dom().contains(k) <==> mv.dom().contains(k) by {
                if mv.dom().contains(k) {
                    let j = choose|j: int| 0 <= j < keys.len() && keys[j]@ == k;
                }
                if item_table_view(next).dom().contains(k) {
                    let j = choose|j: int| 0 <= j < i && keys[j]@ == k;
                }
            }
            assert forall|k: Seq<char>| #[trigger] item_table_view(next).dom().contains(k) implies item_table_view(next)[k] == pass_of(mv)[k] by {
                let j = choose|j: int| 0 <= j < i && keys[j]@ == k;
            }
        }
        assert forall|k: Seq<char>| mv.dom().contains(k) implies (#[trigger] step_item(mv, k)) is Some by {
            let j = choose|j: int| 0 <= j < keys.len() && keys[j]@ == k;
        }
        if any_waits(mv) {
            let k = choose|k: Seq<char>| mv.dom().contains(k) && #[trigger] waits(mv, k);
            let j = choose|j: int| 0 <= j < keys.len() && keys[j]@ == k;
            assert(waits(mv, keys[j]@));
        }
    }
    Some((next, waited))
}

/// Resolves every `copy-from` of the table the way the game loads its item
/// data: passes over all items, each from the definitions as they were before
/// the pass, until a pass in which no item waited. `None` when a pass fails,
/// or when `max_passes` passes were not enough.
pub fn try_resolve_copy_from(table: &ItemTable, max_passes: u64) -> (r: Option<ItemTable>)
    ensures
        match r {
            Some(t) => run(item_table_view(*table), max_passes as nat) == Some(item_table_view(t)),
            None => run(item_table_view(*table), max_passes as nat) is None,
        },
{
    let mut cur = copy_table(table);
    let mut passes: u64 = 0;
    while passes < max_passes
        invariant
            passes <= max_passes,
            run(item_table_view(cur), (max_passes - passes) as nat) == run(
                item_table_view(*table),
                max_passes as nat,
            ),
        decreases max_passes - passes,
    {
        let (next, waited) = match one_pass(&cur) {
            Some(x) => x,
            None => return None,
        };
        passes = passes + 1;
        if !waited {
            return Some(next);
        }
        cur = next;
    }
    None
}

/// A resolved table has the same item ids as the table it was made from.
pub proof fn law_resolution_keeps_ids(m: Items, fuel: nat, r: Items)
    requires
        run(m, fuel) == Some(r),
    ensures
        r.dom() == m.dom(),
    decreases fuel,
{
    if any_waits(m) {
        law_resolution_keeps_ids(pass_of(m), (fuel - 1) as nat, r);
    }
    assert(pass_of(m).dom() =~= m.dom());
}

/// An item whose definition has no `copy-from` keeps that definition.
pub proof fn law_settled_items_unchanged(m: Items, fuel: nat, r: Items, k: Seq<char>)
    requires
        run(m, fuel) == Some(r),
        m.dom().contains(k),
        !has_key(m[k], "copy-from"@),
    ensures
        r[k] == m[k],
    decreases fuel,
{
    assert(step_item(m, k) == Some(m[k]));
    assert(pass_of(m)[k] == m[k]);
    if any_waits(m) {
        law_settled_items_unchanged(pass_of(m), (fuel - 1) as nat, r, k);
    }
}

/// An item that copies from `p` ends up with what it inherits from the
/// resolved definition of `p`, unless what it inherits names a `copy-from`
/// again.
pub proof fn law_item_inherits_resolved_source(
    m: Items,
    fuel: nat,
    r: Items,
    k: Seq<char>,
    p: Seq<char>,
    d: ObjV,
)
    requires
        run(m, fuel) == Some(r),
        m.dom().contains(k),
        lookup(m[k], "copy-from"@) == Some(JsonV::Str(p)),
        inherit(m[k], r[p]) == Some(d),
        !has_key(d, "copy-from"@),
    ensures
        m.dom().contains(p),
        r[k] == d,
    decreases fuel,
{
    assert(step_item(m, k) is Some);
    let m2 = pass_of(m);
    assert(m2.dom() =~= m.dom());
    if waits(m, k) {
        assert(m2[k] == m[k]);
        assert(any_waits(m));
        law_item_inherits_resolved_source(m2, (fuel - 1) as nat, r, k, p, d);
    } else {
        assert(!has_key(m[p], "copy-from"@));
        assert(step_item(m, p) == Some(m[p]));
        assert(m2[p] == m[p]);
        if any_waits(m) {
            law_settled_items_unchanged(m2, (fuel - 1) as nat, r, p);
        }
        assert(m2[k] == d);
        if any_waits(m) {
            law_settled_items_unchanged(m2, (fuel - 1) as nat, r, k);
        }
    }
}


/// A table in which no item copies from another one is resolved as it is.
pub proof fn law_plain_table_unchanged(m: Items, fuel: nat)
    requires
        fuel > 0,
        forall|k: Seq<char>| m.dom().contains(k) ==> !has_key(#[trigger] m[k], "copy-from"@),
    ensures
        run(m, fuel) == Some(m),
{
    assert forall|k: Seq<char>| m.dom().contains(k) implies #[trigger] step_item(m, k) == Some(m[k]) by {
        assert(!has_key(m[k], "copy-from"@));
    }
    assert(!any_waits(m));
    assert(pass_of(m) =~= m);
}


/// Item `k` reaches, in at most `n` `copy-from` links to definitions of the
/// table, a definition that copies from none of them.
pub open spec fn settles_within(m: Items, k: Seq<char>, n: nat) -> bool
    decreases n,
{
    match lookup(m[k], "copy-from"@) {
        Some(JsonV::Str(p)) => if m.dom().contains(p) {
            n > 0 && settles_within(m, p, (n - 1) as nat)
        } else {
            true
        },
        _ => true,
    }
}

/// What an item of `m` that copies from another one inherits from a
/// definition that copies from nothing copies from nothing either.
pub open spec fn inherits_settled(m: Items) -> bool {
    forall|k: Seq<char>, parent: ObjV|
        m.dom().contains(k) && has_key(m[k], "copy-from"@) && !has_key(parent, "copy-from"@)
            && (#[trigger] inherit(m[k], parent)) is Some ==> !has_key(
            inherit(m[k], parent)->0,
            "copy-from"@,
        )
}

/// One pass shortens every chain of `copy-from` links by one.
pub proof fn lemma_pass_shortens(m: Items, k: Seq<char>, n: nat)
    requires
        pass_ok(m),
        inherits_settled(m),
        m.dom().contains(k),
        settles_within(m, k, n),
        n >= 1,
    ensures
        settles_within(pass_of(m), k, (n - 1) as nat),
    decreases n,
{
    let d = m[k];
    assert(step_item(m, k) is Some);
    match lookup(d, "copy-from"@) {
        Some(JsonV::Str(p)) => {
            assert(m.dom().contains(p));
            if has_key(m[p], "copy-from"@) {
                assert(pass_of(m)[k] == d);
                assert(step_item(m, p) is Some);
                if let Some(JsonV::Str(q)) = lookup(m[p], "copy-from"@) {
                    assert(m.dom().contains(q));
                }
                lemma_pass_shortens(m, p, (n - 1) as nat);
            } else {
                assert(pass_of(m)[k] == inherit(d, m[p])->0);
            }
        },
        _ => {
            assert(pass_of(m)[k] == d);
        },
    }
}

/// After a pass, what an item that still copies from another one inherits
/// from a definition that copies from nothing copies from nothing either.
pub proof fn lemma_pass_inherits_settled(m: Items)
    requires
        pass_ok(m),
        inherits_settled(m),
    ensures
        inherits_settled(pass_of(m)),
{
    let m2 = pass_of(m);
    assert forall|k: Seq<char>, parent: ObjV|
        m2.dom().contains(k) && has_key(m2[k], "copy-from"@) && !has_key(parent, "copy-from"@)
            && (#[trigger] inherit(m2[k], parent)) is Some implies !has_key(
        inherit(m2[k], parent)->0,
        "copy-from"@,
    ) by {
        assert(step_item(m, k) is Some);
        if let Some(JsonV::Str(p)) = lookup(m[k], "copy-from"@) {
            if !has_key(m[p], "copy-from"@) {
                assert(m2[k] == inherit(m[k], m[p])->0);
                assert(!has_key(m2[k], "copy-from"@));
            }
        }
        assert(m2[k] == m[k]);
    }
}

/// With no chain of `copy-from` links longer than `n`, the passes are over
/// after `n + 1` of them: the table is resolved, or a pass has failed, and
/// more passes change nothing. This holds where what an item inherits from a
/// settled definition never copies from anything again.
pub proof fn law_chains_bound_the_passes(m: Items, n: nat, fuel: nat)
    requires
        forall|k: Seq<char>| m.dom().contains(k) ==> #[trigger] settles_within(m, k, n),
        inherits_settled(m),
        fuel >= n + 1,
    ensures
        run(m, fuel) == run(m, n + 1),
    decreases n,
{
    if pass_ok(m) && any_waits(m) {
        let k = choose|k: Seq<char>| m.dom().contains(k) && #[trigger] waits(m, k);
        assert(settles_within(m, k, n));
        if let Some(JsonV::Str(p)) = lookup(m[k], "copy-from"@) {
            assert(m.dom().contains(p));
        }
        assert(n >= 1);
        let m2 = pass_of(m);
        assert forall|j: Seq<char>| m2.dom().contains(j) implies #[trigger] settles_within(
            m2,
            j,
            (n - 1) as nat,
        ) by {
            assert(settles_within(m, j, n));
            lemma_pass_shortens(m, j, n);
        }
        lemma_pass_inherits_settled(m);
        law_chains_bound_the_passes(m2, (n - 1) as nat, (fuel - 1) as nat);
    }
}

} // verus!
