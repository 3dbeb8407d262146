use vstd::prelude::*;

use bevy::utils::{HashMap, HashSet};

use crate::components::{SpriteInfo, SpriteInfoV, TileIndex, TileIndexV, TilesetGrid};
use crate::json::{view_array, view_entries, Json, JsonV, ObjV};

verus! {

// The game keeps its lookup tables in bevy's `HashMap` and `HashSet`
// (hashbrown's tables with bevy's fixed AHash hasher). Verus cannot name the
// allocator bound of hashbrown's table, so each table the library uses is
// held in a private field of a struct of its own, and what it holds is
// named by a spec function. The methods below make one call each.
/// The table with no entries.
pub open spec fn no_items() -> Map<Seq<char>, ObjV> {
    Map::empty()
}

/// No groups at all.
pub open spec fn no_groups() -> Map<Seq<char>, Seq<JsonV>> {
    Map::empty()
}

/// Item definitions by item id.
#[verifier::external_body]
pub struct ItemTable {
    inner: HashMap<String, Vec<(String, Json)>>,
}

/// The definitions an `ItemTable` holds, by id.
pub uninterp spec fn item_table_view(t: ItemTable) -> Map<Seq<char>, ObjV>;

impl ItemTable {
    /// An empty table (`HashMap::new`).
    #[verifier::external_body]
    pub fn new() -> (table: ItemTable)
        ensures
            item_table_view(table) == no_items(),
    {
        ItemTable { inner: HashMap::new() }
    }

    /// Binds `k` to `v` (`HashMap::insert`): a definition already held for
    /// `k` is replaced.
    #[verifier::external_body]
    pub fn insert(&mut self, k: String, v: Vec<(String, Json)>)
        ensures
            item_table_view(*final(self)) == item_table_view(*old(self)).insert(
                k@,
                view_entries(v@),
            ),
    {
        self.inner.insert(k, v);
    }

    /// The definition held for `k` (`HashMap::get`).
    #[verifier::external_body]
    pub fn get(&self, k: &str) -> (r: Option<&Vec<(String, Json)>>)
        ensures
            match r {
                Some(v) => item_table_view(*self).dom().contains(k@) && item_table_view(
                    *self,
                )[k@] == view_entries(v@),
                None => !item_table_view(*self).dom().contains(k@),
            },
    {
        self.inner.get(k)
    }

    /// The ids held (`HashMap::keys`), each once, in the table's own order.
    #[verifier::external_body]
    pub fn keys(&self) -> (r: Vec<String>)
        ensures
            forall|i: int, j: int| 0 <= i < j < r.len() ==> r[i]@ != r[j]@,
            forall|i: int| 0 <= i < r.len() ==> item_table_view(*self).dom().contains(#[trigger] r[i]@),
            forall|k: Seq<char>| #[trigger]
                item_table_view(*self).dom().contains(k) ==> exists|i: int| 0 <= i < r.len() && r[i]@ == k,
    {
        self.inner.keys().cloned().collect()
    }
}

/// Records of the item data grouped by their type.
#[verifier::external_body]
pub struct TypeGroups {
    inner: HashMap<String, Vec<Json>>,
}

/// The records a `TypeGroups` holds, by type.
pub uninterp spec fn type_groups_view(t: TypeGroups) -> Map<Seq<char>, Seq<JsonV>>;

impl TypeGroups {
    /// No groups (`HashMap::new`).
    #[verifier::external_body]
    pub fn new() -> (groups: TypeGroups)
        ensures
            type_groups_view(groups) == no_groups(),
    {
        TypeGroups { inner: HashMap::new() }
    }

    /// Binds type `k` to records `v` (`HashMap::insert`).
    #[verifier::external_body]
    pub fn insert(&mut self, k: String, v: Vec<Json>)
        ensures
            type_groups_view(*final(self)) == type_groups_view(*old(self)).insert(k@, view_array(v@)),
    {
        self.inner.insert(k, v);
    }

    /// Appends record `v` to the group of type `k` (`HashMap::get_mut`,
    /// then `Vec::push`).
    #[verifier::external_body]
    pub fn push(&mut self, k: &str, v: Json)
        requires
            type_groups_view(*old(self)).dom().contains(k@),
        ensures
            type_groups_view(*final(self)) == type_groups_view(*old(self)).insert(
                k@,
                type_groups_view(*old(self))[k@].push(v@),
            ),
    {
        self.inner.get_mut(k).unwrap().push(v);
    }

    /// The records of type `k` (`HashMap::get`).
    #[verifier::external_body]
    pub fn get(&self, k: &str) -> (r: Option<&Vec<Json>>)
        ensures
            match r {
                Some(v) => type_groups_view(*self).dom().contains(k@) && type_groups_view(
                    *self,
                )[k@] == view_array(v@),
                None => !type_groups_view(*self).dom().contains(k@),
            },
    {
        self.inner.get(k)
    }

    /// The types held (`HashMap::keys`), each once, in the table's own order.
    #[verifier::external_body]
    pub fn keys(&self) -> (r: Vec<String>)
        ensures
            forall|i: int, j: int| 0 <= i < j < r.len() ==> r[i]@ != r[j]@,
            forall|i: int| 0 <= i < r.len() ==> type_groups_view(*self).dom().contains(#[trigger] r[i]@),
            forall|k: Seq<char>| #[trigger]
                type_groups_view(*self).dom().contains(k) ==> exists|i: int| 0 <= i < r.len() && r[i]@ == k,
    {
        self.inner.keys().cloned().collect()
    }
}

/// A set of record types.
#[verifier::external_body]
pub struct TypeSet {
    inner: HashSet<String>,
}

/// The types a `TypeSet` holds.
pub uninterp spec fn type_set_view(t: TypeSet) -> Set<Seq<char>>;

impl TypeSet {
    /// The empty set (`HashSet::new`).
    #[verifier::external_body]
    pub fn new() -> (set: TypeSet)
        ensures
            type_set_view(set) == Set::<Seq<char>>::empty(),
    {
        TypeSet { inner: HashSet::new() }
    }

    /// Adds `k` (`HashSet::insert`).
    #[verifier::external_body]
    pub fn insert(&mut self, k: String)
        ensures
            type_set_view(*final(self)) == type_set_view(*old(self)).insert(k@),
    {
        self.inner.insert(k);
    }

    /// The types held (`HashSet::iter`), each once, in the set's own order.
    #[verifier::external_body]
    pub fn to_vec(&self) -> (r: Vec<String>)
        ensures
            forall|i: int, j: int| 0 <= i < j < r.len() ==> r[i]@ != r[j]@,
            forall|i: int| 0 <= i < r.len() ==> type_set_view(*self).contains(#[trigger] r[i]@),
            forall|k: Seq<char>| #[trigger]
                type_set_view(*self).contains(k) ==> exists|i: int| 0 <= i < r.len() && r[i]@ == k,
    {
        self.inner.iter().cloned().collect()
    }
}

/// No sprite infos.
pub open spec fn no_sprites() -> Map<Seq<char>, SpriteInfoV> {
    Map::empty()
}

/// No tile indices.
pub open spec fn no_tiles() -> Map<i32, TileIndexV> {
    Map::empty()
}

/// No tilesets.
pub open spec fn no_tilesets() -> Map<Seq<char>, TilesetGrid> {
    Map::empty()
}

/// How each sprite id is drawn.
#[verifier::external_body]
pub struct SpriteTable {
    inner: HashMap<String, SpriteInfo>,
}

/// The sprite infos a `SpriteTable` holds, by sprite id.
pub uninterp spec fn sprite_table_view(t: SpriteTable) -> Map<Seq<char>, SpriteInfoV>;

impl SpriteTable {
    /// An empty table (`HashMap::new`).
    #[verifier::external_body]
    pub fn new() -> (table: SpriteTable)
        ensures
            sprite_table_view(table) == no_sprites(),
    {
        SpriteTable { inner: HashMap::new() }
    }

    /// Binds `k` to `v` (`HashMap::insert`).
    #[verifier::external_body]
    pub fn insert(&mut self, k: String, v: SpriteInfo)
        ensures
            sprite_table_view(*final(self)) == sprite_table_view(*old(self)).insert(k@, v@),
    {
        self.inner.insert(k, v);
    }

    /// The info held for `k` (`HashMap::get`).
    #[verifier::external_body]
    pub fn get(&self, k: &str) -> (r: Option<&SpriteInfo>)
        ensures
            match r {
                Some(v) => sprite_table_view(*self).dom().contains(k@) && sprite_table_view(
                    *self,
                )[k@] == v@,
                None => !sprite_table_view(*self).dom().contains(k@),
            },
    {
        self.inner.get(k)
    }
}

/// Where each tile number is found.
#[verifier::external_body]
pub struct TileTable {
    inner: HashMap<i32, TileIndex>,
}

/// The tile indices a `TileTable` holds, by tile number.
pub uninterp spec fn tile_table_view(t: TileTable) -> Map<i32, TileIndexV>;

impl TileTable {
    /// An empty table (`HashMap::new`).
    #[verifier::external_body]
    pub fn new() -> (table: TileTable)
        ensures
            tile_table_view(table) == no_tiles(),
    {
        TileTable { inner: HashMap::new() }
    }

    /// Binds `k` to `v` (`HashMap::insert`).
    #[verifier::external_body]
    pub fn insert(&mut self, k: i32, v: TileIndex)
        ensures
            tile_table_view(*final(self)) == tile_table_view(*old(self)).insert(k, v@),
    {
        self.inner.insert(k, v);
    }

    /// The index held for `k` (`HashMap::get`).
    #[verifier::external_body]
    pub fn get(&self, k: i32) -> (r: Option<&TileIndex>)
        ensures
            match r {
                Some(v) => tile_table_view(*self).dom().contains(k) && tile_table_view(*self)[k]
                    == v@,
                None => !tile_table_view(*self).dom().contains(k),
            },
    {
        self.inner.get(&k)
    }
}

/// The loaded tilesets by name.
#[verifier::external_body]
pub struct TilesetTable {
    inner: HashMap<String, TilesetGrid>,
}

/// The tilesets a `TilesetTable` holds, by name.
pub uninterp spec fn tileset_table_view(t: TilesetTable) -> Map<Seq<char>, TilesetGrid>;

impl TilesetTable {
    /// An empty table (`HashMap::new`).
    #[verifier::external_body]
    pub fn new() -> (table: TilesetTable)
        ensures
            tileset_table_view(table) == no_tilesets(),
    {
        TilesetTable { inner: HashMap::new() }
    }

    /// Binds `k` to `v` (`HashMap::insert`).
    #[verifier::external_body]
    pub fn insert(&mut self, k: String, v: TilesetGrid)
        ensures
            tileset_table_view(*final(self)) == tileset_table_view(*old(self)).insert(k@, v),
    {
        self.inner.insert(k, v);
    }

    /// The tileset held for `k` (`HashMap::get`).
    #[verifier::external_body]
    pub fn get(&self, k: &str) -> (r: Option<&TilesetGrid>)
        ensures
            match r {
                Some(v) => tileset_table_view(*self).dom().contains(k@) && tileset_table_view(
                    *self,
                )[k@] == *v,
                None => !tileset_table_view(*self).dom().contains(k@),
            },
    {
        self.inner.get(k)
    }
}

} // verus!
