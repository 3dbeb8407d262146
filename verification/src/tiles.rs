use vstd::prelude::*;

use crate::catalog::{all_str, all_strings};
use crate::components::{names, SpriteInfo, SpriteInfoV, TileIndex, TileIndexV, TilesetGrid};
use crate::json::{
    has_key, lemma_view_array, lemma_view_entries, lookup, obj_find, obj_get, view_array,
    view_entries, Json, JsonV, Number, ObjV,
};
use crate::tables::{
    sprite_table_view, tile_table_view, tileset_table_view, SpriteTable, TileTable, TilesetTable,
};
use crate::text::{drop_bytes, drop_last_bytes, parse_i32, parse_i32_spec, split_words, words};

verus! {

/// `v[k]` as a JSON value reads it: the value of key `k` of an object, null
/// for a missing key or a value that is not an object.
pub open spec fn field(v: JsonV, k: Seq<char>) -> JsonV {
    match v {
        JsonV::Obj(o) => match lookup(o, k) {
            Some(x) => x,
            None => JsonV::Null,
        },
        _ => JsonV::Null,
    }
}

/// `v[i]` of a JSON array: the element, or null.
pub open spec fn element(v: JsonV, i: int) -> JsonV {
    match v {
        JsonV::Arr(a) => if 0 <= i < a.len() {
            a[i]
        } else {
            JsonV::Null
        },
        _ => JsonV::Null,
    }
}

/// The value of a JSON number as an `i64`, where it is an integer in range.
pub open spec fn as_i64(v: JsonV) -> Option<i64> {
    match v {
        JsonV::Num(Number::PosInt(u)) => if u <= i64::MAX {
            Some(u as i64)
        } else {
            None
        },
        JsonV::Num(Number::NegInt(n)) => Some(n),
        _ => None,
    }
}

/// `v[k]`, where it is not null.
pub fn json_field<'a>(v: &'a Json, k: &str) -> (r: Option<&'a Json>)
    ensures
        match r {
            Some(x) => field(v@, k@) == x@,
            None => field(v@, k@) == JsonV::Null,
        },
{
    match v {
        Json::Object(e) => obj_get(e, k),
        _ => None,
    }
}

/// The value of a JSON number as an `i64` (`Value::as_i64`).
pub fn json_as_i64(v: &Json) -> (r: Option<i64>)
    ensures
        r == as_i64(v@),
{
    match v {
        Json::Number(Number::PosInt(u)) => if *u <= 0x7fff_ffff_ffff_ffff {
            Some(*u as i64)
        } else {
            None
        },
        Json::Number(Number::NegInt(n)) => Some(*n),
        _ => None,
    }
}

/// The tilesets of the tile configuration.
pub open spec fn tilesets_of(cfg: JsonV) -> Seq<JsonV> {
    match field(cfg, "tiles-new"@) {
        JsonV::Arr(a) => a,
        _ => Seq::empty(),
    }
}

/// The tiles of a tileset.
pub open spec fn tiles_of(ts: JsonV) -> Seq<JsonV> {
    match field(ts, "tiles"@) {
        JsonV::Arr(a) => a,
        _ => Seq::empty(),
    }
}

/// The name of a tileset: its image file name without the four bytes of
/// the extension.
pub open spec fn tileset_name(ts: JsonV) -> Option<Seq<char>> {
    match field(ts, "file"@) {
        JsonV::Str(f) => drop_bytes(f, 4),
        _ => None,
    }
}

/// Word `w` of the `//` comment of a tileset read as a number; 0 where the
/// tileset has no such comment.
pub open spec fn comment_number(ts: JsonV, w: int) -> Option<i32> {
    match field(ts, "//"@) {
        JsonV::Str(c) => if words(c).len() > w {
            parse_i32_spec(words(c)[w])
        } else {
            None
        },
        _ => Some(0),
    }
}

/// The first tile number of a tileset.
pub open spec fn first_tile(ts: JsonV) -> Option<i32> {
    comment_number(ts, 1)
}

/// The last tile number of a tileset.
pub open spec fn last_tile(ts: JsonV) -> Option<i32> {
    comment_number(ts, 3)
}

/// The sprite ids a tile is drawn for: its `id`, or the strings of its `id`
/// array.
pub open spec fn tile_ids(tile: JsonV) -> Option<Seq<Seq<char>>> {
    match tile {
        JsonV::Obj(o) => match lookup(o, "id"@) {
            Some(JsonV::Str(s)) => Some(seq![s]),
            Some(JsonV::Arr(a)) => if all_strings(a) {
                Some(
                    a.map_values(
                        |x: JsonV|
                            match x {
                                JsonV::Str(s) => s,
                                _ => Seq::empty(),
                            },
                    ),
                )
            } else {
                None
            },
            _ => None,
        },
        _ => None,
    }
}

/// The foreground tile number of a tile: its `fg` where that is an integer
/// (cut to 32 bits), else -1.
pub open spec fn tile_fg(o: ObjV) -> i32 {
    match lookup(o, "fg"@) {
        Some(v) => match as_i64(v) {
            Some(n) => n as i32,
            None => -1i32,
        },
        None => -1i32,
    }
}

/// How the sprite `id` of a tile is drawn.
pub open spec fn tile_sprite(o: ObjV, id: Seq<char>) -> SpriteInfoV {
    SpriteInfoV {
        sprite_id: id,
        fg: tile_fg(o),
        bg: -1i32,
        rotates: false,
        multitile: has_key(o, "additional_tiles"@),
    }
}

/// A tileset the game can read: its tiles, name and tile numbers are there,
/// each tile is an object with sprite ids, and the index of each tile number
/// in the tileset fits in an `i32`.
pub open spec fn tileset_ok(ts: JsonV) -> bool {
    &&& field(ts, "tiles"@) is Arr
    &&& forall|j: int|
        0 <= j < tiles_of(ts).len() ==> (#[trigger] tile_ids(tiles_of(ts)[j])) is Some
    &&& tileset_name(ts) is Some
    &&& first_tile(ts) is Some
    &&& last_tile(ts) is Some
    &&& (first_tile(ts)->0 != 1 && first_tile(ts)->0 <= last_tile(ts)->0) ==> last_tile(ts)->0
        - first_tile(ts)->0 <= i32::MAX
}

/// A tile configuration the game can read for its sprites.
pub open spec fn sprite_config_ok(cfg: JsonV) -> bool {
    &&& field(cfg, "tiles-new"@) is Arr
    &&& forall|i: int| 0 <= i < tilesets_of(cfg).len() ==> #[trigger] tileset_ok(tilesets_of(cfg)[i])
}

/// Where the tile numbers `b..=e` of tileset `name` are found: the tile
/// number itself where the tileset starts at 1, else its offset from `b`.
pub open spec fn tile_range(name: Seq<char>, b: i32, e: i32) -> Map<i32, TileIndexV> {
    Map::new(
        |x: i32| b <= x <= e,
        |x: i32|
            TileIndexV {
                tileset_name: name,
                tileset_index: if b == 1 {
                    x
                } else {
                    (x - b) as i32
                },
            },
    )
}

/// The tile numbers of the tilesets, a later tileset taking a number over.
pub open spec fn tile_map_of(tss: Seq<JsonV>) -> Map<i32, TileIndexV>
    decreases tss.len(),
{
    if tss.len() == 0 {
        Map::empty()
    } else {
        let ts = tss.last();
        tile_map_of(tss.drop_last()).union_prefer_right(
            tile_range(tileset_name(ts)->0, first_tile(ts)->0, last_tile(ts)->0),
        )
    }
}

/// `m` with each of `ids` drawn as tile `o` says.
pub open spec fn add_ids(m: Map<Seq<char>, SpriteInfoV>, ids: Seq<Seq<char>>, o: ObjV) -> Map<
    Seq<char>,
    SpriteInfoV,
>
    decreases ids.len(),
{
    if ids.len() == 0 {
        m
    } else {
        add_ids(m, ids.drop_last(), o).insert(ids.last(), tile_sprite(o, ids.last()))
    }
}

/// `m` with the sprites of `tiles`, in order.
pub open spec fn add_tiles(m: Map<Seq<char>, SpriteInfoV>, tiles: Seq<JsonV>) -> Map<
    Seq<char>,
    SpriteInfoV,
>
    decreases tiles.len(),
{
    if tiles.len() == 0 {
        m
    } else {
        let t = tiles.last();
        let o = match t {
            JsonV::Obj(o) => o,
            _ => Seq::empty(),
        };
        add_ids(add_tiles(m, tiles.drop_last()), tile_ids(t)->0, o)
    }
}

/// The sprites of the tilesets, a later sprite id taking an earlier over.
pub open spec fn sprite_map_of(tss: Seq<JsonV>) -> Map<Seq<char>, SpriteInfoV>
    decreases tss.len(),
{
    if tss.len() == 0 {
        Map::empty()
    } else {
        add_tiles(sprite_map_of(tss.drop_last()), tiles_of(tss.last()))
    }
}

/// Where each tile number is found.
pub struct TileIndexMap {
    pub timap: TileTable,
}

/// How each sprite id is drawn.
pub struct SpriteInfoMap {
    pub simap: SpriteTable,
}

/// The loaded tilesets by name.
pub struct Tilesets {
    pub named_tilesets: TilesetTable,
}

/// Word `w` of the `//` comment of a tileset read as a number.
pub fn read_comment_number(ts: &Json, w: usize) -> (r: Option<i32>)
    ensures
        r == comment_number(ts@, w as int),
{
    match json_field(ts, "//") {
        Some(Json::Str(c)) => {
            let ws = split_words(c.as_str());
            if w < ws.len() {
                proof {
                    assert(names(ws@)[w as int] == ws@[w as int]@);
                }
                parse_i32(ws[w].as_str())
            } else {
                None
            }
        },
        _ => Some(0),
    }
}

/// The sprite ids of a tile.
pub fn read_tile_ids(tile: &Json) -> (r: Option<Vec<String>>)
    ensures
        match r {
            Some(v) => tile_ids(tile@) == Some(names(v@)),
            None => tile_ids(tile@) is None,
        },
{
    let e = match tile {
        Json::Object(e) => e,
        _ => return None,
    };
    match obj_get(e, "id") {
        Some(Json::Str(s)) => {
            let mut v: Vec<String> = Vec::new();
            v.push(s.clone());
            proof {
                assert(names(v@) =~= seq![s@]);
            }
            Some(v)
        },
        Some(Json::Array(a)) => {
            if !all_str(a) {
                return None;
            }
            proof {
                lemma_view_array(a@);
            }
            let ghost ids = view_array(a@).map_values(
                |x: JsonV|
                    match x {
                        JsonV::Str(s) => s,
                        _ => Seq::empty(),
                    },
            );
            let mut v: Vec<String> = Vec::new();
            let mut j: usize = 0;
            while j < a.len()
                invariant
                    j <= a.len(),
                    view_array(a@).len() == a.len(),
                    forall|x: int| 0 <= x < a.len() ==> #[trigger] view_array(a@)[x] == a@[x]@,
                    all_strings(view_array(a@)),
                    ids.len() == a.len(),
                    ids == view_array(a@).map_values(
                        |x: JsonV|
                            match x {
                                JsonV::Str(s) => s,
                                _ => Seq::empty(),
                            },
                    ),
                    names(v@) == ids.take(j as int),
                decreases a.len() - j,
            {
                match &a[j] {
                    Json::Str(s) => {
                        let ghost before = v@;
                        v.push(s.clone());
                        proof {
                            assert(view_array(a@)[j as int] == JsonV::Str(s@));
                            assert(ids[j as int] == s@);
                            assert(names(v@) =~= names(before).push(s@));
                            assert(names(v@) =~= ids.take(j + 1));
                        }
                    },
                    _ => {
                        assert(!(view_array(a@)[j as int] is Str));
                        assert(false);
                    },
                }
                j = j + 1;
            }
            proof {
                assert(ids.take(a.len() as int) =~= ids);
            }
            Some(v)
        },
        _ => None,
    }
}

/// Adds the sprites of one tile: each of its ids drawn as the tile says.
pub fn add_tile_sprites(m: &mut SpriteTable, e: &Vec<(String, Json)>, ids: &Vec<String>)
    ensures
        sprite_table_view(*final(m)) == add_ids(
            sprite_table_view(*old(m)),
            names(ids@),
            view_entries(e@),
        ),
{
    let ghost o = view_entries(e@);
    let ghost m0 = sprite_table_view(*m);
    let fg: i32 = match obj_get(e, "fg") {
        Some(v) => match json_as_i64(v) {
            Some(n) => n as i32,
            None => -1,
        },
        None => -1,
    };
    let multitile = obj_find(e, "additional_tiles").is_some();
    let mut j: usize = 0;
    assert(names(ids@).take(0) =~= Seq::<Seq<char>>::empty());
    while j < ids.len()
        invariant
            j <= ids.len(),
            o == view_entries(e@),
            fg == tile_fg(o),
            multitile == has_key(o, "additional_tiles"@),
            sprite_table_view(*m) == add_ids(m0, names(ids@).take(j as int), o),
        decreases ids.len() - j,
    {
        proof {
            assert(names(ids@).take(j + 1).drop_last() =~= names(ids@).take(j as int));
        }
        let info = SpriteInfo {
            sprite_id: ids[j].clone(),
            fg,
            bg: -1,
            rotates: false,
            multitile,
        };
        m.insert(ids[j].clone(), info);
        j = j + 1;
    }
    proof {
        assert(names(ids@).take(ids.len() as int) =~= names(ids@));
    }
}

/// Adds where the tile numbers `b..=e` of tileset `name` are found.
pub fn add_tile_range(m: &mut TileTable, name: &String, b: i32, e: i32)
    requires
        (b != 1 && b <= e) ==> e - b <= i32::MAX,
    ensures
        tile_table_view(*final(m)) == tile_table_view(*old(m)).union_prefer_right(
            tile_range(name@, b, e),
        ),
{
    let ghost m0 = tile_table_view(*m);
    let mut x: i64 = b as i64;
    while x <= e as i64
        invariant
            b <= x,
            x <= e as i64 + 1 || x == b,
            (b != 1 && b <= e) ==> e - b <= i32::MAX,
            tile_table_view(*m) == m0.union_prefer_right(
                Map::new(
                    |y: i32| b <= y < x,
                    |y: i32|
                        TileIndexV {
                            tileset_name: name@,
                            tileset_index: if b == 1 {
                                y
                            } else {
                                (y - b) as i32
                            },
                        },
                ),
            ),
        decreases e as i64 + 1 - x,
    {
        let xi = x as i32;
        let index: i32 = if b == 1 {
            xi
        } else {
            (x - b as i64) as i32
        };
        let ghost before = tile_table_view(*m);
        m.insert(xi, TileIndex { tileset_name: name.clone(), tileset_index: index });
        proof {
            assert(tile_table_view(*m) =~= m0.union_prefer_right(
                Map::new(
                    |y: i32| b <= y < x + 1,
                    |y: i32|
                        TileIndexV {
                            tileset_name: name@,
                            tileset_index: if b == 1 {
                                y
                            } else {
                                (y - b) as i32
                            },
                        },
                ),
            ));
        }
        x = x + 1;
    }
    proof {
        assert(tile_table_view(*m) =~= m0.union_prefer_right(tile_range(name@, b, e)));
    }
}

/// Adds the tile numbers and sprites of one tileset; `false`, with the tables
/// in no particular state, where the tileset cannot be read.
pub fn add_tileset(ti: &mut TileTable, si: &mut SpriteTable, ts: &Json) -> (ok: bool)
    ensures
        ok == tileset_ok(ts@),
        ok ==> tile_table_view(*final(ti)) == tile_table_view(*old(ti)).union_prefer_right(
            tile_range(tileset_name(ts@)->0, first_tile(ts@)->0, last_tile(ts@)->0),
        ),
        ok ==> sprite_table_view(*final(si)) == add_tiles(sprite_table_view(*old(si)), tiles_of(ts@)),
{
    let tiles = match json_field(ts, "tiles") {
        Some(Json::Array(a)) => a,
        _ => return false,
    };
    let name = match json_field(ts, "file") {
        Some(Json::Str(f)) => match drop_last_bytes(f.as_str(), 4) {
            Some(n) => n,
            None => return false,
        },
        _ => return false,
    };
    let b = match read_comment_number(ts, 1) {
        Some(b) => b,
        None => return false,
    };
    let e = match read_comment_number(ts, 3) {
        Some(e) => e,
        None => return false,
    };
    if b != 1 && b <= e && (e as i64 - b as i64) > 0x7fff_ffff {
        return false;
    }
    let ghost tv = view_array(tiles@);
    proof {
        lemma_view_array(tiles@);
        assert(tv == tiles_of(ts@));
    }
    let ghost s0 = sprite_table_view(*si);
    let mut j: usize = 0;
    assert(tv.take(0) =~= Seq::<JsonV>::empty());
    while j < tiles.len()
        invariant
            j <= tiles.len(),
            tv == view_array(tiles@),
            tv == tiles_of(ts@),
            tv.len() == tiles.len(),
            forall|x: int| 0 <= x < tiles.len() ==> #[trigger] tv[x] == tiles@[x]@,
            forall|x: int| 0 <= x < j ==> (#[trigger] tile_ids(tv[x])) is Some,
            sprite_table_view(*si) == add_tiles(s0, tv.take(j as int)),
        decreases tiles.len() - j,
    {
        let ids = match read_tile_ids(&tiles[j]) {
            Some(ids) => ids,
            None => {
                assert(tile_ids(tv[j as int]) is None);
                return false;
            },
        };
        let e = match &tiles[j] {
            Json::Object(e) => e,
            _ => {
                assert(false);
                return false;
            },
        };
        proof {
            assert(tv.take(j + 1).drop_last() =~= tv.take(j as int));
        }
        add_tile_sprites(si, e, &ids);
        j = j + 1;
    }
    proof {
        assert(tv.take(tiles.len() as int) =~= tv);
    }
    add_tile_range(ti, &name, b, e);
    true
}

/// The tile numbers and sprites of the tile configuration; `None` where the
/// game cannot read it.
pub fn read_sprite_config(tile_config: &Json) -> (r: Option<(TileIndexMap, SpriteInfoMap)>)
    ensures
        match r {
            Some((t, s)) => sprite_config_ok(tile_config@) && tile_table_view(t.timap)
                == tile_map_of(tilesets_of(tile_config@)) && sprite_table_view(s.simap)
                == sprite_map_of(tilesets_of(tile_config@)),
            None => !sprite_config_ok(tile_config@),
        },
{
    let tss = match json_field(tile_config, "tiles-new") {
        Some(Json::Array(a)) => a,
        _ => return None,
    };
    let ghost tv = view_array(tss@);
    proof {
        lemma_view_array(tss@);
    }
    let mut ti = TileTable::new();
    let mut si = SpriteTable::new();
    let mut i: usize = 0;
    proof {
        assert(tv.take(0) =~= Seq::<JsonV>::empty());
        assert(tile_table_view(ti) =~= tile_map_of(tv.take(0)));
        assert(sprite_table_view(si) =~= sprite_map_of(tv.take(0)));
    }
    while i < tss.len()
        invariant
            i <= tss.len(),
            tv == view_array(tss@),
            tv == tilesets_of(tile_config@),
            field(tile_config@, "tiles-new"@) is Arr,
            tv.len() == tss.len(),
            forall|x: int| 0 <= x < tss.len() ==> #[trigger] tv[x] == tss@[x]@,
            forall|x: int| 0 <= x < i ==> #[trigger] tileset_ok(tv[x]),
            tile_table_view(ti) == tile_map_of(tv.take(i as int)),
            sprite_table_view(si) == sprite_map_of(tv.take(i as int)),
        decreases tss.len() - i,
    {
        proof {
            assert(tv.take(i + 1).drop_last() =~= tv.take(i as int));
        }
        if !add_tileset(&mut ti, &mut si, &tss[i]) {
            assert(!tileset_ok(tv[i as int]));
            return None;
        }
        i = i + 1;
    }
    proof {
        assert(tv.take(tss.len() as int) =~= tv);
    }
    Some((TileIndexMap { timap: ti }, SpriteInfoMap { simap: si }))
}

/// Reads the tile numbers and the sprites of the tile configuration: where
/// each tile number is found (a later tileset taking a number over) and how
/// each sprite id is drawn (a later entry taking an id over).
pub fn init_sprite_bundles(tile_config: &Json) -> (r: (TileIndexMap, SpriteInfoMap))
    requires
        sprite_config_ok(tile_config@),
    ensures
        tile_table_view(r.0.timap) == tile_map_of(tilesets_of(tile_config@)),
        sprite_table_view(r.1.simap) == sprite_map_of(tilesets_of(tile_config@)),
{
    match read_sprite_config(tile_config) {
        Some(r) => r,
        None => {
            assert(false);
            (TileIndexMap { timap: TileTable::new() }, SpriteInfoMap { simap: SpriteTable::new() })
        },
    }
}

/// The image of a tileset: its name, the asset path and the file path of
/// the image, and the size of one tile in pixels.
pub struct TilesetSource {
    pub name: String,
    pub bevy_path: String,
    pub rust_path: String,
    pub sprite_width: usize,
    pub sprite_height: usize,
}

/// The model of a `TilesetSource`.
pub struct TilesetSourceV {
    pub name: Seq<char>,
    pub bevy_path: Seq<char>,
    pub rust_path: Seq<char>,
    pub sprite_width: usize,
    pub sprite_height: usize,
}

impl View for TilesetSource {
    type V = TilesetSourceV;

    open spec fn view(&self) -> TilesetSourceV {
        TilesetSourceV {
            name: self.name@,
            bevy_path: self.bevy_path@,
            rust_path: self.rust_path@,
            sprite_width: self.sprite_width,
            sprite_height: self.sprite_height,
        }
    }
}

/// The default tile sizes of the tile configuration.
pub open spec fn tile_info(cfg: JsonV) -> JsonV {
    element(field(cfg, "tile_info"@), 0)
}

/// A tile configuration the game can read for its tileset images: default
/// tile sizes (and scale) that are integers, and for each tileset an image
/// file name from which the extension can be cut.
pub open spec fn tileset_config_ok(cfg: JsonV) -> bool {
    &&& tile_info(cfg) is Obj
    &&& as_i64(field(tile_info(cfg), "pixelscale"@)) is Some
    &&& as_i64(field(tile_info(cfg), "width"@)) is Some
    &&& as_i64(field(tile_info(cfg), "height"@)) is Some
    &&& field(cfg, "tiles-new"@) is Arr
    &&& forall|i: int|
        0 <= i < tilesets_of(cfg).len() ==> (field(#[trigger] tilesets_of(cfg)[i], "file"@) is Str
            && tileset_name(tilesets_of(cfg)[i]) is Some)
}

/// The file name of a tileset image.
pub open spec fn file_of(ts: JsonV) -> Seq<char> {
    match field(ts, "file"@) {
        JsonV::Str(f) => f,
        _ => Seq::empty(),
    }
}

/// A tile size: the tileset's own where it gives one as an integer, else
/// the default (both cut to `usize`).
pub open spec fn tile_size(cfg: JsonV, ts: JsonV, own: Seq<char>, default: Seq<char>) -> usize {
    match as_i64(field(ts, own)) {
        Some(w) => w as usize,
        None => (as_i64(field(tile_info(cfg), default))->0) as usize,
    }
}

/// The image of tileset `ts`.
pub open spec fn tileset_source(cfg: JsonV, ts: JsonV) -> TilesetSourceV {
    TilesetSourceV {
        name: tileset_name(ts)->0,
        bevy_path: "gfx/MshockXotto+/"@ + file_of(ts),
        rust_path: "./assets/gfx/MshockXotto+/"@ + file_of(ts),
        sprite_width: tile_size(cfg, ts, "sprite_width"@, "width"@),
        sprite_height: tile_size(cfg, ts, "sprite_height"@, "height"@),
    }
}

/// A tile size of a tileset: its own or the default.
pub fn read_tile_size(ts: &Json, own: &str, default: i64) -> (r: usize)
    ensures
        r == match as_i64(field(ts@, own@)) {
            Some(w) => w as usize,
            None => default as usize,
        },
{
    match json_field(ts, own) {
        Some(v) => match json_as_i64(v) {
            Some(w) => w as usize,
            None => default as usize,
        },
        None => default as usize,
    }
}

/// The tileset images of the tile configuration, in order; `None` where the
/// game cannot read it.
pub fn read_tileset_config(tile_config: &Json) -> (r: Option<Vec<TilesetSource>>)
    ensures
        match r {
            Some(v) => tileset_config_ok(tile_config@) && v@.map_values(|t: TilesetSource| t@)
                == tilesets_of(tile_config@).map_values(
                |ts: JsonV| tileset_source(tile_config@, ts),
            ),
            None => !tileset_config_ok(tile_config@),
        },
{
    let info = match json_field(tile_config, "tile_info") {
        Some(Json::Array(a)) => {
            proof {
                lemma_view_array(a@);
            }
            if a.len() == 0 {
                return None;
            }
            &a[0]
        },
        _ => return None,
    };
    match info {
        Json::Object(_) => {},
        _ => return None,
    }
    match json_field(info, "pixelscale") {
        Some(v) => match json_as_i64(v) {
            Some(_) => {},
            None => return None,
        },
        None => return None,
    }
    let default_width = match json_field(info, "width") {
        Some(v) => match json_as_i64(v) {
            Some(w) => w,
            None => return None,
        },
        None => return None,
    };
    let default_height = match json_field(info, "height") {
        Some(v) => match json_as_i64(v) {
            Some(h) => h,
            None => return None,
        },
        None => return None,
    };
    let tss = match json_field(tile_config, "tiles-new") {
        Some(Json::Array(a)) => a,
        _ => return None,
    };
    let ghost cfg = tile_config@;
    let ghost tv = view_array(tss@);
    let ghost want = tv.map_values(|ts: JsonV| tileset_source(cfg, ts));
    proof {
        lemma_view_array(tss@);
    }
    let mut out: Vec<TilesetSource> = Vec::new();
    let mut i: usize = 0;
    while i < tss.len()
        invariant
            i <= tss.len(),
            tv == view_array(tss@),
            tv == tilesets_of(cfg),
            cfg == tile_config@,
            want == tv.map_values(|ts: JsonV| tileset_source(cfg, ts)),
            tv.len() == tss.len(),
            forall|x: int| 0 <= x < tss.len() ==> #[trigger] tv[x] == tss@[x]@,
            as_i64(field(tile_info(cfg), "width"@)) == Some(default_width),
            as_i64(field(tile_info(cfg), "height"@)) == Some(default_height),
            forall|x: int|
                0 <= x < i ==> (field(#[trigger] tv[x], "file"@) is Str && tileset_name(tv[x]) is Some),
            out@.map_values(|t: TilesetSource| t@) == want.take(i as int),
        decreases tss.len() - i,
    {
        let ts = &tss[i];
        let file = match json_field(ts, "file") {
            Some(Json::Str(f)) => f,
            _ => {
                assert(!(field(tv[i as int], "file"@) is Str));
                return None;
            },
        };
        let name = match drop_last_bytes(file.as_str(), 4) {
            Some(n) => n,
            None => {
                assert(tileset_name(tv[i as int]) is None);
                return None;
            },
        };
        let bevy_path = String::from_str("gfx/MshockXotto+/").concat(file.as_str());
        let rust_path = String::from_str("./assets/gfx/MshockXotto+/").concat(file.as_str());
        let sprite_width = read_tile_size(ts, "sprite_width", default_width);
        let sprite_height = read_tile_size(ts, "sprite_height", default_height);
        let src = TilesetSource { name, bevy_path, rust_path, sprite_width, sprite_height };
        let ghost before = out@;
        out.push(src);
        proof {
            assert(src@ == tileset_source(cfg, tv[i as int]));
            assert(out@.map_values(|t: TilesetSource| t@) =~= before.map_values(
                |t: TilesetSource| t@,
            ).push(src@));
            assert(want.take(i + 1) =~= want.take(i as int).push(want[i as int]));
        }
        i = i + 1;
    }
    proof {
        assert(want.take(tss.len() as int) =~= want);
    }
    Some(out)
}

/// Reads the tileset images of the tile configuration: for each tileset, in
/// order, its name, where its image is, and the size of its tiles.
pub fn init_tilesets(tile_config: &Json) -> (r: Vec<TilesetSource>)
    requires
        tileset_config_ok(tile_config@),
    ensures
        r@.map_values(|t: TilesetSource| t@) == tilesets_of(tile_config@).map_values(
            |ts: JsonV| tileset_source(tile_config@, ts),
        ),
{
    match read_tileset_config(tile_config) {
        Some(v) => v,
        None => {
            assert(false);
            Vec::new()
        },
    }
}

/// How an image of the given size is cut into tiles of the given size: as
/// many whole columns and rows as fit.
pub fn tileset_grid(image_width: usize, image_height: usize, sprite_width: usize, sprite_height: usize) -> (r: TilesetGrid)
    requires
        sprite_width > 0,
        sprite_height > 0,
    ensures
        r.columns == image_width / sprite_width,
        r.rows == image_height / sprite_height,
        r.tile_width == sprite_width,
        r.tile_height == sprite_height,
{
    TilesetGrid {
        columns: image_width / sprite_width,
        rows: image_height / sprite_height,
        tile_width: sprite_width,
        tile_height: sprite_height,
    }
}


/// The tiles of a tileset image are as wide and as high as the tileset says
/// with integer `sprite_width` and `sprite_height`, and otherwise as wide and
/// as high as the `width` and `height` of the first `tile_info` entry.
pub proof fn law_tile_sizes(cfg: JsonV, ts: JsonV)
    ensures
        tileset_source(cfg, ts).sprite_width == match as_i64(field(ts, "sprite_width"@)) {
            Some(w) => w as usize,
            None => (as_i64(field(element(field(cfg, "tile_info"@), 0), "width"@))->0) as usize,
        },
        tileset_source(cfg, ts).sprite_height == match as_i64(field(ts, "sprite_height"@)) {
            Some(h) => h as usize,
            None => (as_i64(field(element(field(cfg, "tile_info"@), 0), "height"@))->0) as usize,
        },
{
}


/// Tile `t` is drawn for sprite `id`.
pub open spec fn tile_names(t: JsonV, id: Seq<char>) -> bool {
    match tile_ids(t) {
        Some(ids) => ids.contains(id),
        None => false,
    }
}

/// Drawing sprites for `ids` binds each of them as the tile says and leaves
/// every other sprite as it was.
pub proof fn lemma_add_ids(m: Map<Seq<char>, SpriteInfoV>, ids: Seq<Seq<char>>, o: ObjV, k: Seq<char>)
    ensures
        ids.contains(k) ==> add_ids(m, ids, o).dom().contains(k) && add_ids(m, ids, o)[k]
            == tile_sprite(o, k),
        !ids.contains(k) ==> add_ids(m, ids, o).dom().contains(k) == m.dom().contains(k),
        !ids.contains(k) && m.dom().contains(k) ==> add_ids(m, ids, o)[k] == m[k],
    decreases ids.len(),
{
    if ids.len() > 0 {
        let p = ids.drop_last();
        lemma_add_ids(m, p, o, k);
        if ids.last() == k {
            assert(ids[ids.len() - 1] == k);
        } else {
            if ids.contains(k) {
                let a = choose|a: int| 0 <= a < ids.len() && ids[a] == k;
                assert(p[a] == k);
            }
            if p.contains(k) {
                let a = choose|a: int| 0 <= a < p.len() && p[a] == k;
                assert(ids[a] == k);
            }
        }
    }
}

/// Every sprite of a tile is bound, and bound sprites stay bound.
pub proof fn lemma_add_tiles_dom(m: Map<Seq<char>, SpriteInfoV>, tiles: Seq<JsonV>, id: Seq<char>, j: int)
    requires
        m.dom().contains(id) || (0 <= j < tiles.len() && tile_names(tiles[j], id)),
    ensures
        add_tiles(m, tiles).dom().contains(id),
    decreases tiles.len(),
{
    if tiles.len() > 0 {
        let p = tiles.drop_last();
        let t = tiles.last();
        let o = match t {
            JsonV::Obj(o) => o,
            _ => Seq::empty(),
        };
        if m.dom().contains(id) || (0 <= j < p.len() && tile_names(p[j], id)) {
            lemma_add_tiles_dom(m, p, id, j);
        }
        lemma_add_ids(add_tiles(m, p), tile_ids(t)->0, o, id);
        if !(m.dom().contains(id) || (0 <= j < p.len() && tile_names(p[j], id))) {
            assert(j == tiles.len() - 1);
        }
    }
}

/// Each sprite is bound to an info of its own id.
pub proof fn lemma_add_tiles_key(m: Map<Seq<char>, SpriteInfoV>, tiles: Seq<JsonV>, id: Seq<char>)
    requires
        m.dom().contains(id) ==> m[id].sprite_id == id,
    ensures
        add_tiles(m, tiles).dom().contains(id) ==> add_tiles(m, tiles)[id].sprite_id == id,
    decreases tiles.len(),
{
    if tiles.len() > 0 {
        let p = tiles.drop_last();
        let t = tiles.last();
        let o = match t {
            JsonV::Obj(o) => o,
            _ => Seq::empty(),
        };
        lemma_add_tiles_key(m, p, id);
        lemma_add_ids(add_tiles(m, p), tile_ids(t)->0, o, id);
    }
}

/// A sprite is drawn as the last tile drawn for it says.
pub proof fn lemma_add_tiles_last(
    m: Map<Seq<char>, SpriteInfoV>,
    tiles: Seq<JsonV>,
    id: Seq<char>,
    j: int,
    o: ObjV,
)
    requires
        0 <= j < tiles.len(),
        tiles[j] == JsonV::Obj(o),
        tile_names(tiles[j], id),
        forall|b: int| j < b < tiles.len() ==> (#[trigger] tile_ids(tiles[b])) is Some && !tile_names(
            tiles[b],
            id,
        ),
    ensures
        add_tiles(m, tiles).dom().contains(id),
        add_tiles(m, tiles)[id] == tile_sprite(o, id),
    decreases tiles.len(),
{
    let p = tiles.drop_last();
    let t = tiles.last();
    let ot = match t {
        JsonV::Obj(x) => x,
        _ => Seq::empty(),
    };
    lemma_add_ids(add_tiles(m, p), tile_ids(t)->0, ot, id);
    if j < tiles.len() - 1 {
        assert forall|b: int| j < b < p.len() implies (#[trigger] tile_ids(p[b])) is Some && !tile_names(
            p[b],
            id,
        ) by {
            assert(p[b] == tiles[b]);
            assert(tile_ids(tiles[b]) is Some);
        }
        assert(p[j] == tiles[j]);
        lemma_add_tiles_last(m, p, id, j, o);
        assert(tile_ids(tiles[tiles.len() - 1]) is Some);
    }
}

/// Every sprite id of every tile of the configuration has a sprite info, of
/// that id.
pub proof fn law_tile_ids_have_sprites(tss: Seq<JsonV>, i: int, j: int, id: Seq<char>)
    requires
        0 <= i < tss.len(),
        0 <= j < tiles_of(tss[i]).len(),
        tile_names(tiles_of(tss[i])[j], id),
    ensures
        sprite_map_of(tss).dom().contains(id),
        sprite_map_of(tss)[id].sprite_id == id,
    decreases tss.len(),
{
    lemma_sprite_map_key(tss, id);
    let p = tss.drop_last();
    if i < tss.len() - 1 {
        assert(p[i] == tss[i]);
        law_tile_ids_have_sprites(p, i, j, id);
        lemma_add_tiles_dom(sprite_map_of(p), tiles_of(tss.last()), id, -1);
    } else {
        lemma_add_tiles_dom(sprite_map_of(p), tiles_of(tss.last()), id, j);
    }
}

/// Each sprite of the sprite map is bound to an info of its own id.
pub proof fn lemma_sprite_map_key(tss: Seq<JsonV>, id: Seq<char>)
    ensures
        sprite_map_of(tss).dom().contains(id) ==> sprite_map_of(tss)[id].sprite_id == id,
    decreases tss.len(),
{
    if tss.len() > 0 {
        lemma_sprite_map_key(tss.drop_last(), id);
        lemma_add_tiles_key(sprite_map_of(tss.drop_last()), tiles_of(tss.last()), id);
    }
}

/// A sprite is drawn as the last tile of the configuration drawn for it
/// says: its tile number is that tile's `fg` (or -1), it has no background,
/// and it is a multitile where that tile has `additional_tiles`.
pub proof fn law_last_tile_draws_sprite(tss: Seq<JsonV>, i: int, j: int, o: ObjV, id: Seq<char>)
    requires
        0 <= i < tss.len(),
        0 <= j < tiles_of(tss[i]).len(),
        tiles_of(tss[i])[j] == JsonV::Obj(o),
        tile_names(tiles_of(tss[i])[j], id),
        forall|a: int, b: int|
            i <= a < tss.len() && 0 <= b < tiles_of(tss[a]).len() && (a > i || b > j) ==> (
            #[trigger] tile_ids(tiles_of(tss[a])[b])) is Some && !tile_names(tiles_of(tss[a])[b], id),
    ensures
        sprite_map_of(tss).dom().contains(id),
        sprite_map_of(tss)[id].sprite_id == id,
        sprite_map_of(tss)[id].fg == tile_fg(o),
        sprite_map_of(tss)[id].bg == -1,
        !sprite_map_of(tss)[id].rotates,
        sprite_map_of(tss)[id].multitile == has_key(o, "additional_tiles"@),
    decreases tss.len(),
{
    let p = tss.drop_last();
    let last = tiles_of(tss.last());
    if i < tss.len() - 1 {
        assert(p[i] == tss[i]);
        assert forall|a: int, b: int|
            i <= a < p.len() && 0 <= b < tiles_of(p[a]).len() && (a > i || b > j) implies (
            #[trigger] tile_ids(tiles_of(p[a])[b])) is Some && !tile_names(tiles_of(p[a])[b], id) by {
            assert(p[a] == tss[a]);
            assert(tile_ids(tiles_of(tss[a])[b]) is Some);
        }
        law_last_tile_draws_sprite(p, i, j, o, id);
        assert forall|b: int| 0 <= b < last.len() implies tile_ids(#[trigger] last[b]) is Some
            && !tile_names(last[b], id) by {
            assert(tile_ids(tiles_of(tss[tss.len() - 1])[b]) is Some);
        }
        lemma_add_tiles_unnamed(sprite_map_of(p), last, id);
    } else {
        assert forall|b: int| j < b < last.len() implies (#[trigger] tile_ids(last[b])) is Some
            && !tile_names(last[b], id) by {
            assert(tile_ids(tiles_of(tss[i])[b]) is Some);
        }
        lemma_add_tiles_last(sprite_map_of(p), last, id, j, o);
    }
}

/// Tiles none of which is drawn for `id` leave its sprite as it was.
pub proof fn lemma_add_tiles_unnamed(m: Map<Seq<char>, SpriteInfoV>, tiles: Seq<JsonV>, id: Seq<char>)
    requires
        m.dom().contains(id),
        forall|b: int|
            0 <= b < tiles.len() ==> tile_ids(#[trigger] tiles[b]) is Some && !tile_names(tiles[b], id),
    ensures
        add_tiles(m, tiles).dom().contains(id),
        add_tiles(m, tiles)[id] == m[id],
    decreases tiles.len(),
{
    if tiles.len() > 0 {
        let p = tiles.drop_last();
        let t = tiles.last();
        let o = match t {
            JsonV::Obj(x) => x,
            _ => Seq::empty(),
        };
        assert forall|b: int| 0 <= b < p.len() implies tile_ids(#[trigger] p[b]) is Some && !tile_names(
            p[b],
            id,
        ) by {
            assert(p[b] == tiles[b]);
        }
        lemma_add_tiles_unnamed(m, p, id);
        assert(tile_ids(tiles[tiles.len() - 1]) is Some && !tile_names(tiles[tiles.len() - 1], id));
        lemma_add_ids(add_tiles(m, p), tile_ids(t)->0, o, id);
    }
}

} // verus!
