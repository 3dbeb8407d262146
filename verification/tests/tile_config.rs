use rlg::components::TilesetGrid;
use rlg::json::{Json, Number};
use rlg::systems::{attach_sprite, SpriteLookup};
use rlg::tables::TilesetTable;
use rlg::tiles::{
    init_sprite_bundles, init_tilesets, read_sprite_config, read_tileset_config, tileset_grid,
    Tilesets,
};

fn s(x: &str) -> Json {
    Json::Str(x.to_string())
}

fn num(n: u64) -> Json {
    Json::Number(Number::PosInt(n))
}

fn neg(n: i64) -> Json {
    Json::Number(Number::NegInt(n))
}

fn arr(v: Vec<Json>) -> Json {
    Json::Array(v)
}

fn obj(e: Vec<(&str, Json)>) -> Json {
    Json::Object(e.into_iter().map(|(k, v)| (k.to_string(), v)).collect())
}

fn config() -> Json {
    obj(vec![
        ("tile_info", arr(vec![obj(vec![("pixelscale", num(1)), ("width", num(32)), ("height", num(32))])])),
        (
            "tiles-new",
            arr(vec![
                obj(vec![
                    ("file", s("tiles.png")),
                    ("//", s("range 1 to 4")),
                    (
                        "tiles",
                        arr(vec![
                            obj(vec![("id", s("t_concrete")), ("fg", num(2))]),
                            obj(vec![("id", arr(vec![s("player_female"), s("npc_female")])), ("fg", num(3)), ("bg", num(4))]),
                            obj(vec![("id", s("t_wall")), ("fg", s("not a number")), ("additional_tiles", arr(vec![]))]),
                        ]),
                    ),
                ]),
                obj(vec![
                    ("file", s("big.png")),
                    ("//", s("range 4 to 6")),
                    ("sprite_width", num(64)),
                    ("sprite_height", neg(-1)),
                    ("tiles", arr(vec![obj(vec![("id", s("t_concrete")), ("fg", num(0x1_0000_0005))])])),
                ]),
            ]),
        ),
    ])
}

#[test]
fn tile_numbers_are_found_in_their_tileset() {
    let (timap, simap) = init_sprite_bundles(&config());
    let t1 = timap.timap.get(1).unwrap();
    assert_eq!((t1.tileset_name.as_str(), t1.tileset_index), ("tiles", 1));
    let t3 = timap.timap.get(3).unwrap();
    assert_eq!((t3.tileset_name.as_str(), t3.tileset_index), ("tiles", 3));
    // a later tileset takes a number over; it starts at 4, so indices count from 0
    let t4 = timap.timap.get(4).unwrap();
    assert_eq!((t4.tileset_name.as_str(), t4.tileset_index), ("big", 0));
    let t6 = timap.timap.get(6).unwrap();
    assert_eq!((t6.tileset_name.as_str(), t6.tileset_index), ("big", 2));
    assert!(timap.timap.get(7).is_none());
    assert!(timap.timap.get(0).is_none());

    let c = simap.simap.get("t_concrete").unwrap();
    // the second tileset takes the id over; its fg is cut to 32 bits
    assert_eq!(c.fg, 5);
    assert_eq!(c.bg, -1);
    let f = simap.simap.get("npc_female").unwrap();
    assert_eq!((f.fg, f.multitile, f.rotates), (3, false, false));
    assert_eq!(f.sprite_id, "npc_female");
    let w = simap.simap.get("t_wall").unwrap();
    assert_eq!((w.fg, w.multitile), (-1, true));
}

#[test]
fn unreadable_configurations_are_refused() {
    assert!(read_sprite_config(&obj(vec![])).is_none());
    let no_ids = obj(vec![("tiles-new", arr(vec![obj(vec![("file", s("a.png")), ("tiles", arr(vec![obj(vec![("fg", num(1))])]))])]))]);
    assert!(read_sprite_config(&no_ids).is_none());
    let bad_range = obj(vec![("tiles-new", arr(vec![obj(vec![("file", s("a.png")), ("//", s("range x to 4")), ("tiles", arr(vec![]))])]))]);
    assert!(read_sprite_config(&bad_range).is_none());
    let short_comment = obj(vec![("tiles-new", arr(vec![obj(vec![("file", s("a.png")), ("//", s("range 1")), ("tiles", arr(vec![]))])]))]);
    assert!(read_sprite_config(&short_comment).is_none());
    let no_comment = obj(vec![("tiles-new", arr(vec![obj(vec![("file", s("a.png")), ("tiles", arr(vec![]))])]))]);
    let (timap, _) = read_sprite_config(&no_comment).unwrap();
    let t0 = timap.timap.get(0).unwrap();
    assert_eq!((t0.tileset_name.as_str(), t0.tileset_index), ("a", 0));
    assert!(read_tileset_config(&obj(vec![])).is_none());
}

#[test]
fn tileset_images_and_sizes() {
    let sources = init_tilesets(&config());
    assert_eq!(sources.len(), 2);
    assert_eq!(sources[0].name, "tiles");
    assert_eq!(sources[0].bevy_path, "gfx/MshockXotto+/tiles.png");
    assert_eq!(sources[0].rust_path, "./assets/gfx/MshockXotto+/tiles.png");
    assert_eq!((sources[0].sprite_width, sources[0].sprite_height), (32, 32));
    assert_eq!(sources[1].name, "big");
    assert_eq!(sources[1].sprite_width, 64);
    assert_eq!(sources[1].sprite_height, usize::MAX);
}

#[test]
fn grids_take_whole_tiles() {
    let g = tileset_grid(100, 70, 32, 32);
    assert_eq!((g.columns, g.rows, g.tile_width, g.tile_height), (3, 2, 32, 32));
}

#[test]
fn sprites_are_looked_up_through_their_tiles() {
    let (timap, simap) = init_sprite_bundles(&config());
    let mut table = TilesetTable::new();
    table.insert("tiles".to_string(), TilesetGrid { columns: 1, rows: 1, tile_width: 32, tile_height: 32 });
    let tilesets = Tilesets { named_tilesets: table };
    match attach_sprite("npc_female", &simap, &timap, &tilesets) {
        SpriteLookup::Found { tileset_name, index } => {
            assert_eq!(tileset_name, "tiles");
            assert_eq!(index, 3);
        }
        _ => panic!("expected a sprite"),
    }
    assert!(matches!(attach_sprite("t_concrete", &simap, &timap, &tilesets), SpriteLookup::NoTileset));
    assert!(matches!(attach_sprite("t_wall", &simap, &timap, &tilesets), SpriteLookup::NoTileInfo));
    assert!(matches!(attach_sprite("nothing", &simap, &timap, &tilesets), SpriteLookup::NoSpriteInfo));
}
