use rlg::components::{MoveDirection, PhysicalCharacteristics, SpriteInfo, TileIndex};

#[test]
fn splat_gives_both_axes() {
    let d = MoveDirection::splat(3);
    assert_eq!(d.x, 3);
    assert_eq!(d.y, 3);
    let z = MoveDirection::zero();
    assert_eq!((z.x, z.y), (0, 0));
}

#[test]
fn default_physical_characteristics() {
    let p = PhysicalCharacteristics::default();
    assert_eq!(p.gender, "male");
    assert_eq!(p.hair_color, "brown");
    assert_eq!(p.hair_style, "short");
    assert_eq!(p.eye_color, "gray");
    assert_eq!(p.skin, "pink");
}

#[test]
fn default_sprite_info_and_tile_index() {
    let s = SpriteInfo::default();
    assert_eq!(s.sprite_id, "DEFAULTID");
    assert_eq!((s.fg, s.bg, s.rotates, s.multitile), (-1, -1, false, false));
    let t = TileIndex::default();
    assert_eq!(t.tileset_name, "tiles");
    assert_eq!(t.tileset_index, 0);
}
