use vstd::prelude::*;

verus! {

/// A network client id, the raw value of the networking layer's `ClientId`.
pub type ClientId = u64;

/// The client id of the server, and of the player of a single-player game.
pub const SERVER_ID: u64 = 0;

/// A position on the tile grid.
pub struct Position {
    pub x: i32,
    pub y: i32,
}

/// The player a character entity belongs to.
pub struct Player(pub ClientId);

/// Marks the character of the player at this machine.
pub struct LocalPlayerComponent {
    pub id: ClientId,
}

/// Marks a character whose sprites are attached.
pub struct Initialized {}

/// The items a character holds, in the order they were taken up.
pub struct WieldedItems {
    pub wielded: Vec<String>,
}

/// The items a character wears, in the order they were put on.
pub struct WornItems {
    pub worn: Vec<String>,
}

/// How a character looks.
pub struct PhysicalCharacteristics {
    pub gender: String,
    pub eye_color: String,
    pub hair_color: String,
    pub hair_style: String,
    pub skin: String,
}

/// The item an item entity is.
pub struct ItemDetails {
    pub item_id: String,
}

/// One step a player asks for.
pub struct MoveDirection {
    pub x: i32,
    pub y: i32,
}

/// How a sprite id is drawn: its foreground and background tile numbers.
pub struct SpriteInfo {
    pub sprite_id: String,
    pub fg: i32,
    pub bg: i32,
    pub rotates: bool,
    pub multitile: bool,
}

/// Where a tile number is found: the tileset and the index in it.
pub struct TileIndex {
    pub tileset_name: String,
    pub tileset_index: i32,
}

/// An item waiting to be put on the map.
pub struct ItemToSpawn {
    pub item_id: String,
    pub spawn_pos: Position,
}

/// The items waiting to be put on the map.
pub struct ItemSpawnQueue {
    pub item_spawn_queue: Vec<ItemToSpawn>,
}

/// The client id of the player at this machine, until its character is found.
pub struct LocalPlayerResource {
    pub id: ClientId,
}

/// The plain parts of an item entity: where it lies and what it is.
pub struct CatItemBundle {
    pub pos: Position,
    pub item_details: ItemDetails,
}

/// The plain parts of a character entity.
pub struct CatCharBundle {
    pub pos: Position,
    pub physical: PhysicalCharacteristics,
    pub worn: WornItems,
    pub wielded: WieldedItems,
    pub player: Player,
}

/// How a tileset image is cut into tiles: the number of columns and rows and
/// the size of one tile in pixels.
pub struct TilesetGrid {
    pub columns: usize,
    pub rows: usize,
    pub tile_width: usize,
    pub tile_height: usize,
}

/// The model of a `SpriteInfo`.
pub struct SpriteInfoV {
    pub sprite_id: Seq<char>,
    pub fg: i32,
    pub bg: i32,
    pub rotates: bool,
    pub multitile: bool,
}

/// The model of a `TileIndex`.
pub struct TileIndexV {
    pub tileset_name: Seq<char>,
    pub tileset_index: i32,
}

impl View for SpriteInfo {
    type V = SpriteInfoV;

    open spec fn view(&self) -> SpriteInfoV {
        SpriteInfoV {
            sprite_id: self.sprite_id@,
            fg: self.fg,
            bg: self.bg,
            rotates: self.rotates,
            multitile: self.multitile,
        }
    }
}

impl View for TileIndex {
    type V = TileIndexV;

    open spec fn view(&self) -> TileIndexV {
        TileIndexV { tileset_name: self.tileset_name@, tileset_index: self.tileset_index }
    }
}

/// The characters of each string.
pub open spec fn names(v: Seq<String>) -> Seq<Seq<char>> {
    v.map_values(|s: String| s@)
}

impl MoveDirection {
    /// A step of `v` along both axes.
    pub fn splat(v: i32) -> (r: Self)
        ensures
            r.x == v,
            r.y == v,
    {
        MoveDirection { x: v, y: v }
    }

    /// No step at all.
    pub fn zero() -> (r: Self)
        ensures
            r.x == 0,
            r.y == 0,
    {
        Self::splat(0)
    }
}

impl Default for PhysicalCharacteristics {
    /// A brown-haired, gray-eyed, pink-skinned male with short hair.
    fn default() -> (r: PhysicalCharacteristics)
        ensures
            r.gender@ == "male"@,
            r.hair_color@ == "brown"@,
            r.hair_style@ == "short"@,
            r.eye_color@ == "gray"@,
            r.skin@ == "pink"@,
    {
        PhysicalCharacteristics {
            gender: String::from_str("male"),
            hair_color: String::from_str("brown"),
            hair_style: String::from_str("short"),
            eye_color: String::from_str("gray"),
            skin: String::from_str("pink"),
        }
    }
}

impl Default for SpriteInfo {
    /// A sprite with no tiles (`-1`), drawn as given.
    fn default() -> (r: SpriteInfo)
        ensures
            r.sprite_id@ == "DEFAULTID"@,
            r.fg == -1,
            r.bg == -1,
            !r.rotates,
            !r.multitile,
    {
        SpriteInfo {
            sprite_id: String::from_str("DEFAULTID"),
            fg: -1,
            bg: -1,
            rotates: false,
            multitile: false,
        }
    }
}

impl Default for TileIndex {
    /// The first tile of the tileset `tiles`.
    fn default() -> (r: TileIndex)
        ensures
            r.tileset_name@ == "tiles"@,
            r.tileset_index == 0,
    {
        TileIndex { tileset_name: String::from_str("tiles"), tileset_index: 0 }
    }
}

impl Default for ItemSpawnQueue {
    /// No items waiting.
    fn default() -> (r: ItemSpawnQueue)
        ensures
            r.item_spawn_queue@.len() == 0,
    {
        ItemSpawnQueue { item_spawn_queue: Vec::new() }
    }
}

impl Default for CatItemBundle {
    /// An item at the origin of the map.
    fn default() -> (r: CatItemBundle)
        ensures
            r.pos.x == 0,
            r.pos.y == 0,
            r.item_details.item_id@ == "borkborkborkd"@,
    {
        CatItemBundle {
            pos: Position { x: 0, y: 0 },
            item_details: ItemDetails { item_id: String::from_str("borkborkborkd") },
        }
    }
}

impl Default for CatCharBundle {
    /// A character at (5, 1) with the default looks, wearing a garter belt
    /// and holding an FN FAL, belonging to client 111111.
    fn default() -> (r: CatCharBundle)
        ensures
            r.pos.x == 5,
            r.pos.y == 1,
            r.physical.gender@ == "male"@,
            r.physical.hair_color@ == "brown"@,
            r.physical.hair_style@ == "short"@,
            r.physical.eye_color@ == "gray"@,
            r.physical.skin@ == "pink"@,
            names(r.worn.worn@) == seq!["garter_belt"@],
            names(r.wielded.wielded@) == seq!["fn_fal"@],
            r.player.0 == 111111,
    {
        let mut worn: Vec<String> = Vec::new();
        worn.push(String::from_str("garter_belt"));
        let mut wielded: Vec<String> = Vec::new();
        wielded.push(String::from_str("fn_fal"));
        let r = CatCharBundle {
            pos: Position { x: 5, y: 1 },
            physical: PhysicalCharacteristics::default(),
            worn: WornItems { worn },
            wielded: WieldedItems { wielded },
            player: Player(111111),
        };
        proof {
            assert(names(r.worn.worn@) =~= seq!["garter_belt"@]);
            assert(names(r.wielded.wielded@) =~= seq!["fn_fal"@]);
        }
        r
    }
}

} // verus!
