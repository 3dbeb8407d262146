use rlg::components::{
    CatCharBundle, CatItemBundle, ItemSpawnQueue, ItemToSpawn, MoveDirection,
    PhysicalCharacteristics, Position, SpriteInfo, TileIndex, TilesetGrid, WieldedItems, WornItems,
};
use rlg::systems::{
    attach_clothes, attach_local_player_component, input_system, movement_system, setup,
    spawn_item, spawn_items, spawn_test_map, update_transforms, CCCPlugin, Cli, GameCommand,
    IpAddress, ServerEvent, SpriteLookup,
};
use rlg::tables::{SpriteTable, TileTable, TilesetTable};
use rlg::tiles::{SpriteInfoMap, TileIndexMap, Tilesets};

fn is_spawn(c: &GameCommand, player: u64, local: Option<u64>) -> bool {
    matches!(c, GameCommand::SpawnCharacter { player: p, local: l } if *p == player && *l == local)
}

#[test]
fn single_player_plays_as_the_server_id() {
    let mut cmds = Vec::new();
    CCCPlugin::cli_system(&Cli::SinglePlayer, 123, &mut cmds);
    assert_eq!(cmds.len(), 2);
    assert!(matches!(cmds[0], GameCommand::SetLocalPlayer { id: 0 }));
    assert!(is_spawn(&cmds[1], 0, Some(0)));
}

#[test]
fn a_server_listens_and_spawns_its_player() {
    let mut cmds = vec![GameCommand::SpawnCamera];
    CCCPlugin::cli_system(&Cli::Server { port: 6000 }, 0, &mut cmds);
    assert_eq!(cmds.len(), 4);
    assert!(matches!(cmds[0], GameCommand::SpawnCamera));
    assert!(matches!(cmds[1], GameCommand::StartServer { port: 6000, max_clients: 10, protocol_id: 0 }));
    assert!(matches!(cmds[2], GameCommand::SetLocalPlayer { id: 0 }));
    assert!(is_spawn(&cmds[3], 0, Some(0)));
}

#[test]
fn a_client_is_named_by_the_time() {
    let mut cmds = Vec::new();
    let now: u128 = (1u128 << 64) + 1_700_000_000_123;
    CCCPlugin::cli_system(&Cli::Client { ip: IpAddress::V4(127, 0, 0, 1), port: 5000 }, now, &mut cmds);
    assert_eq!(cmds.len(), 2);
    assert!(matches!(cmds[0], GameCommand::StartClient { ip: IpAddress::V4(127, 0, 0, 1), port: 5000, client_id: 1_700_000_000_123, protocol_id: 0 }));
    assert!(matches!(cmds[1], GameCommand::SetLocalPlayer { id: 1_700_000_000_123 }));
}

#[test]
fn the_default_game_is_single_player() {
    assert!(matches!(Cli::default(), Cli::SinglePlayer));
}

#[test]
fn connected_clients_get_characters() {
    let events = vec![
        ServerEvent::ClientConnected { client_id: 7 },
        ServerEvent::ClientDisconnected { client_id: 7 },
        ServerEvent::ClientConnected { client_id: 9 },
    ];
    let mut cmds = Vec::new();
    CCCPlugin::server_event_system(&events, &mut cmds);
    assert_eq!(cmds.len(), 2);
    assert!(is_spawn(&cmds[0], 7, None));
    assert!(is_spawn(&cmds[1], 9, None));
}

#[test]
fn setup_spawns_a_camera() {
    let mut cmds = Vec::new();
    setup(&mut cmds);
    assert_eq!(cmds.len(), 1);
    assert!(matches!(cmds[0], GameCommand::SpawnCamera));
}

#[test]
fn the_local_character_is_marked() {
    let players = vec![(100u64, 5u64), (101, 6), (102, 5)];
    let mut cmds = Vec::new();
    attach_local_player_component(5, &players, &mut cmds);
    assert_eq!(cmds.len(), 4);
    assert!(matches!(cmds[0], GameCommand::MarkLocalPlayer { entity: 100, id: 5 }));
    assert!(matches!(cmds[1], GameCommand::RemoveLocalPlayerResource));
    assert!(matches!(cmds[2], GameCommand::MarkLocalPlayer { entity: 102, id: 5 }));
    let mut none = Vec::new();
    attach_local_player_component(8, &players, &mut none);
    assert!(none.is_empty());
}

#[test]
fn arrow_keys_make_a_step() {
    let d = input_system(true, false, false, true).unwrap();
    assert_eq!((d.x, d.y), (1, -1));
    let d = input_system(false, true, true, false).unwrap();
    assert_eq!((d.x, d.y), (-1, 1));
    assert!(input_system(true, true, false, false).is_none());
    assert!(input_system(false, false, false, false).is_none());
    assert!(input_system(false, false, true, true).is_none());
}

#[test]
fn characters_move_by_their_owners_events() {
    let events = vec![
        (1u64, MoveDirection { x: 1, y: 0 }),
        (2, MoveDirection { x: 0, y: -1 }),
        (1, MoveDirection { x: 1, y: 1 }),
    ];
    let mut players = vec![(1u64, Position { x: 5, y: 1 }), (2, Position { x: 0, y: 0 }), (3, Position { x: 9, y: 9 })];
    movement_system(&events, &mut players);
    assert_eq!((players[0].0, players[0].1.x, players[0].1.y), (1, 7, 2));
    assert_eq!((players[1].1.x, players[1].1.y), (0, -1));
    assert_eq!((players[2].1.x, players[2].1.y), (9, 9));
}

#[test]
fn moving_in_two_batches_equals_one() {
    let a = vec![(1u64, MoveDirection { x: 2, y: 3 })];
    let b = vec![(1u64, MoveDirection { x: -1, y: 4 }), (2, MoveDirection { x: 5, y: 5 })];
    let mut once = vec![(1u64, Position { x: 0, y: 0 })];
    let mut all = a.iter().map(|(c, m)| (*c, MoveDirection { x: m.x, y: m.y })).collect::<Vec<_>>();
    all.extend(b.iter().map(|(c, m)| (*c, MoveDirection { x: m.x, y: m.y })));
    movement_system(&all, &mut once);
    let mut twice = vec![(1u64, Position { x: 0, y: 0 })];
    movement_system(&a, &mut twice);
    movement_system(&b, &mut twice);
    assert_eq!((once[0].1.x, once[0].1.y), (twice[0].1.x, twice[0].1.y));
    assert_eq!((once[0].1.x, once[0].1.y), (1, 7));
}

#[test]
fn tiles_are_drawn_32_pixels_apart() {
    let r = update_transforms(&vec![Position { x: 5, y: 1 }, Position { x: -2, y: 0 }]);
    assert_eq!(r, vec![(160, 32), (-64, 0)]);
}

fn tables() -> (SpriteInfoMap, TileIndexMap, Tilesets) {
    let mut s = SpriteTable::new();
    s.insert("needle_bone".to_string(), SpriteInfo { sprite_id: "needle_bone".to_string(), fg: 3, bg: -1, rotates: false, multitile: false });
    s.insert("t_concrete".to_string(), SpriteInfo { sprite_id: "t_concrete".to_string(), fg: 4, bg: -1, rotates: false, multitile: false });
    let mut t = TileTable::new();
    t.insert(3, TileIndex { tileset_name: "items".to_string(), tileset_index: 30 });
    t.insert(4, TileIndex { tileset_name: "floor".to_string(), tileset_index: 40 });
    let mut ts = TilesetTable::new();
    ts.insert("items".to_string(), TilesetGrid { columns: 10, rows: 10, tile_width: 32, tile_height: 32 });
    ts.insert("floor".to_string(), TilesetGrid { columns: 10, rows: 10, tile_width: 32, tile_height: 32 });
    (SpriteInfoMap { simap: s }, TileIndexMap { timap: t }, Tilesets { named_tilesets: ts })
}

#[test]
fn items_wait_in_the_queue() {
    let mut queue = ItemSpawnQueue::default().item_spawn_queue;
    spawn_item("rock", 1, 2, &mut queue);
    spawn_item("stick", 3, 4, &mut queue);
    assert_eq!(queue.len(), 2);
    assert_eq!(queue[1].item_id, "stick");
    assert_eq!((queue[1].spawn_pos.x, queue[1].spawn_pos.y), (3, 4));
}

#[test]
fn queued_items_come_out_last_first() {
    let (s, t, ts) = tables();
    let mut queue: Vec<ItemToSpawn> = Vec::new();
    spawn_item("needle_bone", 1, 1, &mut queue);
    spawn_item("mystery", 2, 2, &mut queue);
    let out = spawn_items(&mut queue, &s, &t, &ts);
    assert!(queue.is_empty());
    assert_eq!(out.len(), 2);
    assert_eq!(out[0].item_id, "mystery");
    assert!(matches!(out[0].sprite, SpriteLookup::NoSpriteInfo));
    assert_eq!(out[1].item_id, "needle_bone");
    assert_eq!((out[1].spawn_pos.x, out[1].spawn_pos.y), (1, 1));
    assert!(matches!(&out[1].sprite, SpriteLookup::Found { tileset_name, index: 30 } if tileset_name == "items"));
}

#[test]
fn the_test_map_has_two_needles_and_a_floor() {
    let (s, t, ts) = tables();
    let mut queue: Vec<ItemToSpawn> = Vec::new();
    let plan = spawn_test_map(&mut queue, &s, &t, &ts);
    assert_eq!((plan.width, plan.height), (100, 100));
    assert!(matches!(&plan.floor, SpriteLookup::Found { tileset_name, index: 40 } if tileset_name == "floor"));
    assert_eq!(queue.len(), 2);
    assert_eq!(queue[0].item_id, "needle_bone");
    assert_eq!((queue[0].spawn_pos.x, queue[0].spawn_pos.y), (5, 5));
    assert_eq!((queue[1].spawn_pos.x, queue[1].spawn_pos.y), (7, 7));
}

#[test]
fn a_character_is_dressed_in_layers() {
    let chars = PhysicalCharacteristics::default();
    let worn = WornItems { worn: vec!["garter_belt".to_string(), "hat".to_string()] };
    let wielded = WieldedItems { wielded: vec!["fn_fal".to_string()] };
    let plan = attach_clothes(&chars, &worn, &wielded, &Position { x: 5, y: 1 });
    assert_eq!(
        plan.layers,
        vec![
            "player_male",
            "overlay_male_mutation_SKIN_PINK",
            "overlay_mutation_eye_color_var_gray",
            "overlay_male_mutation_hair_brown_short",
            "overlay_worn_garter_belt",
            "overlay_worn_hat",
            "overlay_wielded_fn_fal",
        ]
    );
    assert_eq!((plan.pixel_x, plan.pixel_y), (160, 32));
    let other = PhysicalCharacteristics {
        gender: "other".to_string(),
        eye_color: "blue".to_string(),
        hair_color: "red".to_string(),
        hair_style: "long".to_string(),
        skin: "tan".to_string(),
    };
    let plan = attach_clothes(&other, &WornItems { worn: vec![] }, &WieldedItems { wielded: vec![] }, &Position { x: 0, y: 0 });
    assert_eq!(plan.layers[0], "overlay_other_mutation_SKIN_TAN");
    assert_eq!(plan.layers.len(), 3);
}

#[test]
fn default_bundles() {
    let c = CatCharBundle::default();
    assert_eq!((c.pos.x, c.pos.y), (5, 1));
    assert_eq!(c.worn.worn, vec!["garter_belt".to_string()]);
    assert_eq!(c.wielded.wielded, vec!["fn_fal".to_string()]);
    assert_eq!(c.player.0, 111111);
    assert_eq!(c.physical.skin, "pink");
    let i = CatItemBundle::default();
    assert_eq!((i.pos.x, i.pos.y), (0, 0));
    assert_eq!(i.item_details.item_id, "borkborkborkd");
    assert!(ItemSpawnQueue::default().item_spawn_queue.is_empty());
}
