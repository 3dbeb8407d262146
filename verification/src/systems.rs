use vstd::prelude::*;

use crate::components::{
    names, ClientId, ItemToSpawn, MoveDirection, PhysicalCharacteristics, Position, SpriteInfoV,
    TileIndexV, TilesetGrid, WieldedItems, WornItems, SERVER_ID,
};
use crate::tables::{
    sprite_table_view, tile_table_view, tileset_table_view,
};
use crate::text::{str_eq, to_uppercase, uppercase};
use crate::tiles::{SpriteInfoMap, TileIndexMap, Tilesets};

verus! {

/// The port a server listens on unless told otherwise.
pub const PORT: u16 = 5000;

/// The protocol id of the game's network connections.
pub const PROTOCOL_ID: u64 = 0;

/// The most clients a server takes.
pub const MAX_CLIENTS: usize = 10;

/// The size of one tile on the screen, in pixels.
pub const TILE_PIXELS: i32 = 32;

/// An entity, by the bits of its id.
pub type EntityId = u64;

/// An IP address.
pub enum IpAddress {
    V4(u8, u8, u8, u8),
    V6(u16, u16, u16, u16, u16, u16, u16, u16),
}

/// What a change of the game world, asked for by a system, does.
pub enum GameCommand {
    /// Spawn a 2D camera.
    SpawnCamera,
    /// Start a server on `port` of the local machine.
    StartServer { port: u16, max_clients: usize, protocol_id: u64 },
    /// Connect as client `client_id` to the server at `ip`:`port`.
    StartClient { ip: IpAddress, port: u16, client_id: ClientId, protocol_id: u64 },
    /// Remember `id` as the player at this machine.
    SetLocalPlayer { id: ClientId },
    /// Spawn a character for `player`, marked as the local one with `local`.
    SpawnCharacter { player: ClientId, local: Option<ClientId> },
    /// Mark `entity` as the character of the local player `id`.
    MarkLocalPlayer { entity: EntityId, id: ClientId },
    /// Forget the local player id, its character being found.
    RemoveLocalPlayerResource,
}

/// How the game is started.
pub enum Cli {
    SinglePlayer,
    Server { port: u16 },
    Client { ip: IpAddress, port: u16 },
}

impl Default for Cli {
    /// A single-player game.
    fn default() -> (r: Cli)
        ensures
            r is SinglePlayer,
    {
        Cli::SinglePlayer
    }
}

/// What the network layer reports to a server.
pub enum ServerEvent {
    ClientConnected { client_id: ClientId },
    ClientDisconnected { client_id: ClientId },
}

/// The game's plugin: the decisions of its systems that set up the network.
pub struct CCCPlugin;

impl CCCPlugin {
    /// Sets up the game as the command line asks: a single-player game and a
    /// server both play as `SERVER_ID` and spawn that player's character; a
    /// client connects as the id made of the current time in milliseconds
    /// (cut to 64 bits) and waits for its character from the server.
    pub fn cli_system(cli: &Cli, now_millis: u128, commands: &mut Vec<GameCommand>)
        ensures
            final(commands)@ == old(commands)@ + match *cli {
                Cli::SinglePlayer => seq![
                    GameCommand::SetLocalPlayer { id: SERVER_ID },
                    GameCommand::SpawnCharacter { player: SERVER_ID, local: Some(0) },
                ],
                Cli::Server { port } => seq![
                    GameCommand::StartServer {
                        port,
                        max_clients: MAX_CLIENTS,
                        protocol_id: PROTOCOL_ID,
                    },
                    GameCommand::SetLocalPlayer { id: SERVER_ID },
                    GameCommand::SpawnCharacter { player: SERVER_ID, local: Some(0) },
                ],
                Cli::Client { ip, port } => seq![
                    GameCommand::StartClient {
                        ip,
                        port,
                        client_id: (now_millis % 0x1_0000_0000_0000_0000) as u64,
                        protocol_id: PROTOCOL_ID,
                    },
                    GameCommand::SetLocalPlayer {
                        id: (now_millis % 0x1_0000_0000_0000_0000) as u64,
                    },
                ],
            },
    {
        let ghost before = commands@;
        match cli {
            Cli::SinglePlayer => {
                commands.push(GameCommand::SetLocalPlayer { id: SERVER_ID });
                commands.push(GameCommand::SpawnCharacter { player: SERVER_ID, local: Some(0) });
            },
            Cli::Server { port } => {
                commands.push(
                    GameCommand::StartServer {
                        port: *port,
                        max_clients: MAX_CLIENTS,
                        protocol_id: PROTOCOL_ID,
                    },
                );
                commands.push(GameCommand::SetLocalPlayer { id: SERVER_ID });
                commands.push(GameCommand::SpawnCharacter { player: SERVER_ID, local: Some(0) });
            },
            Cli::Client { ip, port } => {
                let client_id = (now_millis % 0x1_0000_0000_0000_0000u128) as u64;
                let ip2 = match ip {
                    IpAddress::V4(a, b, c, d) => IpAddress::V4(*a, *b, *c, *d),
                    IpAddress::V6(a, b, c, d, e, f, g, h) => IpAddress::V6(
                        *a,
                        *b,
                        *c,
                        *d,
                        *e,
                        *f,
                        *g,
                        *h,
                    ),
                };
                commands.push(
                    GameCommand::StartClient {
                        ip: ip2,
                        port: *port,
                        client_id,
                        protocol_id: PROTOCOL_ID,
                    },
                );
                commands.push(GameCommand::SetLocalPlayer { id: client_id });
            },
        }
        proof {
            assert(commands@ =~= before + match *cli {
                Cli::SinglePlayer => seq![
                    GameCommand::SetLocalPlayer { id: SERVER_ID },
                    GameCommand::SpawnCharacter { player: SERVER_ID, local: Some(0) },
                ],
                Cli::Server { port } => seq![
                    GameCommand::StartServer {
                        port,
                        max_clients: MAX_CLIENTS,
                        protocol_id: PROTOCOL_ID,
                    },
                    GameCommand::SetLocalPlayer { id: SERVER_ID },
                    GameCommand::SpawnCharacter { player: SERVER_ID, local: Some(0) },
                ],
                Cli::Client { ip, port } => seq![
                    GameCommand::StartClient {
                        ip,
                        port,
                        client_id: (now_millis % 0x1_0000_0000_0000_0000) as u64,
                        protocol_id: PROTOCOL_ID,
                    },
                    GameCommand::SetLocalPlayer {
                        id: (now_millis % 0x1_0000_0000_0000_0000) as u64,
                    },
                ],
            });
        }
    }

    /// Spawns a character for each client that connects, in order.
    pub fn server_event_system(events: &Vec<ServerEvent>, commands: &mut Vec<GameCommand>)
        ensures
            final(commands)@ == old(commands)@ + connected_spawns(events@),
    {
        let ghost before = commands@;
        let mut i: usize = 0;
        while i < events.len()
            invariant
                i <= events.len(),
                commands@ == before + connected_spawns(events@.take(i as int)),
            decreases events.len() - i,
        {
            proof {
                assert(events@.take(i + 1).drop_last() =~= events@.take(i as int));
            }
            match &events[i] {
                ServerEvent::ClientConnected { client_id } => {
                    commands.push(GameCommand::SpawnCharacter { player: *client_id, local: None });
                    proof {
                        assert(commands@ =~= before + connected_spawns(events@.take(i + 1)));
                    }
                },
                ServerEvent::ClientDisconnected { .. } => {
                    proof {
                        assert(commands@ =~= before + connected_spawns(events@.take(i + 1)));
                    }
                },
            }
            i = i + 1;
        }
        proof {
            assert(events@.take(events.len() as int) =~= events@);
        }
    }
}

/// A character spawned for each `ClientConnected` event, in order.
pub open spec fn connected_spawns(events: Seq<ServerEvent>) -> Seq<GameCommand>
    decreases events.len(),
{
    if events.len() == 0 {
        Seq::empty()
    } else {
        connected_spawns(events.drop_last()) + match events.last() {
            ServerEvent::ClientConnected { client_id } => seq![
                GameCommand::SpawnCharacter { player: client_id, local: None },
            ],
            ServerEvent::ClientDisconnected { .. } => Seq::empty(),
        }
    }
}

/// Spawns the camera.
pub fn setup(commands: &mut Vec<GameCommand>)
    ensures
        final(commands)@ == old(commands)@.push(GameCommand::SpawnCamera),
{
    commands.push(GameCommand::SpawnCamera);
}

/// Marks each character of the local player `local_id` (given as entity and
/// owner) as the local one, and then forgets the local player id.
pub fn attach_local_player_component(
    local_id: ClientId,
    players: &Vec<(EntityId, ClientId)>,
    commands: &mut Vec<GameCommand>,
)
    ensures
        final(commands)@ == old(commands)@ + local_marks(local_id, players@),
{
    let ghost before = commands@;
    let mut i: usize = 0;
    while i < players.len()
        invariant
            i <= players.len(),
            commands@ == before + local_marks(local_id, players@.take(i as int)),
        decreases players.len() - i,
    {
        proof {
            assert(players@.take(i + 1).drop_last() =~= players@.take(i as int));
        }
        let (e, p) = players[i];
        if p == local_id {
            commands.push(GameCommand::MarkLocalPlayer { entity: e, id: local_id });
            commands.push(GameCommand::RemoveLocalPlayerResource);
        }
        proof {
            assert(commands@ =~= before + local_marks(local_id, players@.take(i + 1)));
        }
        i = i + 1;
    }
    proof {
        assert(players@.take(players.len() as int) =~= players@);
    }
}

/// For each character of player `id`, in order: mark it, forget the id.
pub open spec fn local_marks(id: ClientId, players: Seq<(EntityId, ClientId)>) -> Seq<GameCommand>
    decreases players.len(),
{
    if players.len() == 0 {
        Seq::empty()
    } else {
        local_marks(id, players.drop_last()) + if players.last().1 == id {
            seq![
                GameCommand::MarkLocalPlayer { entity: players.last().0, id },
                GameCommand::RemoveLocalPlayerResource,
            ]
        } else {
            Seq::empty()
        }
    }
}

/// The step the arrow keys pressed in this frame ask for: right and up
/// count +1, left and down -1; `None` where they cancel out.
pub fn input_system(right: bool, left: bool, up: bool, down: bool) -> (r: Option<MoveDirection>)
    ensures
        ({
            let x = (if right { 1int } else { 0 }) - (if left { 1int } else { 0 });
            let y = (if up { 1int } else { 0 }) - (if down { 1int } else { 0 });
            match r {
                Some(d) => (x != 0 || y != 0) && d.x == x && d.y == y,
                None => x == 0 && y == 0,
            }
        }),
{
    let mut direction = MoveDirection::zero();
    if right {
        direction.x = direction.x + 1;
    }
    if left {
        direction.x = direction.x - 1;
    }
    if up {
        direction.y = direction.y + 1;
    }
    if down {
        direction.y = direction.y - 1;
    }
    if direction.x != 0 || direction.y != 0 {
        Some(direction)
    } else {
        None
    }
}

/// How far the events of client `id` move its characters, along x and y.
pub open spec fn displacement(events: Seq<(ClientId, MoveDirection)>, id: ClientId) -> (int, int)
    decreases events.len(),
{
    if events.len() == 0 {
        (0, 0)
    } else {
        let d = displacement(events.drop_last(), id);
        let (c, m) = events.last();
        if c == id {
            (d.0 + m.x, d.1 + m.y)
        } else {
            d
        }
    }
}

/// No position leaves the `i32` range while the events are applied.
pub open spec fn moves_fit(events: Seq<(ClientId, MoveDirection)>, players: Seq<(ClientId, Position)>) -> bool {
    forall|i: int, k: int|
        0 <= i < players.len() && 0 <= k <= events.len() ==> {
            let d = #[trigger] displacement(events.take(k), players[i].0);
            &&& i32::MIN <= players[i].1.x + d.0 <= i32::MAX
            &&& i32::MIN <= players[i].1.y + d.1 <= i32::MAX
        }
}

/// Moves each character (given as owner and position) by the steps its
/// owner asked for, the events taken in order.
pub fn movement_system(events: &Vec<(ClientId, MoveDirection)>, players: &mut Vec<(ClientId, Position)>)
    requires
        moves_fit(events@, old(players)@),
    ensures
        final(players)@.len() == old(players)@.len(),
        forall|i: int|
            0 <= i < old(players)@.len() ==> {
                let d = displacement(events@, old(players)@[i].0);
                &&& (#[trigger] final(players)@[i]).0 == old(players)@[i].0
                &&& final(players)@[i].1.x == old(players)@[i].1.x + d.0
                &&& final(players)@[i].1.y == old(players)@[i].1.y + d.1
            },
{
    let ghost p0 = players@;
    let mut k: usize = 0;
    while k < events.len()
        invariant
            k <= events.len(),
            moves_fit(events@, p0),
            players@.len() == p0.len(),
            forall|i: int|
                0 <= i < p0.len() ==> {
                    let d = displacement(events@.take(k as int), p0[i].0);
                    &&& (#[trigger] players@[i]).0 == p0[i].0
                    &&& players@[i].1.x == p0[i].1.x + d.0
                    &&& players@[i].1.y == p0[i].1.y + d.1
                },
        decreases events.len() - k,
    {
        let (client, ev) = (events[k].0, MoveDirection { x: events[k].1.x, y: events[k].1.y });
        proof {
            assert(events@.take(k + 1).drop_last() =~= events@.take(k as int));
        }
        let mut i: usize = 0;
        while i < players.len()
            invariant
                k < events.len(),
                client == events@[k as int].0,
                ev.x == events@[k as int].1.x,
                ev.y == events@[k as int].1.y,
                i <= players@.len(),
                moves_fit(events@, p0),
                players@.len() == p0.len(),
                forall|j: int|
                    i <= j < p0.len() ==> {
                        let d = displacement(events@.take(k as int), p0[j].0);
                        &&& (#[trigger] players@[j]).0 == p0[j].0
                        &&& players@[j].1.x == p0[j].1.x + d.0
                        &&& players@[j].1.y == p0[j].1.y + d.1
                    },
                forall|j: int|
                    0 <= j < i ==> {
                        let d = displacement(events@.take(k + 1), p0[j].0);
                        &&& (#[trigger] players@[j]).0 == p0[j].0
                        &&& players@[j].1.x == p0[j].1.x + d.0
                        &&& players@[j].1.y == p0[j].1.y + d.1
                    },
            decreases p0.len() - i,
        {
            let (owner, x, y) = (players[i].0, players[i].1.x, players[i].1.y);
            proof {
                assert(events@.take(k + 1).drop_last() =~= events@.take(k as int));
                assert(events@.take(k + 1).last() == events@[k as int]);
            }
            if owner == client {
                proof {
                    let d = displacement(events@.take(k + 1), p0[i as int].0);
                    assert(d == displacement(events@.take(k + 1), p0[i as int].0));
                    assert(i32::MIN <= p0[i as int].1.x + d.0 <= i32::MAX);
                    assert(i32::MIN <= p0[i as int].1.y + d.1 <= i32::MAX);
                }
                players.set(i, (owner, Position { x: x + ev.x, y: y + ev.y }));
            }
            i = i + 1;
        }
        k = k + 1;
    }
    proof {
        assert(events@.take(events.len() as int) =~= events@);
    }
}

/// Moving by two lists of events one after the other moves as far as
/// moving by both at once.
pub proof fn law_moves_compose(
    a: Seq<(ClientId, MoveDirection)>,
    b: Seq<(ClientId, MoveDirection)>,
    id: ClientId,
)
    ensures
        displacement(a + b, id) == (displacement(a, id).0 + displacement(b, id).0, displacement(
            a,
            id,
        ).1 + displacement(b, id).1),
    decreases b.len(),
{
    if b.len() == 0 {
        assert(a + b =~= a);
    } else {
        assert((a + b).drop_last() =~= a + b.drop_last());
        law_moves_compose(a, b.drop_last(), id);
    }
}

/// The events of one client move no character of another client.
pub proof fn law_other_clients_unmoved(events: Seq<(ClientId, MoveDirection)>, id: ClientId)
    requires
        forall|i: int| 0 <= i < events.len() ==> (#[trigger] events[i]).0 != id,
    ensures
        displacement(events, id) == (0int, 0int),
    decreases events.len(),
{
    if events.len() > 0 {
        assert forall|i: int| 0 <= i < events.len() - 1 implies (#[trigger] events.drop_last()[i]).0 != id by {
            assert(events.drop_last()[i] == events[i]);
        }
        law_other_clients_unmoved(events.drop_last(), id);
        assert(events[events.len() - 1].0 != id);
    }
}

/// Where a tile position is drawn, in pixels.
pub open spec fn pixel_of(p: Position) -> (int, int) {
    (p.x * TILE_PIXELS, p.y * TILE_PIXELS)
}

/// The position is drawn within the `i32` range.
pub open spec fn pixel_fits(p: Position) -> bool {
    &&& i32::MIN <= p.x * TILE_PIXELS <= i32::MAX
    &&& i32::MIN <= p.y * TILE_PIXELS <= i32::MAX
}

/// Where each tile position is drawn, in pixels.
pub fn update_transforms(positions: &Vec<Position>) -> (r: Vec<(i32, i32)>)
    requires
        forall|i: int| 0 <= i < positions@.len() ==> pixel_fits(#[trigger] positions@[i]),
    ensures
        r@.len() == positions@.len(),
        forall|i: int|
            0 <= i < positions@.len() ==> (#[trigger] r@[i]).0 == pixel_of(positions@[i]).0
                && r@[i].1 == pixel_of(positions@[i]).1,
{
    let mut out: Vec<(i32, i32)> = Vec::new();
    let mut i: usize = 0;
    while i < positions.len()
        invariant
            i <= positions.len(),
            forall|j: int| 0 <= j < positions@.len() ==> pixel_fits(#[trigger] positions@[j]),
            out@.len() == i,
            forall|j: int|
                0 <= j < i ==> (#[trigger] out@[j]).0 == pixel_of(positions@[j]).0 && out@[j].1
                    == pixel_of(positions@[j]).1,
        decreases positions.len() - i,
    {
        assert(pixel_fits(positions@[i as int]));
        let p = &positions[i];
        out.push((p.x * TILE_PIXELS, p.y * TILE_PIXELS));
        i = i + 1;
    }
    out
}

/// What drawing a sprite id comes to: the tileset and index of its
/// foreground tile, or the first thing that is missing on the way.
pub enum SpriteLookup {
    NoSpriteInfo,
    NoTileInfo,
    NoTileset,
    Found { tileset_name: String, index: usize },
}

/// `r` is what drawing `a` comes to with the given tables.
pub open spec fn sprite_lookup(
    a: Seq<char>,
    s: Map<Seq<char>, SpriteInfoV>,
    t: Map<i32, TileIndexV>,
    ts: Map<Seq<char>, TilesetGrid>,
    r: SpriteLookup,
) -> bool {
    if !s.dom().contains(a) {
        r is NoSpriteInfo
    } else if !t.dom().contains(s[a].fg) {
        r is NoTileInfo
    } else if !ts.dom().contains(t[s[a].fg].tileset_name) {
        r is NoTileset
    } else {
        match r {
            SpriteLookup::Found { tileset_name, index } => tileset_name@ == t[s[a].fg].tileset_name
                && index == t[s[a].fg].tileset_index as usize,
            _ => false,
        }
    }
}

/// Finds how sprite `article` is drawn: its sprite info gives its
/// foreground tile number, the tile number gives a tileset and an index.
pub fn attach_sprite(
    article: &str,
    spriteinfores: &SpriteInfoMap,
    tileindexres: &TileIndexMap,
    tilesetsres: &Tilesets,
) -> (r: SpriteLookup)
    ensures
        sprite_lookup(
            article@,
            sprite_table_view(spriteinfores.simap),
            tile_table_view(tileindexres.timap),
            tileset_table_view(tilesetsres.named_tilesets),
            r,
        ),
{
    let info = match spriteinfores.simap.get(article) {
        Some(i) => i,
        None => return SpriteLookup::NoSpriteInfo,
    };
    let tile = match tileindexres.timap.get(info.fg) {
        Some(t) => t,
        None => return SpriteLookup::NoTileInfo,
    };
    match tilesetsres.named_tilesets.get(tile.tileset_name.as_str()) {
        Some(_) => SpriteLookup::Found {
            tileset_name: tile.tileset_name.clone(),
            index: tile.tileset_index as usize,
        },
        None => SpriteLookup::NoTileset,
    }
}

/// Puts item `item_id` at (`item_x`, `item_y`) at the end of the queue.
pub fn spawn_item(item_id: &str, item_x: i32, item_y: i32, queue: &mut Vec<ItemToSpawn>)
    ensures
        final(queue)@.len() == old(queue)@.len() + 1,
        forall|i: int| 0 <= i < old(queue)@.len() ==> #[trigger] final(queue)@[i] == old(queue)@[i],
        final(queue)@.last().item_id@ == item_id@,
        final(queue)@.last().spawn_pos.x == item_x,
        final(queue)@.last().spawn_pos.y == item_y,
{
    queue.push(
        ItemToSpawn {
            item_id: String::from_str(item_id),
            spawn_pos: Position { x: item_x, y: item_y },
        },
    );
}

/// An item to put on the map, with how it is drawn.
pub struct ItemSpawn {
    pub item_id: String,
    pub spawn_pos: Position,
    pub sprite: SpriteLookup,
}

/// Takes every waiting item off the queue, the last one first, each with how
/// it is drawn.
pub fn spawn_items(
    itemspawnqueue: &mut Vec<ItemToSpawn>,
    spriteinfores: &SpriteInfoMap,
    tileindexres: &TileIndexMap,
    tilesetsres: &Tilesets,
) -> (r: Vec<ItemSpawn>)
    ensures
        final(itemspawnqueue)@.len() == 0,
        r@.len() == old(itemspawnqueue)@.len(),
        forall|i: int|
            0 <= i < r@.len() ==> {
                let q = old(itemspawnqueue)@[old(itemspawnqueue)@.len() - 1 - i];
                &&& (#[trigger] r@[i]).item_id@ == q.item_id@
                &&& r@[i].spawn_pos.x == q.spawn_pos.x
                &&& r@[i].spawn_pos.y == q.spawn_pos.y
                &&& sprite_lookup(
                    q.item_id@,
                    sprite_table_view(spriteinfores.simap),
                    tile_table_view(tileindexres.timap),
                    tileset_table_view(tilesetsres.named_tilesets),
                    r@[i].sprite,
                )
            },
{
    let ghost q0 = itemspawnqueue@;
    let mut out: Vec<ItemSpawn> = Vec::new();
    while itemspawnqueue.len() > 0
        invariant
            itemspawnqueue@ == q0.take(itemspawnqueue@.len() as int),
            itemspawnqueue@.len() <= q0.len(),
            out@.len() == q0.len() - itemspawnqueue@.len(),
            forall|i: int|
                0 <= i < out@.len() ==> {
                    let q = q0[q0.len() - 1 - i];
                    &&& (#[trigger] out@[i]).item_id@ == q.item_id@
                    &&& out@[i].spawn_pos.x == q.spawn_pos.x
                    &&& out@[i].spawn_pos.y == q.spawn_pos.y
                    &&& sprite_lookup(
                        q.item_id@,
                        sprite_table_view(spriteinfores.simap),
                        tile_table_view(tileindexres.timap),
                        tileset_table_view(tilesetsres.named_tilesets),
                        out@[i].sprite,
                    )
                },
        decreases itemspawnqueue@.len(),
    {
        let ghost n = itemspawnqueue@.len();
        let x = itemspawnqueue.pop().unwrap();
        proof {
            assert(x == q0[n - 1]);
            assert(itemspawnqueue@ =~= q0.take(n - 1));
        }
        let sprite = attach_sprite(x.item_id.as_str(), spriteinfores, tileindexres, tilesetsres);
        out.push(ItemSpawn { item_id: x.item_id, spawn_pos: x.spawn_pos, sprite });
    }
    out
}

/// The test map: the floor tile drawn on each of its cells, and its size.
pub struct TestMapPlan {
    pub floor: SpriteLookup,
    pub width: i32,
    pub height: i32,
}

/// Lays out the test map: two bone needles wait to be put at (5, 5) and
/// (7, 7), and a 100 by 100 floor of concrete is drawn.
pub fn spawn_test_map(
    itemspawnqueue: &mut Vec<ItemToSpawn>,
    spriteinfores: &SpriteInfoMap,
    tileindexres: &TileIndexMap,
    tilesetsres: &Tilesets,
) -> (r: TestMapPlan)
    ensures
        final(itemspawnqueue)@.len() == old(itemspawnqueue)@.len() + 2,
        forall|i: int|
            0 <= i < old(itemspawnqueue)@.len() ==> #[trigger] final(itemspawnqueue)@[i] == old(
                itemspawnqueue,
            )@[i],
        final(itemspawnqueue)@[old(itemspawnqueue)@.len() as int].item_id@ == "needle_bone"@,
        final(itemspawnqueue)@[old(itemspawnqueue)@.len() as int].spawn_pos.x == 5,
        final(itemspawnqueue)@[old(itemspawnqueue)@.len() as int].spawn_pos.y == 5,
        final(itemspawnqueue)@[old(itemspawnqueue)@.len() + 1int].item_id@ == "needle_bone"@,
        final(itemspawnqueue)@[old(itemspawnqueue)@.len() + 1int].spawn_pos.x == 7,
        final(itemspawnqueue)@[old(itemspawnqueue)@.len() + 1int].spawn_pos.y == 7,
        r.width == 100,
        r.height == 100,
        sprite_lookup(
            "t_concrete"@,
            sprite_table_view(spriteinfores.simap),
            tile_table_view(tileindexres.timap),
            tileset_table_view(tilesetsres.named_tilesets),
            r.floor,
        ),
{
    spawn_item("needle_bone", 5, 5, itemspawnqueue);
    spawn_item("needle_bone", 7, 7, itemspawnqueue);
    let floor = attach_sprite("t_concrete", spriteinfores, tileindexres, tilesetsres);
    TestMapPlan { floor, width: 100, height: 100 }
}

/// The sprite layers of a character, bottom first: the body (for a female
/// or male character), skin, eye color and hair, then each worn item, then
/// each wielded item.
pub open spec fn clothing_layers(
    gender: Seq<char>,
    eye_color: Seq<char>,
    hair_color: Seq<char>,
    hair_style: Seq<char>,
    skin: Seq<char>,
    worn: Seq<Seq<char>>,
    wielded: Seq<Seq<char>>,
) -> Seq<Seq<char>> {
    let body = (if gender == "female"@ {
        seq!["player_female"@]
    } else {
        Seq::empty()
    }) + (if gender == "male"@ {
        seq!["player_male"@]
    } else {
        Seq::empty()
    });
    body + seq![
        "overlay_"@ + gender + "_mutation_SKIN_"@ + uppercase(skin),
        "overlay_mutation_eye_color_var_"@ + eye_color,
        "overlay_"@ + gender + "_mutation_hair_"@ + hair_color + "_"@ + hair_style,
    ] + worn.map_values(|w: Seq<char>| "overlay_worn_"@ + w) + wielded.map_values(
        |w: Seq<char>| "overlay_wielded_"@ + w,
    )
}

/// The sprite layers of a character and where it is drawn.
pub struct ClothingPlan {
    pub layers: Vec<String>,
    pub pixel_x: i32,
    pub pixel_y: i32,
}

/// `out` with `prefix` + each of `items` appended.
pub fn push_prefixed(out: &mut Vec<String>, prefix: &str, items: &Vec<String>)
    ensures
        names(final(out)@) == names(old(out)@) + names(items@).map_values(
            |w: Seq<char>| prefix@ + w,
        ),
{
    let ghost o0 = names(out@);
    let mut i: usize = 0;
    while i < items.len()
        invariant
            i <= items.len(),
            names(out@) == o0 + names(items@).take(i as int).map_values(|w: Seq<char>| prefix@ + w),
        decreases items.len() - i,
    {
        let s = String::from_str(prefix).concat(items[i].as_str());
        let ghost before = out@;
        out.push(s);
        proof {
            assert(names(out@) =~= names(before).push(s@));
            assert(names(items@).take(i + 1).map_values(|w: Seq<char>| prefix@ + w) =~= names(
                items@,
            ).take(i as int).map_values(|w: Seq<char>| prefix@ + w).push(prefix@ + items@[i as int]@));
        }
        i = i + 1;
    }
    proof {
        assert(names(items@).take(items.len() as int) =~= names(items@));
    }
}

/// The sprite layers of a character (see `clothing_layers`) and where it is
/// drawn, in pixels.
pub fn attach_clothes(
    chars: &PhysicalCharacteristics,
    worn: &WornItems,
    wielded: &WieldedItems,
    pos: &Position,
) -> (r: ClothingPlan)
    requires
        pixel_fits(*pos),
    ensures
        names(r.layers@) == clothing_layers(
            chars.gender@,
            chars.eye_color@,
            chars.hair_color@,
            chars.hair_style@,
            chars.skin@,
            names(worn.worn@),
            names(wielded.wielded@),
        ),
        r.pixel_x == pixel_of(*pos).0,
        r.pixel_y == pixel_of(*pos).1,
        chars.gender@ == "female"@ ==> r.layers@.len() == 4 + worn.worn@.len()
            + wielded.wielded@.len() && r.layers@[0]@ == "player_female"@,
        chars.gender@ == "male"@ ==> r.layers@.len() == 4 + worn.worn@.len()
            + wielded.wielded@.len() && r.layers@[0]@ == "player_male"@,
        chars.gender@ != "female"@ && chars.gender@ != "male"@ ==> r.layers@.len() == 3
            + worn.worn@.len() + wielded.wielded@.len(),
{
    let mut layers: Vec<String> = Vec::new();
    if str_eq(chars.gender.as_str(), "female") {
        layers.push(String::from_str("player_female"));
    }
    if str_eq(chars.gender.as_str(), "male") {
        layers.push(String::from_str("player_male"));
    }
    let eye_color = String::from_str("overlay_mutation_eye_color_var_").concat(chars.eye_color.as_str());
    let hair = String::from_str("overlay_").concat(chars.gender.as_str()).concat("_mutation_hair_").concat(
        chars.hair_color.as_str(),
    ).concat("_").concat(chars.hair_style.as_str());
    let upper = to_uppercase(chars.skin.as_str());
    let skin = String::from_str("overlay_").concat(chars.gender.as_str()).concat("_mutation_SKIN_").concat(
        upper.as_str(),
    );
    let ghost body = names(layers@);
    layers.push(skin);
    layers.push(eye_color);
    layers.push(hair);
    proof {
        assert(names(layers@) =~= body + seq![
            "overlay_"@ + chars.gender@ + "_mutation_SKIN_"@ + uppercase(chars.skin@),
            "overlay_mutation_eye_color_var_"@ + chars.eye_color@,
            "overlay_"@ + chars.gender@ + "_mutation_hair_"@ + chars.hair_color@ + "_"@ + chars.hair_style@,
        ]);
    }
    push_prefixed(&mut layers, "overlay_worn_", &worn.worn);
    push_prefixed(&mut layers, "overlay_wielded_", &wielded.wielded);
    proof {
        let g = chars.gender@;
        let b = (if g == "female"@ {
            seq!["player_female"@]
        } else {
            Seq::empty()
        }) + (if g == "male"@ {
            seq!["player_male"@]
        } else {
            Seq::empty()
        });
        assert(body =~= b);
        law_body_layer_first(
            chars.gender@,
            chars.eye_color@,
            chars.hair_color@,
            chars.hair_style@,
            chars.skin@,
            names(worn.worn@),
            names(wielded.wielded@),
        );
    }
    ClothingPlan { layers, pixel_x: pos.x * TILE_PIXELS, pixel_y: pos.y * TILE_PIXELS }
}


/// A character is drawn first with its body: a female one as
/// `player_female`, a male one as `player_male`, and one of another gender
/// with no body layer; then skin, eyes and hair, then one layer for each
/// worn and each wielded item.
pub proof fn law_body_layer_first(
    gender: Seq<char>,
    eye_color: Seq<char>,
    hair_color: Seq<char>,
    hair_style: Seq<char>,
    skin: Seq<char>,
    worn: Seq<Seq<char>>,
    wielded: Seq<Seq<char>>,
)
    ensures
        gender == "female"@ ==> clothing_layers(
            gender,
            eye_color,
            hair_color,
            hair_style,
            skin,
            worn,
            wielded,
        ).len() == 4 + worn.len() + wielded.len() && clothing_layers(
            gender,
            eye_color,
            hair_color,
            hair_style,
            skin,
            worn,
            wielded,
        )[0] == "player_female"@,
        gender == "male"@ ==> clothing_layers(
            gender,
            eye_color,
            hair_color,
            hair_style,
            skin,
            worn,
            wielded,
        ).len() == 4 + worn.len() + wielded.len() && clothing_layers(
            gender,
            eye_color,
            hair_color,
            hair_style,
            skin,
            worn,
            wielded,
        )[0] == "player_male"@,
        gender != "female"@ && gender != "male"@ ==> clothing_layers(
            gender,
            eye_color,
            hair_color,
            hair_style,
            skin,
            worn,
            wielded,
        ).len() == 3 + worn.len() + wielded.len() && clothing_layers(
            gender,
            eye_color,
            hair_color,
            hair_style,
            skin,
            worn,
            wielded,
        )[0] == "overlay_"@ + gender + "_mutation_SKIN_"@ + uppercase(skin),
{
    reveal_strlit("female");
    reveal_strlit("male");
    assert("female"@.len() != "male"@.len());
}

} // verus!
