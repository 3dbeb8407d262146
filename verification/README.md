# rlg

A tile-based roguelike built on bevy. The library `rlg` holds the game's
rules and data handling, proved with Verus; `app/` is the bevy program
around it.

- `src/json.rs`: JSON values as the data files hold them, with a model
  (`JsonV`) and verified object operations.
- `src/inherit.rs`: how an item definition inherits from the one it names in
  `copy-from` (`extend`, `delete`, `relative`, own entries), with its laws.
- `src/resolve.rs`: the passes that resolve every `copy-from` of the item
  table, with their laws.
- `src/catalog.rs`: reading the item data files into the item table and the
  list of JSON flags.
- `src/tiles.rs`: reading the tile configuration: tile numbers, sprites and
  tileset images.
- `src/systems.rs`: the decisions of the game's systems (network setup,
  players, movement, item spawning, dressing characters), as commands and
  plans that the program carries out.
- `src/components.rs`: the game's components with their defaults.
- `src/tables.rs`: the hash tables the game keeps, with what they hold
  named by spec functions.
- `src/text.rs`: white space, words and integers as std reads them.

`app/` reads the files, parses JSON, talks to the network and draws; it
hands the library plain values and carries out what it returns.
