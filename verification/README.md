# world_server

A game-world server, split into a verified library (`src/`) and the program
around it (`app/`).

`src/`, verified with Verus:

- `level::world` — the world buffer: writes, diffs that report what changed since
  the last diff, packets built from a diff, and the entity-slot bookkeeping.
- `prefabs` — entity templates that pack named attribute values into 16-bit
  cells and unpack them again; `prefabs::layout` holds the bit-level model and
  the proof that unpacking after packing in the same field order gives the
  values back.
- `level` — a level: its world and the players placed in it.
- `server::connection`, `server::network`, `server` — the connection table, the
  decision taken for each socket message, and the work orders it produces.
- `messages::client` — client messages and the table of message handlers.
- `tables` — the `hashbrown` hash tables the library keeps, each behind a few
  trusted wrappers that state what the table holds.

`app/` — the tokio program: listening for websocket connections, the order
runners, the tick loop, and the asynchronous message handlers.

`tests/` — tests of the library's behaviour on concrete values.
