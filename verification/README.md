# mildew_valley

Mildew Valley is a casual farming game built on the umwelt region
simulation: farmers walk, plant lettuce that ripens on a timer, and crowd
into knots that the client collapses into badges. This crate holds the
game's rules and bookkeeping, each stated as a contract and proved with
Verus, and the programs that run them.

What the library cannot prove it states and trusts: each call into the
umwelt engine, into postcard and into the clock sits behind a small item
whose contract says what that crate's source shows, and the proofs rest on
those contracts. A tick's effects on the world (who is planted where and
where each walker ends up) are proved over what those items say the engine
holds, and so is the tag each crop should show, which the tick returns. The
umwelt release this builds on has no call that sets an entity's tag, so the
region server keeps those tags but cannot publish them: clients see crops
planted, not ripening. What the clock reads is left open: the meter's
interval rule is proved for every reading.

## Layout

- `src/` — the library, verified.
  - `terrain` — the ground: roads, fields, ponds and scenery as pure
    functions of a tile's coordinates.
  - `pace`, `tags` — how fast things happen and what a tag means.
  - `command`, `wire` — what a client asks of the simulation, and the
    postcard bytes it travels in; `envelope` — a message addressed to the
    entity it speaks for.
  - `phased`, `prefab` — entities that step through tags on a timer, and the
    dense store that tracks them.
  - `engine`, `game` — the trusted calls into the simulation engine, and
    the game's tick, proved over them: commands, walking, growth.
  - `world`, `crowd`, `figure` — what a client keeps, which cells hold a
    crowd and carry a badge, and how a figure is drawn.
  - `pixels` — compositing, recoloring, cropping, and packing the sprite
    atlas.
  - `meter`, `cadence`, `loadgen`, `clock` — tick accounting, update cadence,
    the load generator's generator and report.
- `tests/` — tests of the library on concrete values.
- `app/` — the programs: `mildew sim`, `edge`, `client`, `load` and
  `cadence`. They read the network, the clock and the screen, and hand the
  library plain values.

## Running

Start `nats-server`, then `mildew sim`, then `mildew edge`, then
`mildew client`. Every default lines up on one machine. `wasd` walks, `tab`
hides the telemetry panel, `-` and `=` size the interface.

## Dependencies

Besides the crates the game is built on (umwelt, postcard, async-nats,
tokio, quinn, rcgen, macroquad, egui-macroquad), `futures` is used in one
place: the umwelt release this builds on carries no game messages to the
simulation, so the region server subscribes to them on NATS itself, and an
async-nats subscription is a `Stream` read through `futures::StreamExt`.
