# robot_painter

Decision logic of two robots that live on a tile world, with a 3D display.

The painting robot explores in spirals, finds a free plot on the part of the
world it has seen, lays a drawing (coin, rock, tree or jolly block) out on it,
walks to each pixel along a cheapest path, puts the material there, and goes
to fetch more material when its backpack runs out. The road builder spirals
outwards, picks up rocks, notes the first two buildings it sees, and paves a
road between them.

## Layout

- `src/` — the library, verified with Verus:
  - `world.rs`: directions, tiles, contents, weather.
  - `lumberjack.rs`: the costed tile map, its neighbours, the shortest-walk
    search, and the conversion of a walk into moves.
  - `node_order.rs`: the order in which the search serves its frontier.
  - `spiral.rs`: exploration spirals.
  - `random.rs`: random choices.
  - `drawing.rs`: plots, blueprints and drawings, and the search for a free plot.
  - `runner.rs`: the painting robot, one tick at a time.
  - `street_maker.rs`: the road builder, one tick at a time.
  - `events.rs`: what the display is told of what the world reports.
  - `display.rs`: the pictures the display shows.
- `tests/` — tests of the library on concrete values.
- `app/` — the program around the library: the menu, the robots' game loop
  against the world, and the display.
