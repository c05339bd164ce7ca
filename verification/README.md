# rust_arpg

The rules and procedural content of a small isometric dungeon action game, written in
Verus, with the Bevy game around them.

- `src/` is the verified library:
  - `rng` — the SplitMix64 generator behind floors and damage rolls;
  - `combat` — hit points, damage rolls, and when gameplay runs;
  - `world::room` — room templates, their doors and the built-in template library;
  - `world::floor` — the floor generator: a walk of rooms from a start room to a boss
    room that steers away from steps it could not complete, one or two side rooms, and one corridor
    per connected pair of rooms, every one of them through a door; its contract gives
    the layout a seed yields as a function of the seed and of the doors and tags of the
    template library, as well as the laws the layout keeps;
  - `world::tilemap` — the floor tiles, walls, obelisks and corridor strips that a layout
    is built from, in integer world units;
  - `world::wall_cells` — walls bucketed by the grid cells they cover;
  - `world` — the extent of a whole floor;
  - `hud`, `targeting`, `player` — the pause menu, the hovered and locked-on enemy, and
    how mouse and gamepad arm an attack;
  - `debug` — the size accounting and rotation plan of the debug log.
- `tests/` runs the library on concrete values.
- `app/` is the Bevy program: windowing, rendering, input, the float geometry of
  movement, collision and sight, and the debug log file.
