# rogue

A Rogue-style dungeon game's rules and data model, written in Verus: every
function of the library states its behaviour in `requires` / `ensures` and is
proved against it.

## Layout

- `src/` — the verified library
  - `geometry`, `rng`, `text`, `dice` — points and rectangles, Rogue's `rnd` /
    `roll` random helpers (over `rand`'s `StdRng`), text helpers, and the
    `"NxM/NxM"` damage-dice format (parsing and writing it back are inverse).
  - `combat` — the strength tables, to-hit swings and multi-term attacks.
  - `map`, `path`, `fov` — the level grid, breadth-first shortest paths,
    reachability and the nearest unexplored ground, Bresenham line-of-sight,
    field of view and magic mapping.
  - `data`, `gen` — game content tables, and level generation: the classic
    3x3-room procedural generator, hand-authored fixed maps (with room
    detection), and dungeon definitions.
  - `engine` — input actions, key mapping, the cell framebuffer and colour
    themes.
  - `cli` — the terminal game's components, item rules (weighted picks, item
    rolls, flavour names), turn rules (status effects, experience,
    regeneration, monster specials and movement), the player's actions
    (moving, fighting, eating, quaffing, reading, rings, wands, throwing),
    traps, level set-up, the monsters' turns, auto-explore and the autopilot,
    screen modes and key commands, the text of the status bar and panels,
    renderer looks, themes and the high-score table.
- `tests/` — tests run against the compiled library.
- `app/` — the command-line program: reading RON content, dungeons and JSON
  scores from disk, colour arithmetic in floating point, and `main`.
