# dungeon_core

The rules of a dungeon-keeper game as a verified library: map generation
(terrain, connectivity, features, biomes, portals, lairs, starting areas,
the hero town), the dungeon state and the player's actions, hero, imp and creature
thinking, pathfinding, spawning, spells, the prison, objectives, scenarios
and campaigns. Every function in `src/` carries a contract that Verus checks.

- `src/` — the library, one module per part of the game. Three small
  trusted wrappers stand at its edge: randomness from `macroquad::rand` and
  `rand` (`random.rs`) and string equality from std (`tiles.rs`).
- `tests/` — ordinary Rust tests run against the compiled library.
- `app/` — the balance calculator: it reads the game data under
  `assets/data/`, runs the combat, wave and economy simulations and the
  balance tests (floating-point work, kept out of the library, with the
  integer checks and the generator taken from it), and lists the campaigns:
  the built-in catalogue with any JSON files under `assets/campaigns/` laid
  over it by id.
