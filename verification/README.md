# gamemaster

Player-versus-player rankings of Pokémon, verified with Verus.

For each species and form of the game master, every one of the 4096
combinations of individual values is placed at the highest level (from 50
down to one half, in half levels) at which its combat power stays within a
league's cap (1500 for the great league, 2500 for the ultra league); below
level 1 the combat power is the least one, 10, and the stat product 0. The
combinations are then gathered by their stat product at that level and
ranked by decreasing product. A seen Pokémon is answered with its place in
the ranking of its species and of each evolution that the game master lists
for it, each evolution under its own form; a costume whose name contains
`noevolve` stops the evolutions.

Layout:

- `src/` — the verified library:
  - `iv.rs` — combinations of individual values and their enumeration;
  - `league.rs` — leagues and their caps;
  - `names.rs` — name normalization, string search, genders;
  - `ranking.rs` — level tables and the ordered ranking of all combinations;
  - `gamemaster.rs` — stats and rankings keyed by normalized names, lookups,
    answers for a Pokémon and its evolutions;
  - `pokemon.rs` — seen Pokémon, the name caches, their rankings, and the
    filling in of missing rankings;
  - `update.rs` — whether a fetched game master must be loaded.
- `tests/` — tests of the library.
- `app/` — fetching the game master, the floating-point combat power and
  stat product, and reading and writing JSON.

Combat power and stat products are computed in floating point (in `app/`)
into a `LevelTable`, from which the library ranks. Levels are counted in
half levels; percentages are kept as exact quotients of two stat products.
