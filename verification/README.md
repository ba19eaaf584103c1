# Titanium

A Quoridor engine with contracts proved by Verus: rules, race endgames, tables and protocols
exactly; of a search, that it leaves the game as it was, that its answer is legal, and that
every score follows from the searches made on the way to it, each with its depth, window and
tables (`trace`). How good a move is rests on the network and is not proved.

- `src/` is the verified library.
  - Rules and board: `moves`, `board`, `zobrist`, `game`, `game_length`, `movegen`, `bridge`, `routes`, `corridor`.
  - Race endgames: `race_table`, `race_cache`, `race`, `race_theorems`, `race_root`.
  - Search: `config`, `host`, `search`, `trace`, `pruning`, `ordering`, `history`, `eval`, `dist_cache`,
    `tt`, `tt_sizing`, `root_moves`, `root_select`, `root_verify`, `timing`, `think`.
  - Several threads: `lazy_smp`, `lazy_think`.
  - Building and switching engines: `setup`, `switches`, `modes`.
  - Protocols and reports: `session`, `ponder`, `browser`, `json`, `dump`, `text`.
  - Clock: `time_alloc`.
- `app/` holds what runs around it: network arithmetic, clocks, threads, standard input and
  output, and the page engine.
- `tests/` runs the library.

The search asks its surroundings through the trait `SearchHost`. Its answers have names, so
that contracts can say which question a value answers; what the answers are is left open, and
what is proved of the search holds whatever they are. `StillHost` is the one host in the
library: nothing happens in it.
