# corewar

A CoreWar toolkit whose core is specified and proved with Verus: the Redcode
assembler, the core data model, the bookkeeping of battles, tournaments and
the server, and the visualization's model of a running battle.

## Layout

- `src/` — the verified library.
  - `lexer`, `expr`, `symbols`, `parser`, `parse_error`: Redcode source to a
    `Warrior` (labels, `EQU`, `ORG`/`END`, expressions, modifiers).
  - `instruction`, `memory`, `process`, `event`, `warrior`, `constants`: the
    core data model.
  - `battle`, `standings`, `rounds`, `instances`: battle results, tournament
    standings and ranking, round bookkeeping and battle instances.
  - `tournament`: a tournament as a sequence of decisions — start, take
    the scheduled matches, take the round's reports — for round-robin,
    Swiss and elimination play.
  - `leaderboard`: match outcomes, head-to-head records and match history.
  - `protocol`, `server`, `registry`, `snapshot`: the message values, the
    server's placeholder orchestrator and its subscription registry.
  - `viewer`, `counts`, `sync`, `viz`: the visualization's model of the core,
    process counts, playback and selection, and how it follows a battle.
  - `link`: the visualization's server connection as a sequence of
    decisions — what to send, when to reconnect and how long to wait, and
    the order in which messages that could not be sent go out.
  - `text`: character-level helpers the rest is built on.
- `tests/` — tests of the library.
- `app/` — the server program (WebSocket I/O, wire encodings, persistence,
  Glicko-2 ratings, the tournament loop that pairs warriors and plays
  battles concurrently) and the native parts of the visualization frontend
  (camera, input, glow, server connection), which work in floating point or
  do I/O.
