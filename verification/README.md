# serverness

A terminal adventure game set in a dead server network, with its rules
written in Verus and proved against their contracts.

## Layout

- `src/` — the library, verified by Verus:
  - `text.rs` — whitespace splitting, substring search and the two
    case-insensitive comparisons the game uses;
  - `structs.rs` — the world model and lookups by identifier;
  - `player.rs` — the player: damage, score, inventory and item use;
  - `quest.rs` — quest progress on events, what an event awards, and
    whether a run of events keeps the score within range;
  - `battle.rs` — both sides' turns of a fight, and how each round ends it
    or lets it go on;
  - `world.rs` — drawing the logs of generated lore from pools;
  - `game.rs` — the session, endings, and the checks a front end makes
    before calling in;
  - `commands.rs`, `actions.rs` — reading a line as a command and what
    each command does;
  - `laws.rs` — properties that relate several operations.
- `tests/` — tests of the library on concrete worlds.
- `app/` — the terminal front end: the prompt, screens, colours, the world
  file, the fight loop, the final terminal and the soundtrack service.

The front end reads `world.json` and `log_pools.json` from the directory it
was built in.
