# Heroes of Rust

A small turn-based strategy game in the spirit of Heroes of Might and Magic. The rules live in a
verified library; a Bevy program around it draws the screens and reads the input.

## Layout

- `src/engine/` — the adventure game: resources, heroes and armies, the map with its fog of
  war, players and towns, the game state, and the commands that change it (move, collect,
  recruit, end the turn).
- `src/adventure.rs` — what a step on the map leads to (a town, a battle, a pile collected), the
  tiles a hero can reach, and the checks the program makes before it moves a hero.
- `src/battle/` — the stack-versus-stack battle: its state and turn order, blows, the defenders'
  play, and how a battle opens and settles on the map.
- `src/data.rs` — building a game from a map description and a creature catalogue.
- `src/names.rs` — random hero names.
- `tests/` — tests of the library.
- `app/` — the Bevy program: screens, input, drawing, and reading RON files.

Each operation states its result in its contract, and the rules that span operations (what a
refused command leaves unchanged, what a hire costs, what the fog never forgets, that the
defenders' turn always ends) are proof functions next to the operations they speak of.
