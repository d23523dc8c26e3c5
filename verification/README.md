# hocg_fan_sim

A simulator of the hololive OFFICIAL CARD GAME, as a verified library: the rules of the game
are executable Rust whose behaviour is stated in `requires` / `ensures` contracts and proved
by Verus.

- `src/` is the library. Its main parts:
  - `gameplay`, `board`, `state`: cards, zones, the boards of the two players and the state
    of a game, with the moves of cards between zones (no card is lost or made on a move);
  - `cards`, `library`: the cards and the library they are looked up in;
  - `card_effects`: the language of card effects (conditions and actions): its tokens, its
    parser and printer, and what a condition evaluates to in a game;
  - `modifiers`, `modifier_rules`, `damage`: what modifiers and damage do to cards;
  - `actions`, `choices`, `rules`, `triggers`, `turns`, `setup`: what a player may do in each
    step, what the answers to the game's requests may be, and how turns and the setup go;
  - `events`: what each event of a game changes in its state;
  - `display`, `prompters`: how choices are shown, and what picks among them.
- `app/` is the plain Rust around it: the asynchronous game loop, which asks the players over
  channels, sends the events, and uses the library's decisions for the steps, the actions
  and the answers of the cards; nothing in it is verified.
- `tests/` holds the tests, on concrete games.
