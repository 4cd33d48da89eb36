# reversi

Reversi (Othello) on bitboards, with its rules verified by Verus, and the
parts of the services built on the rules that compute rather than talk to
the outside world.

## Layout

- `src/` — the verified library.
  - `bits`, `position`, `board`, `disk`, `action`, `table`, `judge`: squares
    as bits of a `u64`, rows, columns and positions, the board, actions and
    the game table.
  - `rules`: which squares a player may put a disk on, which disks a move
    flips, and how an action changes a table (`ActionExt::execute` and
    `check_inputs`, with their exact error messages from `messages`).
  - `controller`: stepping a game, detecting its end and judging it.
  - `laws`: properties that hold across the operations (a put keeps the
    board valid, flips only opponent disks, adds exactly one disk; the
    squares listed as puttable are exactly those a put is accepted on; ...).
  - `server`: the game endpoint (`/new`, `/step`) without its transport.
  - `gateway`, `session`: table IDs derived from passwords, bearer tokens,
    stored tables, and the decisions of the game session manager.
  - `state`, `game_state`, `node`, `arena`, `tree`, `search`: the game
    states, the arena-allocated tree and the integer parts of the batch tree
    search.
  - `environment`: a batch of games played side by side by a learning agent.
- `tests/` — tests of the library.
- `app/` — the game server (actix-web) and the floating-point edges of the
  learning environment and of the tree search.
