# gomoku

Five in a row on a 15x15 board against a computer player, with the game logic verified by
Verus.

## Layout

- `src/board.rs`: players, the board and its model (`Seq<Option<Player>>` in row-major
  order), full-board and first-empty-cell scans.
- `src/rules.rs`: the win check around a placed stone and the scan for any five; proofs that
  the win check reports exactly the fives through the stone and that a move makes no five
  elsewhere.
- `src/moves.rs`: the candidate moves of the search (empty cells next to a stone).
- `src/patterns.rs`: the shapes looked for in a six-cell window, their scores and threats.
- `src/eval.rs`: the evaluation of a line and of the whole board, with its bounds.
- `src/search.rs`: alpha-beta minimax, the proof that it is fail-soft minimax, and that the
  chosen move is optimal and legal.
- `src/balance.rs`: the proof that the evaluation is zero-sum: scoring the board for one
  player gives the negation of scoring it for the other.
- `src/game.rs`: the game's state machine (moves, undo, restart, the computer's turn, keys,
  status line) and its invariant.
- `app/main.rs`: the ggez window, drawing, pixel/grid conversion, input and the search thread.
- `tests/`: tests on concrete positions.

## Running

The game needs a graphical environment: `cargo run` with `app/main.rs` as the binary and the
`ggez` dependency of `Cargo.toml`.
