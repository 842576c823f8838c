//! Five-in-a-row on a 15x15 board: the rules, a heuristic evaluation of positions, an
//! alpha-beta minimax search for the computer player, and the game's state machine.
pub mod board;
pub mod rules;
pub mod moves;
pub mod patterns;
pub mod eval;
pub mod search;
pub mod game;
pub mod balance;
pub mod shapes;
