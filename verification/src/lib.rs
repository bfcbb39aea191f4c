//! A Monte Carlo tree search engine for two-player, zero-sum,
//! perfect-information games with finite action sets, together with two
//! example games (a connect-four board and a nested tic-tac-toe board).
//!
//! Node statistics are kept exactly: every playout yields a reward in
//! half-points (0 = loss, 1 = draw, 2 = win for the perspective player),
//! a node stores the sum of the rewards backed up through it, and the
//! estimated win probability of a node is `reward / (2 * visits)`.

pub mod player;
pub mod outcome;
pub mod game;
pub mod randsrc;
pub mod clock;
pub mod fixed;
pub mod node;
pub mod tree;
pub mod connect4;
pub mod tictac;
