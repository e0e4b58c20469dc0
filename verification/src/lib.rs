//! Gomoku, five in a row on a board of 15 by 15: the board with its
//! fingerprint, the run lengths and the win test, a static evaluator, a
//! classifier of tactical threats, and three players that search the game
//! tree. What each function returns is stated in its contract and proved.

pub mod actor;
pub mod advice;
pub mod board;
pub mod bob;
pub mod chance;
pub mod eval;
pub mod free;
pub mod geometry;
pub mod john;
pub mod lean;
pub mod noob;
pub mod ordering;
pub mod position;
pub mod random;
pub mod runs;
pub mod threat;

pub use actor::Actor;
pub use board::Board;
pub use bob::BobAI;
pub use eval::{bobs_shallow_eval, valid_move, LOST, WIN};
pub use free::FreePosIterator;
pub use geometry::{cell, dir, CellPos, Dir, Stone};
pub use john::{Budget, John, Reason};
pub use lean::johns_shallow_eval;
pub use noob::{NoobAI, NoobEval};
pub use random::RandomAI;
pub use threat::BoardState;
