//! A chess search and evaluation engine: static evaluation over bitboards,
//! a depth-preferred transposition table, move ordering, quiescence search,
//! negamax with alpha-beta pruning and an iterative-deepening driver.
//!
//! Move generation, move application, outcome detection and position hashing
//! come from the `shakmaty` crate; everything built on top of them is verified.
//!
//! * [`bitboard`], [`board`], [`tables`]: sets of squares, piece placement and
//!   the piece-square tables.
//! * [`evaluate`]: the score of a finished game and the static score of a
//!   position.
//! * [`transposition`]: the transposition table.
//! * [`rules`]: what is assumed of the rule engine.
//! * [`clock`]: deadlines and the time allotted to a move.
//! * [`search`]: move ordering, quiescence, negamax and iterative deepening.
//! * [`symmetry`], [`soundness`]: laws of the evaluation and of the pruned
//!   searches.
//! * [`parsers`], [`uci`]: the computing parts of the UCI front end.

pub mod bitboard;
pub mod board;
pub mod clock;
pub mod evaluate;
pub mod parsers;
pub mod rules;
pub mod search;
pub mod soundness;
pub mod symmetry;
pub mod tables;
pub mod transposition;
pub mod uci;
