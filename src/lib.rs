//! A chess move selector: a static evaluator, a move-ordering heuristic and a
//! depth-limited alpha-beta search with repetition-aware draw scoring.
//!
//! Board representation, legal-move generation and move application come from
//! the `chess` crate; everything that decides a score or a move is verified here.
pub mod board;
pub mod eval;
pub mod fen;
pub mod ordering;
pub mod repetition;
pub mod search;
