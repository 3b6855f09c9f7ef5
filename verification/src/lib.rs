//! A chess rules engine: it generates the legal moves of a position,
//! applies a move, and says whether the game goes on. It does no input or
//! output, and it knows nothing of how good a move is.
//!
//! A game is played on a [`Board`]. Its contracts speak of the board's
//! [`Position`], the mathematical value that the rules are stated over:
//!
//! - [`moves`] generates the candidate moves of each piece, and [`helpers`]
//!   builds the attack map and finds checks;
//! - [`rules`] says which moves are legal and how the game stands, and
//!   [`position`] what a move does to a position;
//! - [`game`] holds the operations on a board: the legal moves, the status,
//!   and the making of a move;
//! - [`fen`] and [`notation`] write a position as a text record and read it
//!   back, and [`frontend`] draws a board and reads a typed move;
//! - [`laws`], [`geometry`], [`bookkeeping`], [`soundness`], [`unique`] and
//!   [`roundtrip`] prove what follows from the rules.
//!
//! Squares are `(row, column)` pairs: row 0 is White's back rank and column 0
//! the a-file.

pub mod board;
pub mod bookkeeping;
pub mod fen;
pub mod frontend;
pub mod game;
pub mod geometry;
pub mod helpers;
pub mod laws;
pub mod models;
pub mod moves;
pub mod notation;
pub mod position;
pub mod roundtrip;
pub mod rules;
pub mod soundness;
pub mod unique;

pub use board::Board;
pub use models::{
    CastleRights, Color, GameStatus, Move, MoveOutcome, MoveOutcomeView, MoveView, Piece,
    PieceKind, RookType, SideEffect, Square, UserMove, ValidMove,
};
pub use position::Position;
