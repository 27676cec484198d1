//! A chess rules engine on bitboards, with a depth-bounded alpha-beta search.
//!
//! Every rule is stated over a mathematical model of the board, the
//! [`position::Position`] with its 64 cells, and proved of the bitboard code
//! that implements it.
//!
//! - [`bits`] and [`bitboard`]: sets of squares in a 64-bit word.
//! - [`square`] and [`pieces`]: squares, sides and kinds of piece.
//! - [`attacks`]: the table of rays, and where sliders, steppers and pawns
//!   reach.
//! - [`position`] and [`board`]: the model of a position and the board that
//!   stands for it.
//! - [`moves`]: the four kinds of move and what applying them does.
//! - [`movegen`] and [`movelaws`]: pseudo-legal and legal moves, check,
//!   checkmate and stalemate, and what the generated list holds.
//! - [`bot`] and [`pruning`]: static evaluation, the search, and why pruning
//!   does not change its outcome.
//! - [`fen`] and [`placement`]: reading a position from text and writing its
//!   placement, and why one undoes the other.
//! - [`text`]: squares, moves and boards as text.
//! - [`game`]: a board together with the side to move.

pub mod attacks;
pub mod bitboard;
pub mod bits;
pub mod board;
pub mod bot;
pub mod fen;
pub mod game;
pub mod movegen;
pub mod movelaws;
pub mod moves;
pub mod pieces;
pub mod placement;
pub mod position;
pub mod pruning;
pub mod square;
pub mod text;

pub use attacks::{init_rays, Rays};
pub use bitboard::Bitboard;
pub use board::{Board, MoveRights};
pub use bot::bot_move;
pub use fen::{ParseError, ParseReason};
pub use game::ChessGame;
pub use moves::{BasicMove, Capture, Castle, Move, MoveError, Promotion};
pub use pieces::{Pieces, Sides};
pub use square::Square;
