//! Rules engine for chess on bitboards: positions, pseudo-legal and legal move
//! generation, and classification of finished games.
//!
//! - [`bits`]: bitboards as sets of squares, and what the bitwise operators
//!   mean for membership.
//! - [`bitboard`]: the plain data of a position.
//! - [`targets`]: where each kind of piece can go and what a side attacks.
//! - [`rules`]: which moves are proposed, which are legal, and where a legal
//!   move leads, as specifications.
//! - [`board`]: move generation, the legality filter and the state of a game.
//! - [`laws`]: what holds of every legal move.
//! - [`text`]: positions written out for reading.
//! - [`utils`]: colours, pieces, square names and positions read from text.
#![allow(non_camel_case_types)]
#![allow(non_upper_case_globals)]

pub mod bitboard;
pub mod bits;
pub mod board;
pub mod laws;
pub mod rules;
pub mod targets;
pub mod text;
pub mod utils;

pub use bitboard::{
    bitboard_base, castling_rights, create_base, piece_map_bitboards, squares_to_bitboard,
};
pub use board::{Board, ChessMove, FinishedState, GameState};
pub use utils::fen::{
    CASTLE_KINGSIDE_POSITION, CASTLE_QUEENSIDE_POSITION, CHECK_POSITION, CMK_POSITION,
    KILLER_POSITION, PROMOTION_POSITION, START_POSITION, TRICKY_POSITION,
};
pub use utils::Colour;
