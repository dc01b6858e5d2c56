//! The plain data of a position: six bitboards per side, the occupancy derived
//! from them, and the castling rights.
use crate::bits::{group_holds, holds, single, square_bit};
use crate::utils::{Colour, Piece};
use vstd::prelude::*;

verus! {

/// One bitboard per piece kind, for one side.
#[derive(Debug, Clone, Copy, PartialEq, Eq, Structural)]
pub struct piece_map_bitboards {
    pub pawns: u64,
    pub king: u64,
    pub queens: u64,
    pub bishops: u64,
    pub knights: u64,
    pub rooks: u64,
}

impl piece_map_bitboards {
    /// Union of the six bitboards.
    pub open spec fn occupied(self) -> u64 {
        self.pawns | self.king | self.queens | self.bishops | self.knights | self.rooks
    }

    /// These bitboards with the squares of `mask` flipped in the bitboard of
    /// the kind of `piece`.
    pub open spec fn toggled(self, piece: Piece, mask: u64) -> Self {
        match piece {
            Piece::Pawn(_) => piece_map_bitboards { pawns: self.pawns ^ mask, ..self },
            Piece::King(_) => piece_map_bitboards { king: self.king ^ mask, ..self },
            Piece::Queen(_) => piece_map_bitboards { queens: self.queens ^ mask, ..self },
            Piece::Bishop(_) => piece_map_bitboards { bishops: self.bishops ^ mask, ..self },
            Piece::Knight(_) => piece_map_bitboards { knights: self.knights ^ mask, ..self },
            Piece::Rook(_) => piece_map_bitboards { rooks: self.rooks ^ mask, ..self },
        }
    }

    /// These bitboards with a piece of the kind of `piece` put on `square`.
    pub open spec fn with(self, piece: Piece, square: int) -> Self {
        match piece {
            Piece::Pawn(_) => piece_map_bitboards { pawns: self.pawns | single(square), ..self },
            Piece::King(_) => piece_map_bitboards { king: self.king | single(square), ..self },
            Piece::Queen(_) => piece_map_bitboards { queens: self.queens | single(square), ..self },
            Piece::Bishop(_) => piece_map_bitboards {
                bishops: self.bishops | single(square),
                ..self
            },
            Piece::Knight(_) => piece_map_bitboards {
                knights: self.knights | single(square),
                ..self
            },
            Piece::Rook(_) => piece_map_bitboards { rooks: self.rooks | single(square), ..self },
        }
    }

    /// Puts a piece of the kind of `piece` on `square`.
    pub fn put(&mut self, piece: Piece, square: i32)
        requires
            0 <= square < 64,
        ensures
            *final(self) == old(self).with(piece, square as int),
    {
        let mask: u64 = square_bit(square);
        match piece {
            Piece::Pawn(_) => {
                self.pawns = self.pawns | mask;
            },
            Piece::King(_) => {
                self.king = self.king | mask;
            },
            Piece::Queen(_) => {
                self.queens = self.queens | mask;
            },
            Piece::Bishop(_) => {
                self.bishops = self.bishops | mask;
            },
            Piece::Knight(_) => {
                self.knights = self.knights | mask;
            },
            Piece::Rook(_) => {
                self.rooks = self.rooks | mask;
            },
        }
    }

    /// These bitboards with the squares of `mask` removed from all six.
    pub open spec fn without(self, mask: u64) -> Self {
        piece_map_bitboards {
            pawns: self.pawns & !mask,
            king: self.king & !mask,
            queens: self.queens & !mask,
            bishops: self.bishops & !mask,
            knights: self.knights & !mask,
            rooks: self.rooks & !mask,
        }
    }

    /// A side without any piece.
    pub open spec fn none() -> Self {
        piece_map_bitboards { pawns: 0, king: 0, queens: 0, bishops: 0, knights: 0, rooks: 0 }
    }

    /// A side without any piece.
    pub fn empty() -> (res: Self)
        ensures
            res == Self::none(),
    {
        piece_map_bitboards { pawns: 0, king: 0, queens: 0, bishops: 0, knights: 0, rooks: 0 }
    }

    /// Computes the union of the six bitboards.
    pub fn occupancy(&self) -> (res: u64)
        ensures
            res == self.occupied(),
    {
        self.pawns | self.king | self.queens | self.bishops | self.knights | self.rooks
    }
}

/// Both sides' pieces together with each side's occupancy.
#[derive(Debug, Clone, Copy, PartialEq, Eq, Structural)]
pub struct bitboard_base {
    pub white: piece_map_bitboards,
    pub black: piece_map_bitboards,
    pub white_occupied: u64,
    pub black_occupied: u64,
}

/// The four castling permissions.
#[derive(Debug, Clone, Copy, PartialEq, Eq, Structural)]
pub struct castling_rights {
    pub white_king: bool,
    pub white_queen: bool,
    pub black_king: bool,
    pub black_queen: bool,
}

/// The position made of `white` and `black`, with each side's occupancy equal
/// to the union of its six bitboards.
pub open spec fn spec_create_base(
    white: piece_map_bitboards,
    black: piece_map_bitboards,
) -> bitboard_base {
    bitboard_base {
        white,
        black,
        white_occupied: white.occupied(),
        black_occupied: black.occupied(),
    }
}

/// Builds a position from the two sides' pieces and derives the occupancy.
pub fn create_base(white: piece_map_bitboards, black: piece_map_bitboards) -> (res: bitboard_base)
    ensures
        res == spec_create_base(white, black),
        res.well_formed(),
{
    bitboard_base {
        white,
        black,
        white_occupied: white.occupancy(),
        black_occupied: black.occupancy(),
    }
}

/// The set of on-board squares that occur in `squares`, as a bitboard.
pub open spec fn spec_squares_to_bitboard(squares: Seq<i32>) -> u64
    decreases squares.len(),
{
    if squares.len() == 0 {
        0
    } else if 0 <= squares.last() < 64 {
        spec_squares_to_bitboard(squares.drop_last()) | single(squares.last() as int)
    } else {
        spec_squares_to_bitboard(squares.drop_last())
    }
}

/// Membership in `spec_squares_to_bitboard` is membership in the list.
pub proof fn lemma_squares_to_bitboard(squares: Seq<i32>, t: int)
    ensures
        holds(spec_squares_to_bitboard(squares), t) <==> 0 <= t < 64 && squares.contains(t as i32),
    decreases squares.len(),
{
    broadcast use group_holds;

    if squares.len() > 0 {
        let front = squares.drop_last();
        lemma_squares_to_bitboard(front, t);
        if 0 <= t < 64 {
            if squares.contains(t as i32) {
                let i = choose|i: int| 0 <= i < squares.len() && squares[i] == t as i32;
                if i < squares.len() - 1 {
                    assert(front[i] == t as i32);
                }
            }
            if front.contains(t as i32) {
                let i = choose|i: int| 0 <= i < front.len() && front[i] == t as i32;
                assert(squares[i] == t as i32);
            }
            if squares.last() == t {
                assert(squares[squares.len() - 1] == t as i32);
            }
        }
    }
}

/// Converts a list of squares into the bitboard of its on-board members.
pub fn squares_to_bitboard(squares: &Vec<i32>) -> (res: u64)
    ensures
        res == spec_squares_to_bitboard(squares@),
        forall|t: int| holds(res, t) <==> 0 <= t < 64 && squares@.contains(t as i32),
{
    let mut res: u64 = 0;
    let mut i: usize = 0;
    while i < squares.len()
        invariant
            0 <= i <= squares.len(),
            res == spec_squares_to_bitboard(squares@.take(i as int)),
        decreases squares.len() - i,
    {
        let s: i32 = squares[i];
        proof {
            assert(squares@.take(i + 1).drop_last() == squares@.take(i as int));
            assert(squares@.take(i + 1).last() == s);
        }
        if 0 <= s && s < 64 {
            res = res | square_bit(s);
        }
        i += 1;
    }
    proof {
        assert(squares@.take(squares.len() as int) == squares@);
        assert forall|t: int| holds(res, t) <==> 0 <= t < 64 && squares@.contains(t as i32) by {
            lemma_squares_to_bitboard(squares@, t);
        }
    }
    res
}

impl bitboard_base {
    /// The occupancy fields agree with the piece bitboards.
    pub open spec fn well_formed(self) -> bool {
        &&& self.white_occupied == self.white.occupied()
        &&& self.black_occupied == self.black.occupied()
    }

    /// The pieces of one side.
    pub open spec fn side(self, colour: Colour) -> piece_map_bitboards {
        match colour {
            Colour::White => self.white,
            Colour::Black => self.black,
        }
    }

    /// The occupancy recorded for one side.
    pub open spec fn side_occupied(self, colour: Colour) -> u64 {
        match colour {
            Colour::White => self.white_occupied,
            Colour::Black => self.black_occupied,
        }
    }

    /// The squares that either side occupies.
    pub open spec fn occupancy(self) -> u64 {
        self.white_occupied | self.black_occupied
    }

    /// Computes the squares that either side occupies.
    pub fn total_occupancy(&self) -> (res: u64)
        ensures
            res == self.occupancy(),
    {
        self.white_occupied | self.black_occupied
    }
}

} // verus!
