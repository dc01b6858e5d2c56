//! Positions, the moves that can be made from them, and the state of a game.
use crate::bitboard::{
    bitboard_base, castling_rights, create_base, piece_map_bitboards, spec_create_base,
};
use crate::bits::{
    contains_square, group_holds, holds, lemma_apart, lemma_meet, rank_squares, square_bit,
};
use crate::rules::{
    barred, castling_allowed, castling_move, castling_path_free, en_passant_move, in_check,
    is_castling, is_en_passant, is_legal_move, is_piece_move, is_promotion, is_promotion_onto,
    is_pseudo_legal, king_crosses, legal, mutation_of, pawn_at, pawn_on_back_rank,
    promotion_move, standard_move, standard_mutation, successor,
};
use crate::targets::{
    attacked, forward, generate_attack_targets, on_board, pawn_attack, pawn_attack_targets,
    pawn_reach, pawn_targets, piece_targets, rank_of,
};
use crate::utils::squares::{a1, a8, b1, b8, c1, c8, d1, d8, e1, e8, f1, f8, g1, g8, h1, h8};
use crate::utils::{
    bound, extract_squares, lemma_bound, lemma_join, lemma_push_fresh, lists_members, Colour,
    Piece, Pieces,
};
use vstd::prelude::*;
use vstd::seq_lib::lemma_seq_contains_after_push;

verus! {

/// The wing of the board on which a king castles.
#[derive(Debug, Clone, Copy, PartialEq, Eq, Structural)]
pub enum Side {
    King,
    Queen,
}

/// The kind of a move.
#[derive(Debug, Clone, Copy, PartialEq, Eq, Structural)]
pub enum MoveType {
    /// One piece goes from one square to another and takes what stands there.
    Standard,
    /// King and rook move together on the given wing.
    Castling(Side),
    /// A pawn takes the pawn that has just passed it.
    EnPassent,
    /// A pawn reaches the last rank and becomes the given piece.
    Promotion(Piece),
}

/// What a move changes in the position besides the pieces.
#[derive(Debug, Clone, Copy, PartialEq, Eq)]
pub enum Mutation {
    /// A pawn has advanced two squares over this one.
    SetKillerSquare(i32),
    /// One castling right of a side is lost.
    RevokeCastling(Colour, Side),
    /// Both castling rights of a side are lost.
    RevokeAllCastling(Colour),
}

/// A move as the generator proposes it, together with the pieces as they
/// stand once it has been made. It may still leave the mover's king attacked.
#[derive(Debug, Clone, Copy, PartialEq, Eq)]
pub struct ChessMoveBase {
    /// Where the piece leaves from; castling names no square.
    pub starting_square: Option<i32>,
    /// Where the piece arrives; castling names no square.
    pub destination_square: Option<i32>,
    pub piece: Piece,
    pub move_type: MoveType,
    pub colour: Colour,
    pub res_board: bitboard_base,
}

/// A legal move and the position that it leads to.
#[derive(Debug, Clone, Copy, PartialEq, Eq)]
pub struct ChessMove {
    pub base: ChessMoveBase,
    pub board: Board,
}

/// A position: the pieces, the square that a pawn has just skipped (-1 where
/// there is none), the castling rights, the side to move and the two move
/// counters.
#[derive(Debug, Clone, Copy, PartialEq, Eq)]
pub struct Board {
    pub base: bitboard_base,
    pub killer_square: i32,
    pub castling_rights: castling_rights,
    pub side_to_move: Colour,
    pub halfmove: i32,
    pub fullmove: i32,
}

/// The state of a game in a position.
#[derive(Debug, Clone)]
pub enum GameState {
    /// The game goes on; these are the legal moves.
    Ongoing(Vec<ChessMove>),
    /// The game is over.
    Finished(FinishedState),
}

/// How a game has ended.
#[derive(Debug, Clone, Copy, PartialEq, Eq)]
pub enum FinishedState {
    Win(Colour, ReasonWin),
    Draw(ReasonDraw),
}

/// Why a game is won.
#[derive(Debug, Clone, Copy, PartialEq, Eq)]
pub enum ReasonWin {
    Checkmate,
    Resignation,
}

/// Why a game is drawn.
#[derive(Debug, Clone, Copy, PartialEq, Eq)]
pub enum ReasonDraw {
    Stalemate,
    InsufficientMaterial,
    HalfmoveLimit,
    Agreement,
}

impl castling_rights {
    /// The right of `colour` to castle on `side`.
    pub open spec fn allows(self, colour: Colour, side: Side) -> bool {
        match (colour, side) {
            (Colour::White, Side::King) => self.white_king,
            (Colour::White, Side::Queen) => self.white_queen,
            (Colour::Black, Side::King) => self.black_king,
            (Colour::Black, Side::Queen) => self.black_queen,
        }
    }

    /// These rights without the right of `colour` to castle on `side`.
    pub open spec fn revoked(self, colour: Colour, side: Side) -> castling_rights {
        match (colour, side) {
            (Colour::White, Side::King) => castling_rights { white_king: false, ..self },
            (Colour::White, Side::Queen) => castling_rights { white_queen: false, ..self },
            (Colour::Black, Side::King) => castling_rights { black_king: false, ..self },
            (Colour::Black, Side::Queen) => castling_rights { black_queen: false, ..self },
        }
    }

    /// No right is set here that is not set in `earlier`.
    pub open spec fn within(self, earlier: castling_rights) -> bool {
        &&& self.white_king ==> earlier.white_king
        &&& self.white_queen ==> earlier.white_queen
        &&& self.black_king ==> earlier.black_king
        &&& self.black_queen ==> earlier.black_queen
    }
}

impl Mutation {
    /// The position with this change made.
    pub open spec fn applied(self, board: Board) -> Board {
        match self {
            Mutation::SetKillerSquare(square) => Board { killer_square: square, ..board },
            Mutation::RevokeCastling(colour, side) => Board {
                castling_rights: board.castling_rights.revoked(colour, side),
                ..board
            },
            Mutation::RevokeAllCastling(colour) => Board {
                castling_rights: board.castling_rights.revoked(colour, Side::King).revoked(
                    colour,
                    Side::Queen,
                ),
                ..board
            },
        }
    }

    /// Makes this change to a position.
    pub fn apply(&self, board: &mut Board)
        ensures
            *final(board) == self.applied(*old(board)),
    {
        match self {
            Mutation::SetKillerSquare(square) => {
                board.killer_square = *square;
            },
            Mutation::RevokeCastling(Colour::White, Side::King) => {
                board.castling_rights.white_king = false;
            },
            Mutation::RevokeCastling(Colour::White, Side::Queen) => {
                board.castling_rights.white_queen = false;
            },
            Mutation::RevokeCastling(Colour::Black, Side::King) => {
                board.castling_rights.black_king = false;
            },
            Mutation::RevokeCastling(Colour::Black, Side::Queen) => {
                board.castling_rights.black_queen = false;
            },
            Mutation::RevokeAllCastling(Colour::White) => {
                board.castling_rights.white_king = false;
                board.castling_rights.white_queen = false;
            },
            Mutation::RevokeAllCastling(Colour::Black) => {
                board.castling_rights.black_king = false;
                board.castling_rights.black_queen = false;
            },
        }
    }
}

/// A pawn may be promoted to this piece.
pub open spec fn promotable(piece: Piece) -> bool {
    piece is Queen || piece is Bishop || piece is Knight || piece is Rook
}

impl bitboard_base {
    /// The position after `colour` has moved a piece of the kind of `piece`
    /// from the squares of `from` to the squares of `to`. The bitboard of that
    /// kind is flipped on both; with a promotion the pawn leaves `from` and the
    /// promoted piece is flipped on `to`. Whatever the other side had on `to`
    /// is gone, and the occupancy is derived anew.
    pub open spec fn after_move(
        self,
        piece: Piece,
        from: u64,
        to: u64,
        colour: Colour,
        promotion: Option<Piece>,
    ) -> bitboard_base {
        let moved = match promotion {
            Some(p) => self.side(colour).toggled(Piece::Pawn(colour), from).toggled(p, to),
            None => self.side(colour).toggled(piece, from | to),
        };
        let rest = self.side(colour.spec_other()).without(to);
        match colour {
            Colour::White => spec_create_base(moved, rest),
            Colour::Black => spec_create_base(rest, moved),
        }
    }

    /// The pieces of one side.
    pub fn get_side(&self, colour: Colour) -> (res: piece_map_bitboards)
        ensures
            res == self.side(colour),
    {
        match colour {
            Colour::White => self.white,
            Colour::Black => self.black,
        }
    }

    /// The squares that one side occupies.
    pub fn get_side_occupied(&self, colour: Colour) -> (res: u64)
        ensures
            res == self.side_occupied(colour),
    {
        match colour {
            Colour::White => self.white_occupied,
            Colour::Black => self.black_occupied,
        }
    }

    /// Applies one piece move. Nothing is checked: a move that does not fit
    /// the position gives a position that is of no use.
    pub fn make_move(
        &self,
        piece: Piece,
        starting_square: u64,
        destination_square: u64,
        colour: Colour,
        prom_piece: Option<Piece>,
    ) -> (res: Self)
        requires
            prom_piece matches Some(p) ==> promotable(p),
        ensures
            res == self.after_move(piece, starting_square, destination_square, colour, prom_piece),
            res.well_formed(),
    {
        let mut side = self.get_side(colour);
        let mut other = self.get_side(colour.other());
        if let Some(res_piece) = prom_piece {
            side.pawns = side.pawns ^ starting_square;
            match res_piece {
                Piece::Queen(_c) => {
                    side.queens = side.queens ^ destination_square;
                },
                Piece::Bishop(_c) => {
                    side.bishops = side.bishops ^ destination_square;
                },
                Piece::Knight(_c) => {
                    side.knights = side.knights ^ destination_square;
                },
                _ => {
                    side.rooks = side.rooks ^ destination_square;
                },
            }
        } else {
            let both: u64 = starting_square | destination_square;
            match piece {
                Piece::Pawn(_c) => {
                    side.pawns = side.pawns ^ both;
                },
                Piece::King(_c) => {
                    side.king = side.king ^ both;
                },
                Piece::Queen(_c) => {
                    side.queens = side.queens ^ both;
                },
                Piece::Bishop(_c) => {
                    side.bishops = side.bishops ^ both;
                },
                Piece::Knight(_c) => {
                    side.knights = side.knights ^ both;
                },
                Piece::Rook(_c) => {
                    side.rooks = side.rooks ^ both;
                },
            }
        }
        other.pawns = other.pawns & !destination_square;
        other.king = other.king & !destination_square;
        other.queens = other.queens & !destination_square;
        other.bishops = other.bishops & !destination_square;
        other.knights = other.knights & !destination_square;
        other.rooks = other.rooks & !destination_square;
        match colour {
            Colour::White => create_base(side, other),
            Colour::Black => create_base(other, side),
        }
    }
}

/// A proposed move together with what it changes besides the pieces.
pub type Candidate = (ChessMoveBase, Option<Mutation>);

/// `e` is a standard move of `piece` as `is_piece_move` describes it, paired
/// with the change that belongs to it.
pub open spec fn is_piece_entry(
    base: bitboard_base,
    colour: Colour,
    piece: Piece,
    bitboard: u64,
    occupancy: u64,
    e: Candidate,
) -> bool {
    is_piece_move(base, colour, piece, bitboard, occupancy, e.0) && e.1 == mutation_of(e.0)
}

/// What a standard move of `piece` from `square` to `target` changes besides
/// the pieces.
pub fn standard_mutation_for(piece: Piece, square: i32, target: i32) -> (f: Option<Mutation>)
    requires
        on_board(square as int),
        on_board(target as int),
    ensures
        f == standard_mutation(piece, square as int, target as int),
{
    if piece == Piece::Pawn(Colour::White) && target - square == 16 {
        Some(Mutation::SetKillerSquare(square + 8))
    } else if piece == Piece::Pawn(Colour::Black) && square - target == 16 {
        Some(Mutation::SetKillerSquare(square - 8))
    } else if let Piece::King(c) = piece {
        Some(Mutation::RevokeAllCastling(c))
    } else if let Piece::Rook(c) = piece {
        match c {
            Colour::White => {
                if square == a1 {
                    Some(Mutation::RevokeCastling(c, Side::Queen))
                } else if square == h1 {
                    Some(Mutation::RevokeCastling(c, Side::King))
                } else {
                    None
                }
            },
            Colour::Black => {
                if square == a8 {
                    Some(Mutation::RevokeCastling(c, Side::Queen))
                } else if square == h8 {
                    Some(Mutation::RevokeCastling(c, Side::King))
                } else {
                    None
                }
            },
        }
    } else {
        None
    }
}

/// The squares on which a standard move of `piece` by `colour` may end, as
/// far as the kind of the piece goes: all of them, but for a pawn those of
/// its last rank.
pub fn standard_targets(piece: Piece, colour: Colour) -> (res: u64)
    ensures
        forall|t: int| holds(res, t) <==> on_board(t) && !barred(piece, colour, t),
{
    broadcast use group_holds;

    match piece {
        Piece::Pawn(_) => match colour {
            Colour::White => !rank_squares(7),
            Colour::Black => !rank_squares(0),
        },
        _ => !0u64,
    }
}

impl bitboard_base {
    /// The standard moves of the pieces of one kind: from each square of
    /// `bitboard` to each square that `piece` can go to from there when
    /// `occupancy` holds the occupied squares, but for the squares that
    /// `colour` occupies itself and, for a pawn, those of its last rank.
    pub fn get_pseudo_legal_piece_moves(
        &self,
        colour: Colour,
        piece: Piece,
        bitboard: u64,
        occupancy: u64,
    ) -> (res: Vec<Candidate>)
        ensures
            forall|e: Candidate| #[trigger]
                res@.contains(e) <==> is_piece_entry(*self, colour, piece, bitboard, occupancy, e),
            res@.no_duplicates(),
    {
        let mut res: Vec<Candidate> = Vec::new();
        let squares = extract_squares(bitboard);
        let side_occupied = self.get_side_occupied(colour);
        let allowed: u64 = standard_targets(piece, colour);
        let mut i: usize = 0;
        while i < squares.len()
            invariant
                0 <= i <= squares.len(),
                lists_members(squares@, bitboard),
                side_occupied == self.side_occupied(colour),
                forall|t: int| holds(allowed, t) <==> on_board(t) && !barred(piece, colour, t),
                forall|e: Candidate| #[trigger]
                    res@.contains(e) <==> is_piece_entry(
                        *self,
                        colour,
                        piece,
                        bitboard,
                        occupancy,
                        e,
                    ) && e.0.starting_square->0 < bound(squares@, i as int),
                res@.no_duplicates(),
            decreases squares.len() - i,
        {
            let square: i32 = squares[i];
            proof {
                lemma_bound(squares@, bitboard, i as int);
            }
            let open: u64 = piece_targets(piece, square, occupancy) & !side_occupied & allowed;
            let targets = extract_squares(open);
            let mut j: usize = 0;
            proof {
                broadcast use group_holds;

                assert forall|e: Candidate|
                    is_piece_entry(*self, colour, piece, bitboard, occupancy, e)
                        && e.0.starting_square->0 == square implies !(e.0.destination_square->0
                    < bound(targets@, 0)) by {
                    let t = e.0.destination_square->0 as int;
                    assert(holds(open, t));
                    if targets@.len() > 0 {
                        lemma_bound(targets@, open, 0);
                    }
                }
            }
            while j < targets.len()
                invariant
                    0 <= j <= targets.len(),
                    0 <= i < squares.len(),
                    square == squares@[i as int],
                    on_board(square as int),
                    holds(bitboard, square as int),
                    lists_members(targets@, open),
                    forall|t: int|
                        holds(open, t) <==> crate::targets::reach(
                            piece,
                            square as int,
                            occupancy,
                            t,
                        ) && 0 <= t < 64 && !holds(self.side_occupied(colour), t) && !barred(
                            piece,
                            colour,
                            t,
                        ),
                    forall|e: Candidate| #[trigger]
                        res@.contains(e) <==> is_piece_entry(
                            *self,
                            colour,
                            piece,
                            bitboard,
                            occupancy,
                            e,
                        ) && (e.0.starting_square->0 < square || (e.0.starting_square->0 == square
                            && e.0.destination_square->0 < bound(targets@, j as int))),
                    res@.no_duplicates(),
                decreases targets.len() - j,
            {
                let target: i32 = targets[j];
                proof {
                    lemma_bound(targets@, open, j as int);
                }
                let res_board = self.make_move(
                    piece,
                    square_bit(square),
                    square_bit(target),
                    colour,
                    None,
                );
                let f = standard_mutation_for(piece, square, target);
                let entry: Candidate = (
                    ChessMoveBase {
                        starting_square: Some(square),
                        destination_square: Some(target),
                        piece,
                        move_type: MoveType::Standard,
                        colour,
                        res_board,
                    },
                    f,
                );
                let ghost before = res@;
                res.push(entry);
                proof {
                    assert(entry.0 == standard_move(
                        *self,
                        colour,
                        piece,
                        square as int,
                        target as int,
                    ));
                    assert(is_piece_entry(*self, colour, piece, bitboard, occupancy, entry));
                    lemma_push_fresh(before, entry);
                    assert forall|e: Candidate| #[trigger]
                        res@.contains(e) <==> is_piece_entry(
                            *self,
                            colour,
                            piece,
                            bitboard,
                            occupancy,
                            e,
                        ) && (e.0.starting_square->0 < square || (e.0.starting_square->0 == square
                            && e.0.destination_square->0 < bound(targets@, j + 1))) by {
                        lemma_seq_contains_after_push(before, entry, e);
                        if is_piece_entry(*self, colour, piece, bitboard, occupancy, e)
                            && e.0.starting_square->0 == square {
                            let t = e.0.destination_square->0 as int;
                            assert(holds(open, t));
                            if t == target {
                                assert(e.0 == entry.0);
                                assert(e == entry);
                            }
                        }
                    }
                }
                j += 1;
            }
            proof {
                assert forall|e: Candidate| #[trigger]
                    res@.contains(e) <==> is_piece_entry(
                        *self,
                        colour,
                        piece,
                        bitboard,
                        occupancy,
                        e,
                    ) && e.0.starting_square->0 < bound(squares@, i + 1) by {
                    if is_piece_entry(*self, colour, piece, bitboard, occupancy, e) {
                        let s = e.0.starting_square->0 as int;
                        let t = e.0.destination_square->0 as int;
                        assert(holds(bitboard, s));
                        if s == square {
                            broadcast use group_holds;

                            assert(holds(open, t));
                        }
                    }
                }
            }
            i += 1;
        }
        proof {
            assert forall|e: Candidate| #[trigger]
                res@.contains(e) <==> is_piece_entry(
                    *self,
                    colour,
                    piece,
                    bitboard,
                    occupancy,
                    e,
                ) by {
                if is_piece_entry(*self, colour, piece, bitboard, occupancy, e) {
                    assert(holds(bitboard, e.0.starting_square->0 as int));
                }
            }
        }
        res
    }
}

/// `after` is `before` with entries added at its end.
pub open spec fn extends(after: Seq<Candidate>, before: Seq<Candidate>) -> bool {
    after.len() >= before.len() && after.take(before.len() as int) =~= before
}

/// The entries that `after` holds beyond those of `before`, of which it is an
/// extension.
pub open spec fn added(after: Seq<Candidate>, before: Seq<Candidate>) -> Seq<Candidate> {
    after.skip(before.len() as int)
}

/// `e` promotes a pawn onto a square of `back_rank` and changes nothing
/// besides the pieces.
pub open spec fn is_promotion_entry(
    base: bitboard_base,
    colour: Colour,
    pawns: u64,
    occupancy: u64,
    back_rank: u64,
    e: Candidate,
) -> bool {
    is_promotion_onto(base, colour, pawns, occupancy, back_rank, e.0) && e.1 is None
}

impl bitboard_base {
    /// The two castlings of `colour`, king's side first. Whether either is
    /// allowed is not looked at here.
    pub fn get_pseudo_legal_castling(&self, colour: Colour) -> (res: Vec<Candidate>)
        ensures
            res@ == seq![
                (
                    castling_move(*self, colour, Side::King),
                    Some(Mutation::RevokeCastling(colour, Side::King)),
                ),
                (
                    castling_move(*self, colour, Side::Queen),
                    Some(Mutation::RevokeCastling(colour, Side::Queen)),
                ),
            ],
    {
        let (king_side, queen_side): (bitboard_base, bitboard_base) = match colour {
            Colour::White => {
                let mut king_side = self.white;
                let mut queen_side = self.white;
                king_side.king = king_side.king ^ (square_bit(e1) | square_bit(g1));
                king_side.rooks = king_side.rooks ^ (square_bit(f1) | square_bit(h1));
                queen_side.king = queen_side.king ^ (square_bit(c1) | square_bit(e1));
                queen_side.rooks = queen_side.rooks ^ (square_bit(a1) | square_bit(d1));
                (create_base(king_side, self.black), create_base(queen_side, self.black))
            },
            Colour::Black => {
                let mut king_side = self.black;
                let mut queen_side = self.black;
                king_side.king = king_side.king ^ (square_bit(e8) | square_bit(g8));
                king_side.rooks = king_side.rooks ^ (square_bit(f8) | square_bit(h8));
                queen_side.king = queen_side.king ^ (square_bit(c8) | square_bit(e8));
                queen_side.rooks = queen_side.rooks ^ (square_bit(a8) | square_bit(d8));
                (create_base(self.white, king_side), create_base(self.white, queen_side))
            },
        };
        let mut res: Vec<Candidate> = Vec::new();
        res.push(
            (
                ChessMoveBase {
                    starting_square: None,
                    destination_square: None,
                    piece: Piece::King(colour),
                    move_type: MoveType::Castling(Side::King),
                    colour,
                    res_board: king_side,
                },
                Some(Mutation::RevokeCastling(colour, Side::King)),
            ),
        );
        res.push(
            (
                ChessMoveBase {
                    starting_square: None,
                    destination_square: None,
                    piece: Piece::King(colour),
                    move_type: MoveType::Castling(Side::Queen),
                    colour,
                    res_board: queen_side,
                },
                Some(Mutation::RevokeCastling(colour, Side::Queen)),
            ),
        );
        assert(res@ =~= seq![
            (
                castling_move(*self, colour, Side::King),
                Some(Mutation::RevokeCastling(colour, Side::King)),
            ),
            (
                castling_move(*self, colour, Side::Queen),
                Some(Mutation::RevokeCastling(colour, Side::Queen)),
            ),
        ]);
        res
    }

    /// The capture in passing by the pawn of `colour` on `start_square` of the
    /// pawn that has just skipped `killer_square`.
    pub fn get_enpassent_move(&self, start_square: i32, killer_square: i32, colour: Colour) -> (res:
        Candidate)
        requires
            on_board(start_square as int),
            on_board(killer_square as int),
            on_board(killer_square - 8 * forward(colour)),
        ensures
            res == (
                en_passant_move(*self, start_square as int, killer_square as int, colour),
                None::<Mutation>,
            ),
    {
        let mut white = self.white;
        let mut black = self.black;
        let path: u64 = square_bit(start_square) | square_bit(killer_square);
        match colour {
            Colour::White => {
                white.pawns = white.pawns ^ path;
                black.pawns = black.pawns ^ square_bit(killer_square - 8);
            },
            Colour::Black => {
                black.pawns = black.pawns ^ path;
                white.pawns = white.pawns ^ square_bit(killer_square + 8);
            },
        }
        let res_board = create_base(white, black);
        (
            ChessMoveBase {
                starting_square: Some(start_square),
                destination_square: Some(killer_square),
                piece: Piece::Pawn(colour),
                move_type: MoveType::EnPassent,
                colour,
                res_board,
            },
            None,
        )
    }

    /// The promotion to `p` of the pawn of `colour` that goes from `square` to
    /// `target`.
    fn promotion_entry(&self, colour: Colour, square: i32, target: i32, p: Piece) -> (res:
        Candidate)
        requires
            on_board(square as int),
            on_board(target as int),
            promotable(p),
        ensures
            res == (
                promotion_move(*self, colour, square as int, target as int, p),
                None::<Mutation>,
            ),
    {
        (
            ChessMoveBase {
                starting_square: Some(square),
                destination_square: Some(target),
                piece: Piece::Pawn(colour),
                move_type: MoveType::Promotion(p),
                colour,
                res_board: self.make_move(
                    Piece::Pawn(colour),
                    square_bit(square),
                    square_bit(target),
                    colour,
                    Some(p),
                ),
            },
            None,
        )
    }

    /// Adds at the end of `res`, for each pawn on a square of `pawns` and each
    /// square of `back_rank` that the pawn can go to and that `colour` does
    /// not occupy, the four promotions: to queen, rook, knight and bishop.
    pub fn add_promotion_moves(
        &self,
        back_rank: u64,
        colour: Colour,
        pawns: u64,
        occupancy: u64,
        res: &mut Vec<Candidate>,
    )
        ensures
            extends(final(res)@, old(res)@),
            added(final(res)@, old(res)@).no_duplicates(),
            added(final(res)@, old(res)@).len() % 4 == 0,
            forall|e: Candidate| #[trigger]
                added(final(res)@, old(res)@).contains(e) <==> is_promotion_entry(
                    *self,
                    colour,
                    pawns,
                    occupancy,
                    back_rank,
                    e,
                ),
    {
        let ghost start = res@;
        let squares = extract_squares(pawns);
        let side_occupied = self.get_side_occupied(colour);
        let mut i: usize = 0;
        proof {
            assert(added(res@, start) =~= Seq::<Candidate>::empty());
        }
        while i < squares.len()
            invariant
                0 <= i <= squares.len(),
                lists_members(squares@, pawns),
                side_occupied == self.side_occupied(colour),
                extends(res@, start),
                added(res@, start).no_duplicates(),
                added(res@, start).len() % 4 == 0,
                forall|e: Candidate| #[trigger]
                    added(res@, start).contains(e) <==> is_promotion_entry(
                        *self,
                        colour,
                        pawns,
                        occupancy,
                        back_rank,
                        e,
                    ) && e.0.starting_square->0 < bound(squares@, i as int),
            decreases squares.len() - i,
        {
            let square: i32 = squares[i];
            proof {
                lemma_bound(squares@, pawns, i as int);
            }
            let open: u64 = pawn_targets(square, colour, occupancy) & !side_occupied;
            let targets = extract_squares(open);
            let mut j: usize = 0;
            proof {
                broadcast use group_holds;

                assert forall|e: Candidate|
                    is_promotion_entry(*self, colour, pawns, occupancy, back_rank, e)
                        && e.0.starting_square->0 == square implies !(e.0.destination_square->0
                    < bound(targets@, 0)) by {
                    let t = e.0.destination_square->0 as int;
                    assert(holds(open, t));
                    if targets@.len() > 0 {
                        lemma_bound(targets@, open, 0);
                    }
                }
            }
            while j < targets.len()
                invariant
                    0 <= j <= targets.len(),
                    0 <= i < squares.len(),
                    square == squares@[i as int],
                    on_board(square as int),
                    holds(pawns, square as int),
                    lists_members(targets@, open),
                    forall|t: int|
                        holds(open, t) <==> pawn_reach(square as int, colour, occupancy, t)
                            && !holds(self.side_occupied(colour), t),
                    extends(res@, start),
                    added(res@, start).no_duplicates(),
                    added(res@, start).len() % 4 == 0,
                    forall|e: Candidate| #[trigger]
                        added(res@, start).contains(e) <==> is_promotion_entry(
                            *self,
                            colour,
                            pawns,
                            occupancy,
                            back_rank,
                            e,
                        ) && (e.0.starting_square->0 < square || (e.0.starting_square->0 == square
                            && e.0.destination_square->0 < bound(targets@, j as int))),
                decreases targets.len() - j,
            {
                let target: i32 = targets[j];
                proof {
                    lemma_bound(targets@, open, j as int);
                }
                let ghost before = added(res@, start);
                let ghost q: Candidate = (
                    promotion_move(
                        *self,
                        colour,
                        square as int,
                        target as int,
                        Piece::Queen(colour),
                    ),
                    None,
                );
                let ghost r: Candidate = (
                    promotion_move(
                        *self,
                        colour,
                        square as int,
                        target as int,
                        Piece::Rook(colour),
                    ),
                    None,
                );
                let ghost n: Candidate = (
                    promotion_move(
                        *self,
                        colour,
                        square as int,
                        target as int,
                        Piece::Knight(colour),
                    ),
                    None,
                );
                let ghost b: Candidate = (
                    promotion_move(
                        *self,
                        colour,
                        square as int,
                        target as int,
                        Piece::Bishop(colour),
                    ),
                    None,
                );
                if contains_square(back_rank, target) {
                    res.push(self.promotion_entry(colour, square, target, Piece::Queen(colour)));
                    res.push(self.promotion_entry(colour, square, target, Piece::Rook(colour)));
                    res.push(self.promotion_entry(colour, square, target, Piece::Knight(colour)));
                    res.push(self.promotion_entry(colour, square, target, Piece::Bishop(colour)));
                    proof {
                        assert(added(res@, start) =~= before.push(q).push(r).push(n).push(b));
                        assert forall|e: Candidate|
                            added(res@, start).contains(e) <==> before.contains(e) || e == q || e
                                == r || e == n || e == b by {
                            lemma_seq_contains_after_push(before, q, e);
                            lemma_seq_contains_after_push(before.push(q), r, e);
                            lemma_seq_contains_after_push(before.push(q).push(r), n, e);
                            lemma_seq_contains_after_push(before.push(q).push(r).push(n), b, e);
                        }
                        assert(!before.contains(q));
                        assert(!before.contains(r));
                        assert(!before.contains(n));
                        assert(!before.contains(b));
                        lemma_push_fresh(before, q);
                        lemma_seq_contains_after_push(before, q, r);
                        lemma_push_fresh(before.push(q), r);
                        lemma_seq_contains_after_push(before, q, n);
                        lemma_seq_contains_after_push(before.push(q), r, n);
                        lemma_push_fresh(before.push(q).push(r), n);
                        lemma_seq_contains_after_push(before, q, b);
                        lemma_seq_contains_after_push(before.push(q), r, b);
                        lemma_seq_contains_after_push(before.push(q).push(r), n, b);
                        lemma_push_fresh(before.push(q).push(r).push(n), b);
                        assert forall|e: Candidate|
                            is_promotion_entry(*self, colour, pawns, occupancy, back_rank, e)
                                && e.0.starting_square->0 == square && e.0.destination_square->0
                                == target implies e == q || e == r || e == n || e == b by {
                            let p = e.0.move_type->Promotion_0;
                            if p == Piece::Queen(colour) {
                                assert(e.0 == q.0);
                            } else if p == Piece::Rook(colour) {
                                assert(e.0 == r.0);
                            } else if p == Piece::Knight(colour) {
                                assert(e.0 == n.0);
                            } else {
                                assert(e.0 == b.0);
                            }
                        }
                        assert(is_promotion_entry(*self, colour, pawns, occupancy, back_rank, q));
                        assert(is_promotion_entry(*self, colour, pawns, occupancy, back_rank, r));
                        assert(is_promotion_entry(*self, colour, pawns, occupancy, back_rank, n));
                        assert(is_promotion_entry(*self, colour, pawns, occupancy, back_rank, b));
                    }
                }
                proof {
                    assert forall|e: Candidate| #[trigger]
                        added(res@, start).contains(e) <==> is_promotion_entry(
                            *self,
                            colour,
                            pawns,
                            occupancy,
                            back_rank,
                            e,
                        ) && (e.0.starting_square->0 < square || (e.0.starting_square->0 == square
                            && e.0.destination_square->0 < bound(targets@, j + 1))) by {
                        assert(before.contains(e) <==> is_promotion_entry(
                            *self,
                            colour,
                            pawns,
                            occupancy,
                            back_rank,
                            e,
                        ) && (e.0.starting_square->0 < square || (e.0.starting_square->0 == square
                            && e.0.destination_square->0 < target)));
                        if is_promotion_entry(*self, colour, pawns, occupancy, back_rank, e)
                            && e.0.starting_square->0 == square {
                            let t = e.0.destination_square->0 as int;
                            assert(holds(open, t));
                            assert(t < bound(targets@, j + 1) <==> t <= target);
                        }
                        if holds(back_rank, target as int) {
                            assert(added(res@, start).contains(e) <==> before.contains(e) || e == q
                                || e == r || e == n || e == b);
                        } else {
                            assert(added(res@, start) == before);
                        }
                    }
                }
                j += 1;
            }
            proof {
                assert forall|e: Candidate| #[trigger]
                    added(res@, start).contains(e) <==> is_promotion_entry(
                        *self,
                        colour,
                        pawns,
                        occupancy,
                        back_rank,
                        e,
                    ) && e.0.starting_square->0 < bound(squares@, i + 1) by {
                    if is_promotion_entry(*self, colour, pawns, occupancy, back_rank, e) {
                        let s = e.0.starting_square->0 as int;
                        let t = e.0.destination_square->0 as int;
                        assert(holds(pawns, s));
                        if s == square {
                            assert(holds(open, t));
                        }
                    }
                }
            }
            i += 1;
        }
        proof {
            assert forall|e: Candidate| #[trigger]
                added(res@, start).contains(e) <==> is_promotion_entry(
                    *self,
                    colour,
                    pawns,
                    occupancy,
                    back_rank,
                    e,
                ) by {
                if is_promotion_entry(*self, colour, pawns, occupancy, back_rank, e) {
                    assert(holds(pawns, e.0.starting_square->0 as int));
                }
            }
        }
    }

    /// The promotions of the pawns of `colour` that stand on squares of
    /// `pawns`: four for each pawn and each square of the last rank that the
    /// pawn can go to and that `colour` does not occupy.
    pub fn get_promotion_moves(&self, colour: Colour, pawns: u64, occupancy: u64) -> (res: Vec<
        Candidate,
    >)
        ensures
            forall|e: Candidate| #[trigger]
                res@.contains(e) <==> is_promotion(*self, colour, pawns, occupancy, e.0)
                    && e.1 is None,
            res@.no_duplicates(),
            res@.len() % 4 == 0,
    {
        let mut res: Vec<Candidate> = Vec::new();
        let ghost back_rank: Option<u64> = None;
        let seventh: u64 = rank_squares(6);
        let second: u64 = rank_squares(1);
        if colour == Colour::White && pawns & seventh != 0 {
            let last: u64 = rank_squares(7);
            proof {
                back_rank = Some(last);
            }
            self.add_promotion_moves(last, colour, pawns, occupancy, &mut res);
        } else if colour == Colour::Black && pawns & second != 0 {
            let last: u64 = rank_squares(0);
            proof {
                back_rank = Some(last);
            }
            self.add_promotion_moves(last, colour, pawns, occupancy, &mut res);
        } else {
            proof {
                assert forall|e: Candidate|
                    is_promotion(*self, colour, pawns, occupancy, e.0) implies false by {
                    let s = e.0.starting_square->0 as int;
                    let t = e.0.destination_square->0 as int;
                    assert(s == 8 * rank_of(s) + s % 8);
                    assert(t == 8 * rank_of(t) + t % 8);
                    match colour {
                        Colour::White => {
                            assert(rank_of(s) == 6);
                            lemma_meet(pawns, seventh);
                        },
                        Colour::Black => {
                            assert(rank_of(s) == 1);
                            lemma_meet(pawns, second);
                        },
                    }
                }
            }
        }
        proof {
            assert(added(res@, Seq::<Candidate>::empty()) =~= res@);
            assert forall|e: Candidate| #[trigger]
                res@.contains(e) <==> is_promotion(*self, colour, pawns, occupancy, e.0)
                    && e.1 is None by {
                if back_rank is Some {
                    assert(is_promotion_entry(*self, colour, pawns, occupancy, back_rank->0, e)
                        <==> is_promotion(*self, colour, pawns, occupancy, e.0) && e.1 is None);
                }
            }
        }
        res
    }
}

/// `e` is a move that the generator proposes, paired with the change that
/// belongs to it.
pub open spec fn is_candidate(
    base: bitboard_base,
    colour: Colour,
    killer: int,
    e: Candidate,
) -> bool {
    is_pseudo_legal(base, colour, killer, e.0) && e.1 == mutation_of(e.0)
}

/// Moves the entries of `part` to the end of `res`.
fn append_disjoint(res: &mut Vec<Candidate>, part: &mut Vec<Candidate>)
    requires
        old(res)@.no_duplicates(),
        old(part)@.no_duplicates(),
        forall|e: Candidate| old(res)@.contains(e) ==> !old(part)@.contains(e),
    ensures
        final(res)@ == old(res)@ + old(part)@,
        final(res)@.no_duplicates(),
        forall|e: Candidate| #[trigger]
            final(res)@.contains(e) <==> old(res)@.contains(e) || old(part)@.contains(e),
{
    proof {
        lemma_join(res@, part@);
    }
    res.append(part);
}

impl bitboard_base {
    /// The captures in passing that `colour` can make when a pawn has just
    /// skipped `killer_square`: one for each of its pawns that attacks the
    /// square. There is none where `killer_square` is not a square.
    pub fn get_enpassent_moves(&self, colour: Colour, killer_square: i32) -> (res: Vec<Candidate>)
        ensures
            forall|e: Candidate| #[trigger]
                res@.contains(e) <==> is_en_passant(*self, colour, killer_square as int, e.0)
                    && e.1 is None,
            res@.no_duplicates(),
    {
        let mut res: Vec<Candidate> = Vec::new();
        // there is nothing to capture in passing unless the board has a killer square
        if killer_square >= 0 && killer_square < 64 {
            let pawns: u64 = self.get_side(colour).pawns;
            let squares = extract_squares(pawns);
            let mut i: usize = 0;
            while i < squares.len()
                invariant
                    0 <= i <= squares.len(),
                    on_board(killer_square as int),
                    pawns == self.side(colour).pawns,
                    lists_members(squares@, pawns),
                    forall|e: Candidate| #[trigger]
                        res@.contains(e) <==> is_en_passant(
                            *self,
                            colour,
                            killer_square as int,
                            e.0,
                        ) && e.1 is None && e.0.starting_square->0 < bound(squares@, i as int),
                    res@.no_duplicates(),
                decreases squares.len() - i,
            {
                let square: i32 = squares[i];
                proof {
                    lemma_bound(squares@, pawns, i as int);
                }
                let ghost before = res@;
                let ghost entry: Candidate = (
                    en_passant_move(*self, square as int, killer_square as int, colour),
                    None,
                );
                if contains_square(pawn_attack_targets(square, colour), killer_square) {
                    proof {
                        let s = square as int;
                        let k = killer_square as int;
                        assert(s == 8 * rank_of(s) + s % 8);
                        assert(k == 8 * rank_of(k) + k % 8);
                    }
                    res.push(self.get_enpassent_move(square, killer_square, colour));
                    proof {
                        assert(res@ == before.push(entry));
                        lemma_push_fresh(before, entry);
                        assert forall|e: Candidate|
                            res@.contains(e) <==> before.contains(e) || e == entry by {
                            lemma_seq_contains_after_push(before, entry, e);
                        }
                    }
                }
                proof {
                    assert forall|e: Candidate| #[trigger]
                        res@.contains(e) <==> is_en_passant(
                            *self,
                            colour,
                            killer_square as int,
                            e.0,
                        ) && e.1 is None && e.0.starting_square->0 < bound(squares@, i + 1) by {
                        assert(before.contains(e) <==> is_en_passant(
                            *self,
                            colour,
                            killer_square as int,
                            e.0,
                        ) && e.1 is None && e.0.starting_square->0 < square);
                        if is_en_passant(*self, colour, killer_square as int, e.0) && e.1 is None {
                            let s = e.0.starting_square->0 as int;
                            assert(holds(pawns, s));
                            assert(s < bound(squares@, i + 1) <==> s <= square);
                            if s == square {
                                assert(e.0 == entry.0);
                                assert(e == entry);
                            }
                        }
                        if pawn_attack(square as int, colour, killer_square as int) {
                            assert(res@.contains(e) <==> before.contains(e) || e == entry);
                        } else {
                            assert(res@ == before);
                        }
                    }
                }
                i += 1;
            }
            proof {
                assert forall|e: Candidate| #[trigger]
                    res@.contains(e) <==> is_en_passant(*self, colour, killer_square as int, e.0)
                        && e.1 is None by {
                    if is_en_passant(*self, colour, killer_square as int, e.0) {
                        assert(holds(pawns, e.0.starting_square->0 as int));
                    }
                }
            }
        }
        res
    }

    /// Every move that `colour` could make if its king's safety and the
    /// conditions of castling were of no concern, each with the change that
    /// it makes besides the pieces. `killer_square` is the square that a pawn
    /// has just skipped, or -1.
    pub fn get_pseudo_legal_moves(&self, colour: Colour, killer_square: i32) -> (res: Vec<
        Candidate,
    >)
        ensures
            forall|e: Candidate| #[trigger]
                res@.contains(e) <==> is_candidate(*self, colour, killer_square as int, e),
            res@.no_duplicates(),
    {
        let occupancy: u64 = self.white_occupied | self.black_occupied;
        let side = self.get_side(colour);
        let mut res: Vec<Candidate> = Vec::new();

        // --- Pawn Moves ---
        let mut promotions = self.get_promotion_moves(colour, side.pawns, occupancy);
        let ghost promotions0 = promotions@;
        append_disjoint(&mut res, &mut promotions);
        let mut pawn_moves = self.get_pseudo_legal_piece_moves(
            colour,
            Piece::Pawn(colour),
            side.pawns,
            occupancy,
        );
        let ghost pawn_moves0 = pawn_moves@;
        append_disjoint(&mut res, &mut pawn_moves);
        let mut captures = self.get_enpassent_moves(colour, killer_square);
        let ghost captures0 = captures@;
        append_disjoint(&mut res, &mut captures);

        // --- King Moves ---
        let mut king_moves = self.get_pseudo_legal_piece_moves(
            colour,
            Piece::King(colour),
            side.king,
            occupancy,
        );
        let ghost king_moves0 = king_moves@;
        append_disjoint(&mut res, &mut king_moves);
        // castling is always generated as pseudo-legal and might be removed when checking legality
        let mut castling = self.get_pseudo_legal_castling(colour);
        let ghost castling0 = castling@;
        proof {
            assert(castling0[0] != castling0[1]);
            assert forall|e: Candidate| #[trigger]
                castling0.contains(e) <==> is_castling(*self, colour, e.0) && e.1 == mutation_of(
                    e.0,
                ) by {
                if castling0.contains(e) {
                    let i = choose|i: int| 0 <= i < castling0.len() && castling0[i] == e;
                    assert(i == 0 || i == 1);
                }
                if is_castling(*self, colour, e.0) && e.1 == mutation_of(e.0) {
                    if e.0 == castling_move(*self, colour, Side::King) {
                        assert(castling0[0] == e);
                    } else {
                        assert(castling0[1] == e);
                    }
                }
            }
        }
        append_disjoint(&mut res, &mut castling);

        // --- Queen Moves ---
        let mut queen_moves = self.get_pseudo_legal_piece_moves(
            colour,
            Piece::Queen(colour),
            side.queens,
            occupancy,
        );
        let ghost queen_moves0 = queen_moves@;
        append_disjoint(&mut res, &mut queen_moves);

        // --- Bishop Moves ---
        let mut bishop_moves = self.get_pseudo_legal_piece_moves(
            colour,
            Piece::Bishop(colour),
            side.bishops,
            occupancy,
        );
        let ghost bishop_moves0 = bishop_moves@;
        append_disjoint(&mut res, &mut bishop_moves);

        // --- Knight Moves ---
        let mut knight_moves = self.get_pseudo_legal_piece_moves(
            colour,
            Piece::Knight(colour),
            side.knights,
            occupancy,
        );
        let ghost knight_moves0 = knight_moves@;
        append_disjoint(&mut res, &mut knight_moves);

        // --- Rook Moves ---
        let mut rook_moves = self.get_pseudo_legal_piece_moves(
            colour,
            Piece::Rook(colour),
            side.rooks,
            occupancy,
        );
        let ghost rook_moves0 = rook_moves@;
        append_disjoint(&mut res, &mut rook_moves);

        proof {
            assert forall|e: Candidate| #[trigger]
                res@.contains(e) <==> is_candidate(*self, colour, killer_square as int, e) by {
                assert(res@.contains(e) <==> promotions0.contains(e) || pawn_moves0.contains(e)
                    || captures0.contains(e) || king_moves0.contains(e) || castling0.contains(e)
                    || queen_moves0.contains(e) || bishop_moves0.contains(e)
                    || knight_moves0.contains(e) || rook_moves0.contains(e));
            }
        }
        res
    }
}

/// `attacks` holds the squares of `base` that the side opposing `colour`
/// attacks.
pub open spec fn holds_attacks_on(attacks: u64, base: bitboard_base, colour: Colour) -> bool {
    forall|t: int|
        #![trigger holds(attacks, t)]
        #![trigger attacked(
            base.side(colour.spec_other()),
            colour.spec_other(),
            base.occupancy(),
            t,
        )]
        holds(attacks, t) <==> attacked(
            base.side(colour.spec_other()),
            colour.spec_other(),
            base.occupancy(),
            t,
        )
}

/// The squares that the side opposing `colour` attacks.
pub fn attacks_on(base: &bitboard_base, colour: Colour) -> (res: u64)
    ensures
        holds_attacks_on(res, *base, colour),
{
    generate_attack_targets(
        base.get_side(colour.other()),
        colour.other(),
        base.white_occupied | base.black_occupied,
    )
}

/// Tells whether the king of `colour` stands on a square of `other_attacks`,
/// the squares that the other side attacks.
fn king_among(base: &bitboard_base, colour: Colour, other_attacks: u64) -> (res: bool)
    requires
        holds_attacks_on(other_attacks, *base, colour),
    ensures
        res == in_check(*base, colour),
{
    let side = base.get_side(colour);
    proof {
        lemma_meet(side.king, other_attacks);
        if side.king & other_attacks != 0 {
            let t = choose|t: int| holds(side.king, t) && holds(other_attacks, t);
            assert(attacked(
                base.side(colour.spec_other()),
                colour.spec_other(),
                base.occupancy(),
                t,
            ));
        }
        if in_check(*base, colour) {
            let t = choose|t: int|
                holds(base.side(colour).king, t) && #[trigger] attacked(
                    base.side(colour.spec_other()),
                    colour.spec_other(),
                    base.occupancy(),
                    t,
                );
            assert(holds(side.king, t) && holds(other_attacks, t));
        }
    }
    side.king & other_attacks != 0
}

/// Tells whether the king of `colour` stands on a square that the other side
/// attacks.
pub fn king_attacked(base: &bitboard_base, colour: Colour) -> (res: bool)
    ensures
        res == in_check(*base, colour),
{
    king_among(base, colour, attacks_on(base, colour))
}

/// Tells whether a pawn of either side stands on the first or the last rank.
pub fn has_pawn_on_back_rank(base: &bitboard_base) -> (res: bool)
    ensures
        res == pawn_on_back_rank(*base),
{
    let back_ranks: u64 = rank_squares(0) | rank_squares(7);
    let pawns: u64 = base.white.pawns | base.black.pawns;
    proof {
        broadcast use group_holds;

        lemma_meet(pawns, back_ranks);
        if pawns & back_ranks != 0 {
            let s = choose|s: int| holds(pawns, s) && holds(back_ranks, s);
            assert(pawn_at(*base, s));
        }
        if pawn_on_back_rank(*base) {
            let s = choose|s: int|
                #[trigger] pawn_at(*base, s) && (rank_of(s) == 0 || rank_of(s) == 7);
            assert(holds(pawns, s) && holds(back_ranks, s));
        }
    }
    pawns & back_ranks != 0
}

impl ChessMoveBase {
    /// Whether this castling on `castling_side` meets the conditions of
    /// castling: the right, the free path, the rook in its corner, and no
    /// attack on the squares that the king crosses. `other_attacks` holds the
    /// squares that the other side attacks once the move is made.
    fn castling_is_allowed(
        &self,
        castling_side: Side,
        castling_rights: castling_rights,
        occupancy: u64,
        rooks: (u64, u64),
        other_attacks: u64,
    ) -> (res: bool)
        requires
            holds_attacks_on(other_attacks, self.res_board, self.colour),
        ensures
            res == castling_allowed(*self, castling_side, castling_rights, occupancy, rooks),
    {
        let right: bool = match (self.colour, castling_side) {
            (Colour::White, Side::King) => castling_rights.white_king,
            (Colour::White, Side::Queen) => castling_rights.white_queen,
            (Colour::Black, Side::King) => castling_rights.black_king,
            (Colour::Black, Side::Queen) => castling_rights.black_queen,
        };
        let path: u64 = match (self.colour, castling_side) {
            (Colour::White, Side::King) => square_bit(f1) | square_bit(g1),
            (Colour::White, Side::Queen) => square_bit(b1) | square_bit(c1) | square_bit(d1),
            (Colour::Black, Side::King) => square_bit(f8) | square_bit(g8),
            (Colour::Black, Side::Queen) => square_bit(b8) | square_bit(c8) | square_bit(d8),
        };
        let rook_at_home: bool = match (self.colour, castling_side) {
            (Colour::White, Side::King) => contains_square(rooks.0, h1),
            (Colour::White, Side::Queen) => contains_square(rooks.0, a1),
            (Colour::Black, Side::King) => contains_square(rooks.1, h8),
            (Colour::Black, Side::Queen) => contains_square(rooks.1, a8),
        };
        let crossed: u64 = match (self.colour, castling_side) {
            (Colour::White, Side::King) => square_bit(e1) | square_bit(f1) | square_bit(g1),
            (Colour::White, Side::Queen) => square_bit(c1) | square_bit(d1) | square_bit(e1),
            (Colour::Black, Side::King) => square_bit(e8) | square_bit(f8) | square_bit(g8),
            (Colour::Black, Side::Queen) => square_bit(c8) | square_bit(d8) | square_bit(e8),
        };
        proof {
            broadcast use group_holds;

            lemma_apart(path, occupancy);
            lemma_apart(crossed, other_attacks);
            assert(forall|t: int|
                holds(crossed, t) <==> king_crosses(self.colour, castling_side, t));
            assert(path & occupancy == 0 <==> castling_path_free(
                self.colour,
                castling_side,
                occupancy,
            ));
            let safe = forall|t: int|
                king_crosses(self.colour, castling_side, t) ==> !#[trigger] attacked(
                    self.res_board.side(self.colour.spec_other()),
                    self.colour.spec_other(),
                    self.res_board.occupancy(),
                    t,
                );
            if crossed & other_attacks == 0 {
                assert forall|t: int|
                    king_crosses(self.colour, castling_side, t) implies !#[trigger] attacked(
                    self.res_board.side(self.colour.spec_other()),
                    self.colour.spec_other(),
                    self.res_board.occupancy(),
                    t,
                ) by {
                    assert(holds(crossed, t));
                    assert(!holds(other_attacks, t));
                }
                assert(safe);
            }
            if safe {
                assert forall|t: int| holds(crossed, t) implies !holds(other_attacks, t) by {
                    assert(king_crosses(self.colour, castling_side, t));
                    assert(!attacked(
                        self.res_board.side(self.colour.spec_other()),
                        self.colour.spec_other(),
                        self.res_board.occupancy(),
                        t,
                    ));
                }
            }
        }
        right && path & occupancy == 0 && rook_at_home && crossed & other_attacks == 0
    }

    /// Tells whether this proposed move is legal. `castling_rights`,
    /// `occupancy` and `rooks` (White's, then Black's) are those of the
    /// position before the move.
    pub fn is_legal(
        &self,
        castling_rights: castling_rights,
        occupancy: u64,
        rooks: (u64, u64),
    ) -> (res: bool)
        ensures
            res == legal(*self, castling_rights, occupancy, rooks),
    {
        let other_attacks: u64 = attacks_on(&self.res_board, self.colour);
        // king should not be in check after the move has been made
        if king_among(&self.res_board, self.colour, other_attacks) {
            return false;
        }
        // pawns should not be on any back rank
        if has_pawn_on_back_rank(&self.res_board) {
            return false;
        }
        if let MoveType::Castling(castling_side) = self.move_type {
            // When castling, the corresponding castling right must be true, there must be no
            // pieces between the king and rook, the rook must not have been captured, and the
            // squares over which the king passes must not be attacked by enemy pieces
            if !self.castling_is_allowed(
                castling_side,
                castling_rights,
                occupancy,
                rooks,
                other_attacks,
            ) {
                return false;
            }
        }
        true
    }
}

impl ChessMove {
    /// The legal move that the proposed move `base` makes from `board`, with
    /// the position that it leads to; none where the move is not legal.
    pub fn from_base(
        base: ChessMoveBase,
        board: &Board,
        castling_rights: castling_rights,
        occupancy: u64,
        rooks: (u64, u64),
        mutate_function: Option<Mutation>,
    ) -> (res: Option<Self>)
        requires
            board.halfmove < i32::MAX,
            base.colour == Colour::Black ==> board.fullmove < i32::MAX,
        ensures
            res == (if legal(base, castling_rights, occupancy, rooks) {
                Some(ChessMove { base, board: successor(*board, base, mutate_function) })
            } else {
                None
            }),
    {
        if base.is_legal(castling_rights, occupancy, rooks) {
            let mut new_board = *board;
            new_board.base = base.res_board;
            new_board.side_to_move = board.side_to_move.other();
            new_board.halfmove += 1;
            if base.colour == Colour::Black {
                new_board.fullmove += 1;
            }
            // Reset killer square
            new_board.killer_square = -1;

            if let Some(f) = mutate_function {
                f.apply(&mut new_board);
            }
            Some(Self { base, board: new_board })
        } else {
            None
        }
    }
}

/// Some move is legal from `board`.
pub open spec fn has_legal_move(board: Board) -> bool {
    exists|cm: ChessMove| is_legal_move(board, cm)
}

/// How the game has ended in `board`, where it has: with a win for the side
/// that is not to move where the side to move has no legal move and its king
/// is attacked, with a draw where it has no legal move and its king is not
/// attacked.
pub open spec fn outcome(board: Board) -> Option<FinishedState> {
    if has_legal_move(board) {
        None
    } else if in_check(board.base, board.side_to_move) {
        Some(FinishedState::Win(board.side_to_move.spec_other(), ReasonWin::Checkmate))
    } else {
        Some(FinishedState::Draw(ReasonDraw::Stalemate))
    }
}

impl Board {
    /// The position with the given parts.
    pub fn new(
        base: bitboard_base,
        killer_square: i32,
        castling_rights: castling_rights,
        side_to_move: Colour,
        halfmove: i32,
        fullmove: i32,
    ) -> (res: Self)
        ensures
            res == (Board {
                base,
                killer_square,
                castling_rights,
                side_to_move,
                halfmove,
                fullmove,
            }),
    {
        Self { base, killer_square, castling_rights, side_to_move, halfmove, fullmove }
    }

    /// The legal moves of the side to move, each with the position that it
    /// leads to, in no particular order.
    pub fn generate_legal_moves(&self) -> (res: Vec<ChessMove>)
        requires
            self.halfmove < i32::MAX,
            self.side_to_move == Colour::Black ==> self.fullmove < i32::MAX,
        ensures
            forall|cm: ChessMove| #[trigger] res@.contains(cm) <==> is_legal_move(*self, cm),
            res@.no_duplicates(),
    {
        let mut res: Vec<ChessMove> = Vec::new();
        let occupancy: u64 = self.base.total_occupancy();
        let candidates = self.base.get_pseudo_legal_moves(self.side_to_move, self.killer_square);
        let mut k: usize = 0;
        while k < candidates.len()
            invariant
                0 <= k <= candidates.len(),
                self.halfmove < i32::MAX,
                self.side_to_move == Colour::Black ==> self.fullmove < i32::MAX,
                occupancy == self.base.occupancy(),
                candidates@.no_duplicates(),
                forall|e: Candidate| #[trigger]
                    candidates@.contains(e) <==> is_candidate(
                        self.base,
                        self.side_to_move,
                        self.killer_square as int,
                        e,
                    ),
                forall|cm: ChessMove| #[trigger]
                    res@.contains(cm) <==> is_legal_move(*self, cm) && candidates@.take(
                        k as int,
                    ).contains((cm.base, mutation_of(cm.base))),
                res@.no_duplicates(),
            decreases candidates.len() - k,
        {
            let (m, f) = candidates[k];
            let ghost before = res@;
            let ghost seen = candidates@.take(k as int);
            proof {
                assert(candidates@.contains((m, f)));
                assert(candidates@.take(k + 1) == seen.push((m, f)));
                if seen.contains((m, f)) {
                    let i = choose|i: int| 0 <= i < seen.len() && seen[i] == (m, f);
                    assert(candidates@[i] == candidates@[k as int]);
                }
            }
            let made = ChessMove::from_base(
                m,
                self,
                self.castling_rights,
                occupancy,
                (self.base.white.rooks, self.base.black.rooks),
                f,
            );
            if let Some(legal_move) = made {
                res.push(legal_move);
                proof {
                    lemma_push_fresh(before, legal_move);
                }
            }
            proof {
                assert forall|cm: ChessMove| #[trigger]
                    res@.contains(cm) <==> is_legal_move(*self, cm) && candidates@.take(
                        k + 1,
                    ).contains((cm.base, mutation_of(cm.base))) by {
                    let e = (cm.base, mutation_of(cm.base));
                    lemma_seq_contains_after_push(seen, (m, f), e);
                    if made is Some {
                        lemma_seq_contains_after_push(before, made->0, cm);
                    }
                }
            }
            k += 1;
        }
        proof {
            assert(candidates@.take(k as int) == candidates@);
        }
        res
    }

    /// Tells whether the game goes on, and with which moves, or how it has
    /// ended: in checkmate where the side to move has no legal move and its
    /// king is attacked, in stalemate where it has none and the king is not
    /// attacked. A position without pawns cannot be judged yet.
    pub fn get_game_state(&self) -> (res: GameState)
        requires
            self.base.white.pawns | self.base.black.pawns != 0,
            self.halfmove < i32::MAX,
            self.side_to_move == Colour::Black ==> self.fullmove < i32::MAX,
        ensures
            match res {
                GameState::Ongoing(moves) => {
                    &&& outcome(*self) is None
                    &&& forall|cm: ChessMove| #[trigger]
                        moves@.contains(cm) <==> is_legal_move(*self, cm)
                    &&& moves@.no_duplicates()
                },
                GameState::Finished(state) => outcome(*self) == Some(state),
            },
    {
        // From here on out, we require legal moves of this position
        let moves = self.generate_legal_moves();
        if moves.len() != 0 {
            // If we have gotten this far in the game state checking and there are
            // legal moves, the game is still ongoing.
            proof {
                assert(moves@.contains(moves@[0]));
            }
            GameState::Ongoing(moves)
        } else {
            // The game has ended in either checkmate or stalemate
            proof {
                assert forall|cm: ChessMove| !is_legal_move(*self, cm) by {
                    if is_legal_move(*self, cm) {
                        assert(moves@.contains(cm));
                    }
                }
            }
            GameState::Finished(
                if king_attacked(&self.base, self.side_to_move) {
                    FinishedState::Win(self.side_to_move.other(), ReasonWin::Checkmate)
                } else {
                    FinishedState::Draw(ReasonDraw::Stalemate)
                },
            )
        }
    }
}

/// The position from which a game starts.
pub open spec fn start_board() -> Board {
    Board {
        base: spec_create_base(
            piece_map_bitboards {
                pawns: 0xff00,
                king: 0x10,
                queens: 0x08,
                bishops: 0x24,
                knights: 0x42,
                rooks: 0x81,
            },
            piece_map_bitboards {
                pawns: 0x00ff_0000_0000_0000,
                king: 0x1000_0000_0000_0000,
                queens: 0x0800_0000_0000_0000,
                bishops: 0x2400_0000_0000_0000,
                knights: 0x4200_0000_0000_0000,
                rooks: 0x8100_0000_0000_0000,
            },
        ),
        killer_square: -1i32,
        castling_rights: castling_rights {
            white_king: true,
            white_queen: true,
            black_king: true,
            black_queen: true,
        },
        side_to_move: Colour::White,
        halfmove: 0,
        fullmove: 1,
    }
}

impl Default for Board {
    fn default() -> (res: Self)
        ensures
            res == start_board(),
    {
        let white = piece_map_bitboards {
            pawns: 0xff00,
            king: 0x10,
            queens: 0x08,
            bishops: 0x24,
            knights: 0x42,
            rooks: 0x81,
        };
        let black = piece_map_bitboards {
            pawns: 0x00ff_0000_0000_0000,
            king: 0x1000_0000_0000_0000,
            queens: 0x0800_0000_0000_0000,
            bishops: 0x2400_0000_0000_0000,
            knights: 0x4200_0000_0000_0000,
            rooks: 0x8100_0000_0000_0000,
        };
        Board::new(
            create_base(white, black),
            -1,
            castling_rights {
                white_king: true,
                white_queen: true,
                black_king: true,
                black_queen: true,
            },
            Colour::White,
            0,
            1,
        )
    }
}

/// Tells whether `square` occurs in `list`.
pub fn lists_square(list: &Vec<i32>, square: i32) -> (res: bool)
    ensures
        res == list@.contains(square),
{
    let mut i: usize = 0;
    while i < list.len()
        invariant
            0 <= i <= list.len(),
            forall|j: int| 0 <= j < i ==> list@[j] != square,
        decreases list.len() - i,
    {
        if list[i] == square {
            return true;
        }
        i += 1;
    }
    false
}

/// The piece that the lists of `white` and `black` name for `square`. Where
/// several lists name the square, pawns come before kings, kings before
/// queens, then bishops, knights and rooks, and within a kind White before
/// Black.
pub open spec fn spec_find_on_square(square: i32, white: Pieces, black: Pieces) -> Option<Piece> {
    if white.pawns@.contains(square) {
        Some(Piece::Pawn(Colour::White))
    } else if black.pawns@.contains(square) {
        Some(Piece::Pawn(Colour::Black))
    } else if white.king@.contains(square) {
        Some(Piece::King(Colour::White))
    } else if black.king@.contains(square) {
        Some(Piece::King(Colour::Black))
    } else if white.queens@.contains(square) {
        Some(Piece::Queen(Colour::White))
    } else if black.queens@.contains(square) {
        Some(Piece::Queen(Colour::Black))
    } else if white.bishops@.contains(square) {
        Some(Piece::Bishop(Colour::White))
    } else if black.bishops@.contains(square) {
        Some(Piece::Bishop(Colour::Black))
    } else if white.knights@.contains(square) {
        Some(Piece::Knight(Colour::White))
    } else if black.knights@.contains(square) {
        Some(Piece::Knight(Colour::Black))
    } else if white.rooks@.contains(square) {
        Some(Piece::Rook(Colour::White))
    } else if black.rooks@.contains(square) {
        Some(Piece::Rook(Colour::Black))
    } else {
        None
    }
}

/// Finds the piece that stands on `square`, if any.
pub fn find_on_square(square: i32, white: &Pieces, black: &Pieces) -> (res: Option<Piece>)
    ensures
        res == spec_find_on_square(square, *white, *black),
{
    if lists_square(&white.pawns, square) {
        Some(Piece::Pawn(Colour::White))
    } else if lists_square(&black.pawns, square) {
        Some(Piece::Pawn(Colour::Black))
    } else if lists_square(&white.king, square) {
        Some(Piece::King(Colour::White))
    } else if lists_square(&black.king, square) {
        Some(Piece::King(Colour::Black))
    } else if lists_square(&white.queens, square) {
        Some(Piece::Queen(Colour::White))
    } else if lists_square(&black.queens, square) {
        Some(Piece::Queen(Colour::Black))
    } else if lists_square(&white.bishops, square) {
        Some(Piece::Bishop(Colour::White))
    } else if lists_square(&black.bishops, square) {
        Some(Piece::Bishop(Colour::Black))
    } else if lists_square(&white.knights, square) {
        Some(Piece::Knight(Colour::White))
    } else if lists_square(&black.knights, square) {
        Some(Piece::Knight(Colour::Black))
    } else if lists_square(&white.rooks, square) {
        Some(Piece::Rook(Colour::White))
    } else if lists_square(&black.rooks, square) {
        Some(Piece::Rook(Colour::Black))
    } else {
        None
    }
}

/// A set of squares, one bit for each.
#[derive(Debug, Clone, Copy, PartialEq, Eq)]
pub struct BitBoard(pub u64);

impl BitBoard {
    /// Square `s` is marked in `ranks`, whose first row is the eighth rank and
    /// whose rows run from the a-file to the h-file.
    pub open spec fn marked(ranks: [[u8; 8]; 8], s: int) -> bool {
        ranks[7 - s / 8][s % 8] == 1
    }

    /// The bitboard of the squares marked 1 in `ranks`.
    // Ranks should be ordered 8-1 and squares in rank should be in order a-h
    pub fn from_ranks(ranks: [[u8; 8]; 8]) -> (res: Self)
        ensures
            forall|s: int| 0 <= s < 64 ==> (#[trigger] holds(res.0, s) <==> Self::marked(ranks, s)),
    {
        let mut res: u64 = 0;
        let mut exp: i32 = 0;
        proof {
            broadcast use group_holds;

        }
        while exp < 64
            invariant
                0 <= exp <= 64,
                forall|s: int|
                    0 <= s < 64 ==> (#[trigger] holds(res, s) <==> s < exp && Self::marked(
                        ranks,
                        s,
                    )),
            decreases 64 - exp,
        {
            let rank: usize = (7 - exp / 8) as usize;
            let file: usize = (exp % 8) as usize;
            if ranks[rank][file] == 1 {
                res = res | square_bit(exp);
            }
            proof {
                broadcast use group_holds;

            }
            exp += 1;
        }
        Self(res)
    }
}

} // verus!
