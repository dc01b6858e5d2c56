//! The rules of the game over positions: which moves the generator proposes,
//! which of them are legal, and what position a legal move leads to.
use crate::bitboard::{bitboard_base, castling_rights, piece_map_bitboards, spec_create_base};
use crate::bits::{holds, single};
use crate::board::{Board, ChessMove, ChessMoveBase, MoveType, Mutation, Side};
use crate::targets::{attacked, forward, pawn_attack, pawn_reach, rank_of, reach};
use crate::utils::{Colour, Piece};
use vstd::prelude::*;

verus! {

/// The first square of the rank on which a side's king and rooks start.
pub open spec fn home_corner(colour: Colour) -> int {
    match colour {
        Colour::White => 0,
        Colour::Black => 56,
    }
}

/// The rank on which a side's pawns are promoted.
pub open spec fn promotion_rank(colour: Colour) -> int {
    match colour {
        Colour::White => 7,
        Colour::Black => 0,
    }
}

/// What a standard move of `piece` from `s` to `t` changes besides the pieces.
/// A pawn that advances two ranks leaves the square that it skipped open to
/// capture; a king that moves gives up both castling rights, and a rook that
/// leaves its corner the right on that wing.
pub open spec fn standard_mutation(piece: Piece, s: int, t: int) -> Option<Mutation> {
    if piece == Piece::Pawn(Colour::White) && t - s == 16 {
        Some(Mutation::SetKillerSquare((s + 8) as i32))
    } else if piece == Piece::Pawn(Colour::Black) && s - t == 16 {
        Some(Mutation::SetKillerSquare((s - 8) as i32))
    } else {
        match piece {
            Piece::King(c) => Some(Mutation::RevokeAllCastling(c)),
            Piece::Rook(c) => if s == home_corner(c) {
                Some(Mutation::RevokeCastling(c, Side::Queen))
            } else if s == home_corner(c) + 7 {
                Some(Mutation::RevokeCastling(c, Side::King))
            } else {
                None
            },
            _ => None,
        }
    }
}

/// The standard move of `piece` from `s` to `t`, made by `colour`.
pub open spec fn standard_move(
    base: bitboard_base,
    colour: Colour,
    piece: Piece,
    s: int,
    t: int,
) -> ChessMoveBase {
    ChessMoveBase {
        starting_square: Some(s as i32),
        destination_square: Some(t as i32),
        piece,
        move_type: MoveType::Standard,
        colour,
        res_board: base.after_move(piece, single(s), single(t), colour, None),
    }
}

/// A standard move of `piece` by `colour` may not end on `t`: a pawn that
/// reaches its last rank is promoted and never moves there as a pawn.
pub open spec fn barred(piece: Piece, colour: Colour, t: int) -> bool {
    piece is Pawn && rank_of(t) == promotion_rank(colour)
}

/// `m` is a standard move of `piece` from a square of `bitboard` to a square
/// that the piece can go to and that `colour` does not occupy. A pawn's move
/// onto its last rank is none.
pub open spec fn is_piece_move(
    base: bitboard_base,
    colour: Colour,
    piece: Piece,
    bitboard: u64,
    occupancy: u64,
    m: ChessMoveBase,
) -> bool {
    &&& m.starting_square is Some
    &&& m.destination_square is Some
    &&& {
        let s = m.starting_square->0 as int;
        let t = m.destination_square->0 as int;
        &&& holds(bitboard, s)
        &&& reach(piece, s, occupancy, t)
        &&& !holds(base.side_occupied(colour), t)
        &&& !barred(piece, colour, t)
        &&& m == standard_move(base, colour, piece, s, t)
    }
}

/// A pawn of `colour` may be promoted to `p`.
pub open spec fn promotion_choice(colour: Colour, p: Piece) -> bool {
    ||| p == Piece::Queen(colour)
    ||| p == Piece::Rook(colour)
    ||| p == Piece::Knight(colour)
    ||| p == Piece::Bishop(colour)
}

/// The move of a pawn of `colour` from `s` to `t` where it becomes `p`.
pub open spec fn promotion_move(
    base: bitboard_base,
    colour: Colour,
    s: int,
    t: int,
    p: Piece,
) -> ChessMoveBase {
    ChessMoveBase {
        starting_square: Some(s as i32),
        destination_square: Some(t as i32),
        piece: Piece::Pawn(colour),
        move_type: MoveType::Promotion(p),
        colour,
        res_board: base.after_move(Piece::Pawn(colour), single(s), single(t), colour, Some(p)),
    }
}

/// `m` promotes a pawn that stands on a square of `pawns` and goes to a square
/// of `back_rank` that `colour` does not occupy.
pub open spec fn is_promotion_onto(
    base: bitboard_base,
    colour: Colour,
    pawns: u64,
    occupancy: u64,
    back_rank: u64,
    m: ChessMoveBase,
) -> bool {
    &&& m.starting_square is Some
    &&& m.destination_square is Some
    &&& m.move_type is Promotion
    &&& {
        let s = m.starting_square->0 as int;
        let t = m.destination_square->0 as int;
        let p = m.move_type->Promotion_0;
        &&& holds(pawns, s)
        &&& pawn_reach(s, colour, occupancy, t)
        &&& !holds(base.side_occupied(colour), t)
        &&& holds(back_rank, t)
        &&& promotion_choice(colour, p)
        &&& m == promotion_move(base, colour, s, t, p)
    }
}

/// `m` promotes a pawn that stands on a square of `pawns` and goes to a square
/// of the rank on which the pawns of `colour` are promoted, which `colour`
/// does not occupy.
pub open spec fn is_promotion(
    base: bitboard_base,
    colour: Colour,
    pawns: u64,
    occupancy: u64,
    m: ChessMoveBase,
) -> bool {
    &&& m.starting_square is Some
    &&& m.destination_square is Some
    &&& m.move_type is Promotion
    &&& {
        let s = m.starting_square->0 as int;
        let t = m.destination_square->0 as int;
        let p = m.move_type->Promotion_0;
        &&& holds(pawns, s)
        &&& pawn_reach(s, colour, occupancy, t)
        &&& !holds(base.side_occupied(colour), t)
        &&& rank_of(t) == promotion_rank(colour)
        &&& promotion_choice(colour, p)
        &&& m == promotion_move(base, colour, s, t, p)
    }
}

/// The capture by a pawn of `colour` on `s` of the pawn that has just skipped
/// `k`: the capturing pawn goes to `k`, and the pawn one rank behind `k` is
/// taken off.
pub open spec fn en_passant_move(
    base: bitboard_base,
    s: int,
    k: int,
    colour: Colour,
) -> ChessMoveBase {
    let mover = Piece::Pawn(colour);
    let taken = single(k - 8 * forward(colour));
    let path = single(s) | single(k);
    ChessMoveBase {
        starting_square: Some(s as i32),
        destination_square: Some(k as i32),
        piece: mover,
        move_type: MoveType::EnPassent,
        colour,
        res_board: match colour {
            Colour::White => spec_create_base(
                base.white.toggled(mover, path),
                base.black.toggled(mover, taken),
            ),
            Colour::Black => spec_create_base(
                base.white.toggled(mover, taken),
                base.black.toggled(mover, path),
            ),
        },
    }
}

/// `m` is the capture, by a pawn of `colour` that attacks `killer`, of the
/// pawn that has just skipped that square.
pub open spec fn is_en_passant(
    base: bitboard_base,
    colour: Colour,
    killer: int,
    m: ChessMoveBase,
) -> bool {
    &&& 0 <= killer < 64
    &&& m.starting_square is Some
    &&& {
        let s = m.starting_square->0 as int;
        &&& holds(base.side(colour).pawns, s)
        &&& pawn_attack(s, colour, killer)
        &&& m == en_passant_move(base, s, killer, colour)
    }
}

/// One side's pieces after it has castled on `side`: the king has gone from
/// the e-file to the g-file and the rook from the h-file to the f-file, or
/// the king to the c-file and the rook from the a-file to the d-file.
pub open spec fn castled(
    pieces: piece_map_bitboards,
    colour: Colour,
    side: Side,
) -> piece_map_bitboards {
    let o = home_corner(colour);
    match side {
        Side::King => piece_map_bitboards {
            king: pieces.king ^ (single(o + 4) | single(o + 6)),
            rooks: pieces.rooks ^ (single(o + 5) | single(o + 7)),
            ..pieces
        },
        Side::Queen => piece_map_bitboards {
            king: pieces.king ^ (single(o + 2) | single(o + 4)),
            rooks: pieces.rooks ^ (single(o) | single(o + 3)),
            ..pieces
        },
    }
}

/// The castling of `colour` on `side`.
pub open spec fn castling_move(base: bitboard_base, colour: Colour, side: Side) -> ChessMoveBase {
    ChessMoveBase {
        starting_square: None,
        destination_square: None,
        piece: Piece::King(colour),
        move_type: MoveType::Castling(side),
        colour,
        res_board: match colour {
            Colour::White => spec_create_base(castled(base.white, colour, side), base.black),
            Colour::Black => spec_create_base(base.white, castled(base.black, colour, side)),
        },
    }
}

/// `m` is one of the two castlings of `colour`.
pub open spec fn is_castling(base: bitboard_base, colour: Colour, m: ChessMoveBase) -> bool {
    m == castling_move(base, colour, Side::King) || m == castling_move(base, colour, Side::Queen)
}

/// What the move `m` changes besides the pieces.
pub open spec fn mutation_of(m: ChessMoveBase) -> Option<Mutation> {
    match m.move_type {
        MoveType::Standard => standard_mutation(
            m.piece,
            m.starting_square->0 as int,
            m.destination_square->0 as int,
        ),
        MoveType::Castling(side) => Some(Mutation::RevokeCastling(m.colour, side)),
        MoveType::EnPassent => None,
        MoveType::Promotion(_) => None,
    }
}

/// `m` is a move that the generator proposes for `colour` when `killer` is the
/// square that a pawn has just skipped.
pub open spec fn is_pseudo_legal(
    base: bitboard_base,
    colour: Colour,
    killer: int,
    m: ChessMoveBase,
) -> bool {
    let side = base.side(colour);
    let occupancy = base.occupancy();
    ||| is_promotion(base, colour, side.pawns, occupancy, m)
    ||| is_piece_move(base, colour, Piece::Pawn(colour), side.pawns, occupancy, m)
    ||| is_en_passant(base, colour, killer, m)
    ||| is_piece_move(base, colour, Piece::King(colour), side.king, occupancy, m)
    ||| is_castling(base, colour, m)
    ||| is_piece_move(base, colour, Piece::Queen(colour), side.queens, occupancy, m)
    ||| is_piece_move(base, colour, Piece::Bishop(colour), side.bishops, occupancy, m)
    ||| is_piece_move(base, colour, Piece::Knight(colour), side.knights, occupancy, m)
    ||| is_piece_move(base, colour, Piece::Rook(colour), side.rooks, occupancy, m)
}

/// A square of the king of `colour` is attacked by the other side.
pub open spec fn in_check(base: bitboard_base, colour: Colour) -> bool {
    exists|t: int|
        holds(base.side(colour).king, t) && #[trigger] attacked(
            base.side(colour.spec_other()),
            colour.spec_other(),
            base.occupancy(),
            t,
        )
}

/// A pawn of either side stands on `s`.
pub open spec fn pawn_at(base: bitboard_base, s: int) -> bool {
    holds(base.white.pawns, s) || holds(base.black.pawns, s)
}

/// A pawn of either side stands on the first or the last rank.
pub open spec fn pawn_on_back_rank(base: bitboard_base) -> bool {
    exists|s: int| #[trigger] pawn_at(base, s) && (rank_of(s) == 0 || rank_of(s) == 7)
}

/// The squares between the king and the rook with which `colour` castles on
/// `side` are free in `occupancy`.
pub open spec fn castling_path_free(colour: Colour, side: Side, occupancy: u64) -> bool {
    let o = home_corner(colour);
    match side {
        Side::King => !holds(occupancy, o + 5) && !holds(occupancy, o + 6),
        Side::Queen => !holds(occupancy, o + 1) && !holds(occupancy, o + 2) && !holds(
            occupancy,
            o + 3,
        ),
    }
}

/// The rook with which `colour` castles on `side` stands in its corner.
pub open spec fn castling_rook_home(colour: Colour, side: Side, rooks: u64) -> bool {
    match side {
        Side::King => holds(rooks, home_corner(colour) + 7),
        Side::Queen => holds(rooks, home_corner(colour)),
    }
}

/// `t` is a square that the king of `colour` stands on or crosses when it
/// castles on `side`, the first and the last included.
pub open spec fn king_crosses(colour: Colour, side: Side, t: int) -> bool {
    let o = home_corner(colour);
    match side {
        Side::King => o + 4 <= t <= o + 6,
        Side::Queen => o + 2 <= t <= o + 4,
    }
}

/// The castling `m` on `side` is allowed: the right is there, the path was
/// free and the rook in its corner before the move, and in the position after
/// it the other side attacks none of the squares that the king crossed.
pub open spec fn castling_allowed(
    m: ChessMoveBase,
    side: Side,
    rights: castling_rights,
    occupancy: u64,
    rooks: (u64, u64),
) -> bool {
    let own_rooks = match m.colour {
        Colour::White => rooks.0,
        Colour::Black => rooks.1,
    };
    &&& rights.allows(m.colour, side)
    &&& castling_path_free(m.colour, side, occupancy)
    &&& castling_rook_home(m.colour, side, own_rooks)
    &&& forall|t: int|
        king_crosses(m.colour, side, t) ==> !#[trigger] attacked(
            m.res_board.side(m.colour.spec_other()),
            m.colour.spec_other(),
            m.res_board.occupancy(),
            t,
        )
}

/// The proposed move `m` is legal when, before it, the castling rights were
/// `rights`, the occupied squares `occupancy` and the rooks of White and Black
/// `rooks`.
pub open spec fn legal(
    m: ChessMoveBase,
    rights: castling_rights,
    occupancy: u64,
    rooks: (u64, u64),
) -> bool {
    &&& !in_check(m.res_board, m.colour)
    &&& !pawn_on_back_rank(m.res_board)
    &&& m.move_type matches MoveType::Castling(side) ==> castling_allowed(
        m,
        side,
        rights,
        occupancy,
        rooks,
    )
}

/// The position that the move `m` with the change `mutation` leads to from
/// `board`: the pieces are those of the move, the other side is to move, the
/// half-move clock has advanced, and the full-move number too if Black has
/// moved. No pawn can be captured in passing unless the change says so.
pub open spec fn successor(board: Board, m: ChessMoveBase, mutation: Option<Mutation>) -> Board {
    let next = Board {
        base: m.res_board,
        killer_square: -1i32,
        castling_rights: board.castling_rights,
        side_to_move: board.side_to_move.spec_other(),
        halfmove: (board.halfmove + 1) as i32,
        fullmove: if m.colour == Colour::Black {
            (board.fullmove + 1) as i32
        } else {
            board.fullmove
        },
    };
    match mutation {
        Some(f) => f.applied(next),
        None => next,
    }
}

/// `cm` is a legal move from `board` together with the position that it leads
/// to.
pub open spec fn is_legal_move(board: Board, cm: ChessMove) -> bool {
    &&& is_pseudo_legal(board.base, board.side_to_move, board.killer_square as int, cm.base)
    &&& legal(
        cm.base,
        board.castling_rights,
        board.base.occupancy(),
        (board.base.white.rooks, board.base.black.rooks),
    )
    &&& cm.board == successor(board, cm.base, mutation_of(cm.base))
}

} // verus!
