//! What holds of every legal move and of every position that one leads to.
use crate::bitboard::bitboard_base;
use crate::bits::{group_holds, holds, lemma_same_members, single};
use crate::board::{
    has_legal_move, outcome, Board, ChessMove, ChessMoveBase, FinishedState, MoveType, ReasonDraw,
    ReasonWin, Side,
};
use crate::rules::{
    castling_path_free, castling_rook_home, in_check, is_legal_move, is_promotion,
    is_pseudo_legal, king_crosses, pawn_at, promotion_choice, promotion_move, promotion_rank,
};
use crate::targets::{attacked, pawn_attack, pawn_reach, rank_of};
use crate::utils::{Colour, Piece};
use vstd::prelude::*;

verus! {

/// Every proposed move comes with pieces whose occupancy is the union of each
/// side's six bitboards.
pub proof fn lemma_proposed_position_well_formed(
    base: bitboard_base,
    colour: Colour,
    killer: int,
    m: ChessMoveBase,
)
    requires
        is_pseudo_legal(base, colour, killer, m),
    ensures
        m.res_board.well_formed(),
        m.colour == colour,
{
}

/// A move onto a square that the other side does not occupy takes nothing:
/// the other side's pieces stay as they are.
pub proof fn lemma_move_to_free_square_takes_nothing(
    base: bitboard_base,
    piece: Piece,
    from: u64,
    t: int,
    colour: Colour,
    promotion: Option<Piece>,
)
    requires
        0 <= t < 64,
        !holds(base.side(colour.spec_other()).occupied(), t),
    ensures
        base.after_move(piece, from, single(t), colour, promotion).side(colour.spec_other())
            == base.side(colour.spec_other()),
{
    broadcast use group_holds;

    let other = base.side(colour.spec_other());
    let rest = other.without(single(t));
    assert(rest.pawns == other.pawns) by {
        lemma_same_members(rest.pawns, other.pawns);
    }
    assert(rest.king == other.king) by {
        lemma_same_members(rest.king, other.king);
    }
    assert(rest.queens == other.queens) by {
        lemma_same_members(rest.queens, other.queens);
    }
    assert(rest.bishops == other.bishops) by {
        lemma_same_members(rest.bishops, other.bishops);
    }
    assert(rest.knights == other.knights) by {
        lemma_same_members(rest.knights, other.knights);
    }
    assert(rest.rooks == other.rooks) by {
        lemma_same_members(rest.rooks, other.rooks);
    }
}

/// A move onto a square takes whatever the other side had there: afterwards
/// the other side occupies the square no more, and every other square as
/// before.
pub proof fn lemma_move_clears_destination(
    base: bitboard_base,
    piece: Piece,
    from: u64,
    t: int,
    colour: Colour,
    promotion: Option<Piece>,
    s: int,
)
    requires
        0 <= t < 64,
    ensures
        holds(
            base.after_move(piece, from, single(t), colour, promotion).side(
                colour.spec_other(),
            ).occupied(),
            s,
        ) <==> s != t && holds(base.side(colour.spec_other()).occupied(), s),
{
    broadcast use group_holds;

}

/// A legal move is made by the side to move, and the position that it leads
/// to holds the pieces as the move leaves them, with the occupancy derived
/// from them and the other side to move.
pub proof fn lemma_legal_move_shape(board: Board, cm: ChessMove)
    requires
        is_legal_move(board, cm),
    ensures
        cm.base.colour == board.side_to_move,
        cm.base.piece.colour() == board.side_to_move,
        cm.board.base == cm.base.res_board,
        cm.board.base.well_formed(),
        cm.board.side_to_move == board.side_to_move.spec_other(),
{
}

/// No legal move leaves the king of the side that made it on a square that
/// the other side attacks.
pub proof fn lemma_legal_move_keeps_king_safe(board: Board, cm: ChessMove)
    requires
        is_legal_move(board, cm),
    ensures
        !in_check(cm.board.base, board.side_to_move),
{
    lemma_legal_move_shape(board, cm);
}

/// A legal castling had the right to it, a free path between king and rook,
/// the rook in its corner, and crosses no square that the other side attacks
/// once the move is made.
pub proof fn lemma_castling_conditions(board: Board, cm: ChessMove, side: Side)
    requires
        is_legal_move(board, cm),
        cm.base.move_type == MoveType::Castling(side),
    ensures
        board.castling_rights.allows(board.side_to_move, side),
        castling_path_free(board.side_to_move, side, board.base.occupancy()),
        castling_rook_home(board.side_to_move, side, board.base.side(board.side_to_move).rooks),
        forall|t: int|
            king_crosses(board.side_to_move, side, t) ==> !#[trigger] attacked(
                cm.board.base.side(board.side_to_move.spec_other()),
                board.side_to_move.spec_other(),
                cm.board.base.occupancy(),
                t,
            ),
        !cm.board.castling_rights.allows(board.side_to_move, side),
{
    lemma_legal_move_shape(board, cm);
}

/// `m` moves a pawn two ranks.
pub open spec fn is_double_push(m: ChessMoveBase) -> bool {
    &&& m.move_type is Standard
    &&& m.piece is Pawn
    &&& m.starting_square is Some
    &&& m.destination_square is Some
    &&& {
        let s = m.starting_square->0;
        let t = m.destination_square->0;
        t - s == 16 || s - t == 16
    }
}

/// The square that a pawn skips when `m` moves it two ranks.
pub open spec fn skipped_square(m: ChessMoveBase) -> int {
    (m.starting_square->0 + m.destination_square->0) / 2
}

/// After a legal move the position names a skipped square exactly if the move
/// took a pawn two ranks ahead, and then it names the square between. After
/// any other move it names none, so that a skipped square lasts one ply.
pub proof fn lemma_skipped_square_lasts_one_ply(board: Board, cm: ChessMove)
    requires
        is_legal_move(board, cm),
    ensures
        is_double_push(cm.base) ==> cm.board.killer_square == skipped_square(cm.base),
        !is_double_push(cm.base) ==> cm.board.killer_square == -1,
{
    lemma_legal_move_shape(board, cm);
    let m = cm.base;
    if m.move_type is Standard {
        let s = m.starting_square->0 as int;
        let t = m.destination_square->0 as int;
        assert(s == 8 * rank_of(s) + s % 8);
        assert(t == 8 * rank_of(t) + t % 8);
    }
}

/// A capture in passing is legal only where the position names a skipped
/// square: the capturing pawn attacks that square and ends on it.
pub proof fn lemma_en_passant_needs_skipped_square(board: Board, cm: ChessMove)
    requires
        is_legal_move(board, cm),
        cm.base.move_type is EnPassent,
    ensures
        0 <= board.killer_square < 64,
        cm.base.starting_square is Some,
        cm.base.destination_square == Some(board.killer_square),
        holds(board.base.side(board.side_to_move).pawns, cm.base.starting_square->0 as int),
        pawn_attack(
            cm.base.starting_square->0 as int,
            board.side_to_move,
            board.killer_square as int,
        ),
{
}

/// A capture in passing is legal only in the ply that follows a pawn's move
/// two ranks ahead, and only by a pawn that attacks the square that was
/// skipped.
pub proof fn lemma_en_passant_follows_double_push(board: Board, first: ChessMove, second: ChessMove)
    requires
        is_legal_move(board, first),
        is_legal_move(first.board, second),
        second.base.move_type is EnPassent,
    ensures
        is_double_push(first.base),
        second.base.destination_square == Some(skipped_square(first.base) as i32),
        pawn_attack(
            second.base.starting_square->0 as int,
            first.board.side_to_move,
            skipped_square(first.base),
        ),
{
    lemma_skipped_square_lasts_one_ply(board, first);
    lemma_en_passant_needs_skipped_square(first.board, second);
}

/// Where a pawn of the side to move can go to a square of its last rank that
/// its own side does not occupy, each of the four promotions to that square
/// is proposed.
pub proof fn lemma_four_promotions_proposed(board: Board, s: int, t: int, p: Piece)
    requires
        holds(board.base.side(board.side_to_move).pawns, s),
        pawn_reach(s, board.side_to_move, board.base.occupancy(), t),
        !holds(board.base.side_occupied(board.side_to_move), t),
        rank_of(t) == promotion_rank(board.side_to_move),
        promotion_choice(board.side_to_move, p),
    ensures
        is_pseudo_legal(
            board.base,
            board.side_to_move,
            board.killer_square as int,
            promotion_move(board.base, board.side_to_move, s, t, p),
        ),
{
    let m = promotion_move(board.base, board.side_to_move, s, t, p);
    assert(is_promotion(
        board.base,
        board.side_to_move,
        board.base.side(board.side_to_move).pawns,
        board.base.occupancy(),
        m,
    ));
}

/// A proposed promotion is one of the four: to queen, rook, knight or bishop
/// of the side to move.
pub proof fn lemma_no_fifth_promotion(board: Board, m: ChessMoveBase)
    requires
        is_pseudo_legal(board.base, board.side_to_move, board.killer_square as int, m),
        m.move_type is Promotion,
    ensures
        promotion_choice(board.side_to_move, m.move_type->Promotion_0),
        m == promotion_move(
            board.base,
            board.side_to_move,
            m.starting_square->0 as int,
            m.destination_square->0 as int,
            m.move_type->Promotion_0,
        ),
        rank_of(m.destination_square->0 as int) == promotion_rank(board.side_to_move),
{
}

/// No legal move leaves a pawn on the first or the last rank: a pawn that
/// gets there is promoted.
pub proof fn lemma_no_pawn_reaches_last_rank(board: Board, cm: ChessMove, s: int)
    requires
        is_legal_move(board, cm),
        rank_of(s) == 0 || rank_of(s) == 7,
    ensures
        !pawn_at(cm.board.base, s),
{
    lemma_legal_move_shape(board, cm);
}

/// No proposed move is a plain pawn move onto the first or the last rank: a
/// pawn reaches its last rank by a promotion only.
pub proof fn lemma_no_bare_pawn_move_to_last_rank(
    base: bitboard_base,
    colour: Colour,
    killer: int,
    m: ChessMoveBase,
)
    requires
        is_pseudo_legal(base, colour, killer, m),
        m.piece is Pawn,
        m.move_type is Standard,
    ensures
        0 < rank_of(m.destination_square->0 as int) < 7,
{
    let s = m.starting_square->0 as int;
    let t = m.destination_square->0 as int;
    assert(s == 8 * rank_of(s) + s % 8);
    assert(t == 8 * rank_of(t) + t % 8);
}

/// A proposed standard move or promotion ends on a square that the mover
/// does not occupy, so that no piece lands on a piece of its own side.
pub proof fn lemma_no_move_onto_own_piece(
    base: bitboard_base,
    colour: Colour,
    killer: int,
    m: ChessMoveBase,
)
    requires
        is_pseudo_legal(base, colour, killer, m),
        m.move_type is Standard || m.move_type is Promotion,
    ensures
        !holds(base.side_occupied(colour), m.destination_square->0 as int),
{
}

/// A legal move advances the half-move clock by one, and the full-move number
/// by one if Black made it and not at all if White did.
pub proof fn lemma_counters_advance(board: Board, cm: ChessMove)
    requires
        is_legal_move(board, cm),
        board.halfmove < i32::MAX,
        board.side_to_move == Colour::Black ==> board.fullmove < i32::MAX,
    ensures
        cm.board.halfmove == board.halfmove + 1,
        board.side_to_move == Colour::Black ==> cm.board.fullmove == board.fullmove + 1,
        board.side_to_move == Colour::White ==> cm.board.fullmove == board.fullmove,
{
    lemma_legal_move_shape(board, cm);
}

/// A legal move grants no castling right: the rights after it are among those
/// before it.
pub proof fn lemma_rights_only_shrink(board: Board, cm: ChessMove)
    requires
        is_legal_move(board, cm),
    ensures
        cm.board.castling_rights.within(board.castling_rights),
{
}

/// Where the side to move has no legal move, the game has ended: in a win for
/// the other side by checkmate if its king is attacked, in a draw by
/// stalemate if not.
pub proof fn lemma_checkmate_or_stalemate(board: Board)
    requires
        !has_legal_move(board),
    ensures
        in_check(board.base, board.side_to_move) ==> outcome(board) == Some(
            FinishedState::Win(board.side_to_move.spec_other(), ReasonWin::Checkmate),
        ),
        !in_check(board.base, board.side_to_move) ==> outcome(board) == Some(
            FinishedState::Draw(ReasonDraw::Stalemate),
        ),
{
}

} // verus!
