use chess_rules::board::{
    find_on_square, lists_square, BitBoard, Board, FinishedState, GameState, ReasonDraw, ReasonWin,
};
use chess_rules::utils::fen::{CHECK_POSITION, START_POSITION};
use chess_rules::utils::squares::{
    a1, a2, a8, b1, b2, c1, c2, d1, d2, d8, e1, e2, e4, e8, f2, f8, g2, g8, h1, h2, h7, h8,
};
use chess_rules::utils::{Colour, Piece, Pieces};

fn board(text: &str) -> Board {
    Board::from_fen(text).unwrap()
}

#[test]
fn the_game_goes_on_from_the_start() {
    match board(START_POSITION).get_game_state() {
        GameState::Ongoing(moves) => assert_eq!(moves.len(), 20),
        other => panic!("{:?}", other),
    }
}

#[test]
fn a_king_in_check_with_a_way_out_plays_on() {
    match board(CHECK_POSITION).get_game_state() {
        GameState::Ongoing(moves) => assert_eq!(moves.len(), 5),
        other => panic!("{:?}", other),
    }
}

#[test]
fn fools_mate_is_a_win_for_black() {
    let b = board("rnb1kbnr/pppp1ppp/8/4p3/6Pq/5P2/PPPPP2P/RNBQKBNR w KQkq - 1 3");
    assert!(b.generate_legal_moves().is_empty());
    match b.get_game_state() {
        GameState::Finished(FinishedState::Win(Colour::Black, ReasonWin::Checkmate)) => {}
        other => panic!("{:?}", other),
    }
}

#[test]
fn back_rank_mate_is_a_win_for_white() {
    let b = board("R5k1/5ppp/8/8/8/8/8/4K3 b - - 0 1");
    match b.get_game_state() {
        GameState::Finished(FinishedState::Win(Colour::White, ReasonWin::Checkmate)) => {}
        other => panic!("{:?}", other),
    }
}

#[test]
fn no_move_and_no_check_is_stalemate() {
    let b = board("7k/5Q2/6K1/8/8/1p6/1P6/8 b - - 0 1");
    assert!(b.generate_legal_moves().is_empty());
    match b.get_game_state() {
        GameState::Finished(FinishedState::Draw(ReasonDraw::Stalemate)) => {}
        other => panic!("{:?}", other),
    }
}

#[test]
fn stalemate_of_white() {
    let b = board("8/8/8/8/8/p7/P1k5/K7 w - - 0 1");
    match b.get_game_state() {
        GameState::Finished(FinishedState::Draw(ReasonDraw::Stalemate)) => {}
        other => panic!("{:?}", other),
    }
}

#[test]
fn the_first_list_that_names_the_square_decides() {
    let start = board(START_POSITION);
    let white = Pieces::from_bitboards(start.base.white);
    let black = Pieces::from_bitboards(start.base.black);
    assert_eq!(find_on_square(a1, &white, &black), Some(Piece::Rook(Colour::White)));
    assert_eq!(find_on_square(b1, &white, &black), Some(Piece::Knight(Colour::White)));
    assert_eq!(find_on_square(c1, &white, &black), Some(Piece::Bishop(Colour::White)));
    assert_eq!(find_on_square(d1, &white, &black), Some(Piece::Queen(Colour::White)));
    assert_eq!(find_on_square(e1, &white, &black), Some(Piece::King(Colour::White)));
    assert_eq!(find_on_square(a2, &white, &black), Some(Piece::Pawn(Colour::White)));
    assert_eq!(find_on_square(e4, &white, &black), None);
    assert_eq!(find_on_square(h7, &white, &black), Some(Piece::Pawn(Colour::Black)));
    assert_eq!(find_on_square(a8, &white, &black), Some(Piece::Rook(Colour::Black)));
    assert_eq!(find_on_square(g8, &white, &black), Some(Piece::Knight(Colour::Black)));
    assert_eq!(find_on_square(f8, &white, &black), Some(Piece::Bishop(Colour::Black)));
    assert_eq!(find_on_square(d8, &white, &black), Some(Piece::Queen(Colour::Black)));
    assert_eq!(find_on_square(e8, &white, &black), Some(Piece::King(Colour::Black)));
    // pawns come first, and White before Black
    let mut crowded = Pieces::default();
    crowded.rooks.push(h1);
    crowded.pawns.push(h1);
    let mut other = Pieces::default();
    other.pawns.push(h1);
    other.king.push(h8);
    crowded.queens.push(h8);
    assert_eq!(find_on_square(h1, &crowded, &other), Some(Piece::Pawn(Colour::White)));
    assert_eq!(find_on_square(h1, &other, &crowded), Some(Piece::Pawn(Colour::White)));
    assert_eq!(find_on_square(h8, &crowded, &other), Some(Piece::King(Colour::Black)));
}

#[test]
fn looking_up_a_square_in_a_list() {
    assert!(lists_square(&vec![a1, h8], h8));
    assert!(!lists_square(&vec![a1, h8], e4));
    assert!(!lists_square(&vec![], a1));
}

#[test]
fn pieces_and_bitboards_convert_both_ways() {
    let start = board(START_POSITION);
    let white = Pieces::from_bitboards(start.base.white);
    assert_eq!(white.king, vec![e1]);
    assert_eq!(white.rooks, vec![a1, h1]);
    assert_eq!(white.pawns, vec![a2, b2, c2, d2, e2, f2, g2, h2]);
    assert_eq!(white.to_bitboards(), start.base.white);
    let empty = Pieces::default();
    assert!(empty.king.is_empty() && empty.queens.is_empty() && empty.bishops.is_empty());
    assert!(empty.knights.is_empty() && empty.rooks.is_empty() && empty.pawns.is_empty());
    assert_eq!(empty.to_bitboards().pawns, 0);
}

#[test]
fn bitboard_from_ranks_reads_the_eighth_rank_first() {
    let mut ranks = [[0u8; 8]; 8];
    assert_eq!(BitBoard::from_ranks(ranks), BitBoard(0));
    ranks[7][0] = 1;
    assert_eq!(BitBoard::from_ranks(ranks), BitBoard(1));
    ranks[0][7] = 1;
    assert_eq!(BitBoard::from_ranks(ranks), BitBoard(1 | (1 << 63)));
    ranks[5][2] = 1;
    ranks[5][3] = 1;
    assert_eq!(BitBoard::from_ranks(ranks), BitBoard(1 | (1 << 63) | (1 << 18) | (1 << 19)));
    // only a 1 marks a square
    ranks[4][4] = 2;
    assert_eq!(BitBoard::from_ranks(ranks), BitBoard(1 | (1 << 63) | (1 << 18) | (1 << 19)));
    assert_eq!(BitBoard::from_ranks([[1u8; 8]; 8]), BitBoard(u64::MAX));
}

#[test]
fn colours_and_symbols() {
    assert_eq!(Colour::White.as_int(), 1);
    assert_eq!(Colour::Black.as_int(), 0);
    assert_eq!(Colour::White.other(), Colour::Black);
    assert_eq!(Colour::Black.other(), Colour::White);
    assert_eq!(Piece::Pawn(Colour::Black).symbol(), Some("♙"));
    assert_eq!(Piece::Pawn(Colour::White).symbol(), Some("♟︎"));
    assert_eq!(Piece::King(Colour::Black).symbol(), Some("♔"));
    assert_eq!(Piece::King(Colour::White).symbol(), Some("♚"));
    assert_eq!(Piece::Queen(Colour::Black).symbol(), Some("♕"));
    assert_eq!(Piece::Queen(Colour::White).symbol(), Some("♛"));
    assert_eq!(Piece::Bishop(Colour::Black).symbol(), Some("♗"));
    assert_eq!(Piece::Bishop(Colour::White).symbol(), Some("♝"));
    assert_eq!(Piece::Knight(Colour::Black).symbol(), Some("♘"));
    assert_eq!(Piece::Knight(Colour::White).symbol(), Some("♞"));
    assert_eq!(Piece::Rook(Colour::Black).symbol(), Some("♖"));
    assert_eq!(Piece::Rook(Colour::White).symbol(), Some("♜"));
}
