use chess_rules::bitboard::piece_map_bitboards;
use chess_rules::bits::{contains_square, rank_squares, square_bit};
use chess_rules::targets::{
    bishop_targets, generate_attack_targets, king_targets, knight_targets, pawn_attack_targets,
    pawn_targets, piece_attack_targets, piece_targets, queen_targets, rook_targets,
};
use chess_rules::utils::squares::{
    a1, a2, a3, a4, a5, a6, a7, a8, b1, b2, b3, b4, b6, b8, c1, c2, c3, c4, c5, c7, c8, d1,
    d2, d3, d4, d5, d6, d8, e1, e2, e3, e4, e5, e6, e7, e8, f1, f2, f3, f4, f5, f6, f7, f8,
    g1, g2, g3, g4, g5, g6, g7, g8, h1, h3, h4, h5, h6, h7, h8,
};
use chess_rules::utils::{Colour, Piece};

fn set(squares: &[i32]) -> u64 {
    squares.iter().fold(0, |b, s| b | (1u64 << *s))
}

#[test]
fn bits_of_single_squares_and_ranks() {
    assert_eq!(square_bit(a1), 1);
    assert_eq!(square_bit(h8), 1 << 63);
    assert!(contains_square(0x10, e1));
    assert!(!contains_square(0x10, d1));
    assert_eq!(rank_squares(0), 0xff);
    assert_eq!(rank_squares(1), 0xff00);
    assert_eq!(rank_squares(6), 0x00ff_0000_0000_0000);
    assert_eq!(rank_squares(7), 0xff00_0000_0000_0000);
}

#[test]
fn king_in_the_middle_in_a_corner_and_on_an_edge() {
    assert_eq!(king_targets(e4), set(&[d3, e3, f3, d4, f4, d5, e5, f5]));
    assert_eq!(king_targets(a1), set(&[b1, a2, b2]));
    assert_eq!(king_targets(h8), set(&[g7, h7, g8]));
    assert_eq!(king_targets(e1), set(&[d1, f1, d2, e2, f2]));
    assert_eq!(king_targets(h4), set(&[g3, h3, g4, g5, h5]));
}

#[test]
fn knight_in_the_middle_and_in_the_corners() {
    assert_eq!(knight_targets(e4), set(&[d2, f2, c3, g3, c5, g5, d6, f6]));
    assert_eq!(knight_targets(a1), set(&[c2, b3]));
    assert_eq!(knight_targets(h1), set(&[f2, g3]));
    assert_eq!(knight_targets(a8), set(&[b6, c7]));
    assert_eq!(knight_targets(h8), set(&[g6, f7]));
    assert_eq!(knight_targets(b1), set(&[a3, c3, d2]));
}

#[test]
fn pawns_attack_diagonally_ahead() {
    assert_eq!(pawn_attack_targets(e4, Colour::White), set(&[d5, f5]));
    assert_eq!(pawn_attack_targets(e4, Colour::Black), set(&[d3, f3]));
    assert_eq!(pawn_attack_targets(a2, Colour::White), set(&[b3]));
    assert_eq!(pawn_attack_targets(h7, Colour::Black), set(&[g6]));
    assert_eq!(pawn_attack_targets(a8, Colour::White), 0);
    assert_eq!(pawn_attack_targets(a1, Colour::Black), 0);
}

#[test]
fn pawns_push_onto_free_squares_and_capture_onto_occupied_ones() {
    // alone on its home rank: one or two squares ahead
    assert_eq!(pawn_targets(e2, Colour::White, set(&[e2])), set(&[e3, e4]));
    assert_eq!(pawn_targets(e7, Colour::Black, set(&[e7])), set(&[e6, e5]));
    // off the home rank: one square
    assert_eq!(pawn_targets(e3, Colour::White, set(&[e3])), set(&[e4]));
    assert_eq!(pawn_targets(e6, Colour::Black, set(&[e6])), set(&[e5]));
    // blocked right ahead: nothing, not even the double push
    assert_eq!(pawn_targets(e2, Colour::White, set(&[e2, e3])), 0);
    // blocked two ahead: only the single push
    assert_eq!(pawn_targets(e2, Colour::White, set(&[e2, e4])), set(&[e3]));
    // captures onto occupied squares only, whoever stands there
    assert_eq!(pawn_targets(e4, Colour::White, set(&[e4, d5, f5, e5])), set(&[d5, f5]));
    assert_eq!(pawn_targets(e4, Colour::Black, set(&[e4, d3])), set(&[d3, e3]));
    // on the edge of the board
    assert_eq!(pawn_targets(a2, Colour::White, set(&[a2, b3])), set(&[a3, a4, b3]));
    assert_eq!(pawn_targets(h7, Colour::Black, set(&[h7, g6])), set(&[h6, h5, g6]));
    // nothing beyond the last rank
    assert_eq!(pawn_targets(a8, Colour::White, set(&[a8])), 0);
    assert_eq!(pawn_targets(h1, Colour::Black, set(&[h1])), 0);
    // the seventh rank leads to the eighth
    assert_eq!(pawn_targets(a7, Colour::White, set(&[a7, b8])), set(&[a8, b8]));
}

#[test]
fn rook_slides_until_the_first_occupied_square() {
    assert_eq!(
        rook_targets(a1, set(&[a1])),
        set(&[b1, c1, d1, e1, f1, g1, h1, a2, a3, a4, a5, a6, a7, a8])
    );
    assert_eq!(rook_targets(a1, set(&[a1, a2, b1])), set(&[a2, b1]));
    assert_eq!(
        rook_targets(d4, set(&[d4, d6, f4, d2, b2])), set(&[d5, d6, e4, f4, d3, d2, c4, b4, a4])
    );
    assert_eq!(rook_targets(h8, set(&[h8, h7])), set(&[h7, g8, f8, e8, d8, c8, b8, a8]));
}

#[test]
fn bishop_slides_along_the_diagonals() {
    assert_eq!(bishop_targets(a1, set(&[a1])), set(&[b2, c3, d4, e5, f6, g7, h8]));
    assert_eq!(bishop_targets(a1, set(&[a1, c3])), set(&[b2, c3]));
    assert_eq!(
        bishop_targets(d4, set(&[d4, f6, b2])),
        set(&[e5, f6, c3, b2, e3, f2, g1, c5, b6, a7])
    );
    assert_eq!(bishop_targets(h1, set(&[h1, g2])), set(&[g2]));
    assert_eq!(bishop_targets(c1, 0xffff_0000_0000_ffff), set(&[b2, d2]));
}

#[test]
fn queen_is_rook_and_bishop() {
    for (s, occupancy) in [(d4, set(&[d4, f6, b2, d6])), (a1, 0xffff_0000_0000_ffff), (h5, set(&[h5])), (e1, u64::MAX), (e1, 0)] {
        assert_eq!(
            queen_targets(s, occupancy), rook_targets(s, occupancy) | bishop_targets(s, occupancy)
        );
    }
    assert_eq!(queen_targets(d1, 0xffff_0000_0000_ffff), set(&[c1, e1, c2, d2, e2]));
}

#[test]
fn targets_by_kind() {
    let occupancy = set(&[e4, e6, g4]);
    assert_eq!(
        piece_targets(Piece::Pawn(Colour::White), e4, occupancy),
        pawn_targets(e4, Colour::White, occupancy)
    );
    assert_eq!(
        piece_targets(Piece::Pawn(Colour::Black), e4, occupancy),
        pawn_targets(e4, Colour::Black, occupancy)
    );
    assert_eq!(piece_targets(Piece::King(Colour::White), e4, occupancy), king_targets(e4));
    assert_eq!(
        piece_targets(Piece::Queen(Colour::Black), e4, occupancy), queen_targets(e4, occupancy)
    );
    assert_eq!(
        piece_targets(Piece::Bishop(Colour::White), e4, occupancy), bishop_targets(e4, occupancy)
    );
    assert_eq!(piece_targets(Piece::Knight(Colour::Black), e4, occupancy), knight_targets(e4));
    assert_eq!(
        piece_targets(Piece::Rook(Colour::White), e4, occupancy), rook_targets(e4, occupancy)
    );
    assert_eq!(piece_attack_targets(Piece::Pawn(Colour::White), e4, occupancy), set(&[d5, f5]));
    assert_eq!(
        piece_attack_targets(Piece::Rook(Colour::White), e4, occupancy), rook_targets(e4, occupancy)
    );
}

#[test]
fn a_side_attacks_what_any_of_its_pieces_attacks() {
    let none = piece_map_bitboards { pawns: 0, king: 0, queens: 0, bishops: 0, knights: 0, rooks: 0 };
    assert_eq!(generate_attack_targets(none, Colour::White, 0), 0);
    let pieces = piece_map_bitboards { pawns: set(&[e4]), knights: set(&[a1]), rooks: set(&[h1]), ..none };
    let occupancy = set(&[e4, a1, h1, h4]);
    assert_eq!(
        generate_attack_targets(pieces, Colour::White, occupancy),
        set(&[d5, f5]) | set(&[c2, b3]) | rook_targets(h1, occupancy)
    );
    // pawns attack by colour, and a push is no attack
    assert_eq!(
        generate_attack_targets(
            piece_map_bitboards { pawns: set(&[e4]), ..none }, Colour::Black, occupancy,
        ),
        set(&[d3, f3])
    );
    // from the start White attacks its own second rank, the third rank and most of the first
    let white = piece_map_bitboards {
        pawns: 0xff00,
        king: 0x10,
        queens: 0x08,
        bishops: 0x24,
        knights: 0x42,
        rooks: 0x81,
    };
    assert_eq!(generate_attack_targets(white, Colour::White, 0xffff_0000_0000_ffff), 0x00ff_ff7e);
}
