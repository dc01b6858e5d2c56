use chess_rules::bitboard::squares_to_bitboard;
use chess_rules::board::Board;
use chess_rules::utils::extract_squares;
use chess_rules::utils::fen::START_POSITION;
use chess_rules::utils::squares::{
    a1, a2, a3, a4, a5, a6, a7, a8, b1, b2, b3, b4, b5, b6, b7, b8, c1, c2, c3, c4, c5, c6,
    c7, c8, d1, d2, d3, d4, d5, d6, d7, d8, e1, e2, e3, e4, e5, e6, e7, e8, f1, f2, f3, f4,
    f5, f6, f7, f8, g1, g2, g3, g4, g5, g6, g7, g8, h1, h2, h3, h4, h5, h6, h7, h8, from_str,
    read_digit, read_file, read_rank, square_id, to_str,
};
use chess_rules::utils::File;

#[test]
fn test_squares_parse() {
    assert_eq!(from_str(&to_str(a1).unwrap()), a1);
}

#[test]
fn test_extraction() {
    assert_eq!(vec![a1], extract_squares(1_u64 << a1));
    assert_eq!(vec![b5], extract_squares(1_u64 << b5));
    assert_eq!(vec![g6], extract_squares(1_u64 << g6));
    assert_eq!(vec![h7], extract_squares(1_u64 << h7));
    assert_eq!(vec![d8], extract_squares(1_u64 << d8));

    assert_eq!(
        vec![a1, b5, g6, h7, d8],
        extract_squares(
            (1_u64 << a1) + (1_u64 << g6) + (1_u64 << d8) + (1_u64 << b5) + (1_u64 << h7)
        )
    );
}

#[test]
fn test_fen() {
    let board = Board::from_fen(START_POSITION).unwrap();
    assert_eq!(vec![a1, h1], extract_squares(board.base.white.rooks));
    assert_eq!(vec![b1, g1], extract_squares(board.base.white.knights));
    assert_eq!(vec![c1, f1], extract_squares(board.base.white.bishops));
    assert_eq!(vec![d1], extract_squares(board.base.white.queens));
    assert_eq!(vec![e1], extract_squares(board.base.white.king));
    assert_eq!(
        vec![a2, b2, c2, d2, e2, f2, g2, h2],
        extract_squares(board.base.white.pawns)
    );

    assert_eq!(vec![a8, h8], extract_squares(board.base.black.rooks));
    assert_eq!(vec![b8, g8], extract_squares(board.base.black.knights));
    assert_eq!(vec![c8, f8], extract_squares(board.base.black.bishops));
    assert_eq!(vec![d8], extract_squares(board.base.black.queens));
    assert_eq!(vec![e8], extract_squares(board.base.black.king));
    assert_eq!(
        vec![a7, b7, c7, d7, e7, f7, g7, h7],
        extract_squares(board.base.black.pawns)
    );
}

#[test]
fn square_numbers_run_rank_by_rank() {
    let all = [
        a1, b1, c1, d1, e1, f1, g1, h1,
        a2, b2, c2, d2, e2, f2, g2, h2,
        a3, b3, c3, d3, e3, f3, g3, h3,
        a4, b4, c4, d4, e4, f4, g4, h4,
        a5, b5, c5, d5, e5, f5, g5, h5,
        a6, b6, c6, d6, e6, f6, g6, h6,
        a7, b7, c7, d7, e7, f7, g7, h7,
        a8, b8, c8, d8, e8, f8, g8, h8,
    ];
    for (i, s) in all.iter().enumerate() {
        assert_eq!(*s, i as i32);
    }
}

#[test]
fn names_round_trip_for_every_square() {
    for s in 0..64 {
        let name = to_str(s).unwrap();
        assert_eq!(name.chars().count(), 2);
        assert_eq!(from_str(&name), s);
    }
}

#[test]
fn names_of_the_corners() {
    assert_eq!(to_str(a1).unwrap(), "a1");
    assert_eq!(to_str(h1).unwrap(), "h1");
    assert_eq!(to_str(e4).unwrap(), "e4");
    assert_eq!(to_str(a8).unwrap(), "a8");
    assert_eq!(to_str(h8).unwrap(), "h8");
}

#[test]
fn no_name_outside_the_board() {
    assert_eq!(to_str(-1), None);
    assert_eq!(to_str(64), None);
    assert_eq!(to_str(i32::MIN), None);
    assert_eq!(to_str(i32::MAX), None);
}

#[test]
fn dash_reads_as_no_square() {
    assert_eq!(from_str("-"), -1);
}

#[test]
fn reading_names() {
    assert_eq!(from_str("a1"), a1);
    assert_eq!(from_str("e6"), e6);
    assert_eq!(from_str("c3"), c3);
    assert_eq!(from_str("h8"), h8);
}

#[test]
fn reading_the_parts_of_a_name() {
    assert_eq!(read_file('a'), Some(0));
    assert_eq!(read_file('h'), Some(7));
    assert_eq!(read_file('i'), None);
    assert_eq!(read_file('A'), None);
    assert_eq!(read_file('-'), None);
    assert_eq!(read_rank('1'), Some(0));
    assert_eq!(read_rank('8'), Some(7));
    assert_eq!(read_rank('0'), None);
    assert_eq!(read_rank('9'), None);
    assert_eq!(read_digit('0'), Some(0));
    assert_eq!(read_digit('9'), Some(9));
    assert_eq!(read_digit('a'), None);
}

#[test]
fn square_ids() {
    assert_eq!(square_id(&File::A, 1), a1);
    assert_eq!(square_id(&File::B, 1), b1);
    assert_eq!(square_id(&File::C, 2), c2);
    assert_eq!(square_id(&File::D, 3), d3);
    assert_eq!(square_id(&File::E, 4), e4);
    assert_eq!(square_id(&File::F, 5), f5);
    assert_eq!(square_id(&File::G, 6), g6);
    assert_eq!(square_id(&File::H, 8), h8);
    assert_eq!(square_id(&File::A, 0), -8);
}

#[test]
fn extraction_is_ascending_and_round_trips() {
    let samples: [u64; 7] = [
        0,
        1,
        u64::MAX,
        0x8000_0000_0000_0000,
        0x00ff_0000_0000_ff00,
        0x0123_4567_89ab_cdef,
        0xaaaa_5555_aaaa_5555,
    ];
    for b in samples {
        let list = extract_squares(b);
        assert_eq!(list.len() as u32, b.count_ones());
        for w in list.windows(2) {
            assert!(w[0] < w[1]);
        }
        for s in &list {
            assert!(b & (1u64 << *s) != 0);
        }
        assert_eq!(squares_to_bitboard(&list), b);
    }
}

#[test]
fn squares_to_bitboard_ignores_order_repeats_and_strangers() {
    assert_eq!(squares_to_bitboard(&vec![]), 0);
    assert_eq!(squares_to_bitboard(&vec![h8, a1, a1]), (1u64 << 63) | 1);
    assert_eq!(squares_to_bitboard(&vec![-1, 64, c1]), 1u64 << 2);
}
