use chess_rules::bitboard::{castling_rights, piece_map_bitboards};
use chess_rules::board::Board;
use chess_rules::utils::fen::{
    chars_of, parse_int, parse_rights, parse_square, split, FenError, CASTLE_KINGSIDE_POSITION, CASTLE_QUEENSIDE_POSITION,
    CHECK_POSITION, CMK_POSITION, EMPTY_BOARD, KILLER_POSITION, PROMOTION_POSITION,
    START_POSITION, TRICKY_POSITION,
};
use chess_rules::utils::squares::{a1, b7, c6, e1, e6, e8, f2, h8};
use chess_rules::utils::Colour;

fn bit(s: i32) -> u64 {
    1u64 << s
}

#[test]
fn start_position_is_the_default_board() {
    let board = Board::from_fen(START_POSITION).unwrap();
    assert_eq!(board, Board::default());
    assert_eq!(board.side_to_move, Colour::White);
    assert_eq!(board.killer_square, -1);
    assert_eq!(board.halfmove, 0);
    assert_eq!(board.fullmove, 1);
    assert_eq!(
        board.castling_rights,
        castling_rights { white_king: true, white_queen: true, black_king: true, black_queen: true }
    );
    assert_eq!(board.base.white_occupied, 0xffff);
    assert_eq!(board.base.black_occupied, 0xffff_0000_0000_0000);
}

#[test]
fn every_sample_position_but_the_empty_one_is_read() {
    for text in [
        START_POSITION,
        CASTLE_KINGSIDE_POSITION,
        CASTLE_QUEENSIDE_POSITION,
        PROMOTION_POSITION,
        CHECK_POSITION,
        TRICKY_POSITION,
        KILLER_POSITION,
        CMK_POSITION,
    ] {
        assert!(Board::from_fen(text).is_ok());
    }
    // the empty board lacks its move counters
    assert_eq!(Board::from_fen(EMPTY_BOARD), Err(FenError::InvalidNumber));
}

#[test]
fn promotion_position_is_read_square_by_square() {
    let board = Board::from_fen(PROMOTION_POSITION).unwrap();
    let none = piece_map_bitboards { pawns: 0, king: 0, queens: 0, bishops: 0, knights: 0, rooks: 0 };
    assert_eq!(
        board.base.white, piece_map_bitboards { pawns: bit(b7) | bit(c6), king: bit(e1), ..none }
    );
    assert_eq!(board.base.black, piece_map_bitboards { king: bit(e8), ..none });
    assert_eq!(board.base.white_occupied, bit(b7) | bit(c6) | bit(e1));
    assert_eq!(board.base.black_occupied, bit(e8));
    assert_eq!(
        board.castling_rights,
        castling_rights {
            white_king: false,
            white_queen: false,
            black_king: false,
            black_queen: false
        }
    );
}

#[test]
fn check_position_has_the_black_pawn_on_f2() {
    let board = Board::from_fen(CHECK_POSITION).unwrap();
    assert_eq!(board.base.black.pawns, bit(f2));
}

#[test]
fn killer_position_names_the_skipped_square() {
    let board = Board::from_fen(KILLER_POSITION).unwrap();
    assert_eq!(board.killer_square, e6);
}

#[test]
fn cmk_position_has_black_to_move_at_move_nine() {
    let board = Board::from_fen(CMK_POSITION).unwrap();
    assert_eq!(board.side_to_move, Colour::Black);
    assert_eq!(board.halfmove, 0);
    assert_eq!(board.fullmove, 9);
    assert_eq!(
        board.castling_rights,
        castling_rights {
            white_king: false,
            white_queen: false,
            black_king: false,
            black_queen: false
        }
    );
}

#[test]
fn castling_rights_are_read_letter_by_letter() {
    let board = Board::from_fen("4k3/8/8/8/8/8/1P6/4K3 w Kq - 3 7").unwrap();
    assert_eq!(
        board.castling_rights,
        castling_rights { white_king: true, white_queen: false, black_king: false, black_queen: true }
    );
    assert_eq!(board.halfmove, 3);
    assert_eq!(board.fullmove, 7);
}

#[test]
fn first_piece_goes_on_h8_when_the_rank_is_read_backwards() {
    let board = Board::from_fen("7r/8/8/8/8/8/8/R7 w - - 0 1").unwrap();
    assert_eq!(board.base.black.rooks, bit(h8));
    assert_eq!(board.base.white.rooks, bit(a1));
}

#[test]
fn line_without_a_space_lacks_fields() {
    assert_eq!(Board::from_fen(""), Err(FenError::MissingField));
    assert_eq!(Board::from_fen("8/8/8/8/8/8/8/8"), Err(FenError::MissingField));
}

#[test]
fn line_that_stops_early_lacks_fields() {
    assert_eq!(Board::from_fen("8/8/8/8/8/8/8/8 w"), Err(FenError::MissingField));
    assert_eq!(Board::from_fen("8/8/8/8/8/8/8/8 w -"), Err(FenError::MissingField));
    assert_eq!(Board::from_fen("8/8/8/8/8/8/8/8 w - -"), Err(FenError::MissingField));
    assert_eq!(Board::from_fen("8/8/8/8/8/8/8/8 w - - 0"), Err(FenError::MissingField));
}

#[test]
fn unknown_letter_in_the_placement_is_refused() {
    assert_eq!(
        Board::from_fen("rnbqkbnr/pppppppp/8/8/8/8/PPPPPPPP/RNBQKBNX w KQkq - 0 1"),
        Err(FenError::InvalidSymbol('X'))
    );
    assert_eq!(Board::from_fen("8/8/8/8/8/8/8/7? w - - 0 1"), Err(FenError::InvalidSymbol('?')));
}

#[test]
fn piece_beyond_the_last_square_is_refused() {
    assert_eq!(Board::from_fen("8/8/8/8/8/8/8/8/K w - - 0 1"), Err(FenError::OffBoard));
    assert_eq!(Board::from_fen("K99999999 w - - 0 1"), Err(FenError::OffBoard));
    // within a rank the last character is read first
    assert!(Board::from_fen("99999999K w - - 0 1").is_ok());
}

#[test]
fn side_must_be_w_or_b() {
    assert_eq!(Board::from_fen("8/8/8/8/8/8/8/8 x - - 0 1"), Err(FenError::InvalidSide));
    assert_eq!(Board::from_fen("8/8/8/8/8/8/8/8 wb - - 0 1"), Err(FenError::InvalidSide));
    assert_eq!(Board::from_fen("8/8/8/8/8/8/8/8  w - - 0 1"), Err(FenError::InvalidSide));
}

#[test]
fn skipped_square_must_be_a_dash_or_the_name_of_a_square() {
    for field in ["e", "ex", "", "z3", "a0", "h9", "e6x", "-x", "--", "E6", "6e", "e66"] {
        let line = format!("8/8/8/8/8/8/8/8 w - {} 0 1", field);
        assert_eq!(Board::from_fen(&line), Err(FenError::InvalidSquare));
        assert_eq!(parse_square(&chars_of(field)), None);
    }
    assert_eq!(parse_square(&chars_of("-")), Some(-1));
    assert_eq!(parse_square(&chars_of("a1")), Some(a1));
    assert_eq!(parse_square(&chars_of("e6")), Some(e6));
    assert_eq!(parse_square(&chars_of("h8")), Some(h8));
    assert_eq!(Board::from_fen("8/8/8/8/8/8/8/8 w - a3 0 1").unwrap().killer_square, 16);
    assert_eq!(Board::from_fen("8/8/8/8/8/8/8/8 w - - 0 1").unwrap().killer_square, -1);
}

#[test]
fn castling_field_must_be_a_dash_or_letters_of_the_four() {
    for field in ["", "x", "KQx", "-K", "K-", "--", "kqKQ1", "W"] {
        let line = format!("8/8/8/8/8/8/8/8 w {} - 0 1", field);
        assert_eq!(Board::from_fen(&line), Err(FenError::InvalidCastling));
        assert_eq!(parse_rights(&chars_of(field)), None);
    }
    let none = castling_rights {
        white_king: false,
        white_queen: false,
        black_king: false,
        black_queen: false,
    };
    assert_eq!(parse_rights(&chars_of("-")), Some(none));
    assert_eq!(parse_rights(&chars_of("Q")), Some(castling_rights { white_queen: true, ..none }));
    assert_eq!(
        parse_rights(&chars_of("qK")),
        Some(castling_rights { white_king: true, black_queen: true, ..none })
    );
    assert_eq!(
        parse_rights(&chars_of("KQkq")),
        Some(castling_rights {
            white_king: true,
            white_queen: true,
            black_king: true,
            black_queen: true
        })
    );
}

#[test]
fn counters_must_be_numbers() {
    assert_eq!(Board::from_fen("8/8/8/8/8/8/8/8 w - - x 1"), Err(FenError::InvalidNumber));
    assert_eq!(Board::from_fen("8/8/8/8/8/8/8/8 w - - 0 1x"), Err(FenError::InvalidNumber));
    assert_eq!(Board::from_fen("8/8/8/8/8/8/8/8 w - - 0 2147483648"), Err(FenError::InvalidNumber));
    assert_eq!(Board::from_fen("8/8/8/8/8/8/8/8 w - - 0 "), Err(FenError::InvalidNumber));
}

#[test]
fn first_fault_is_reported() {
    // a bad letter comes before a bad side
    assert_eq!(Board::from_fen("8/8/8/8/8/8/8/7? x - - 0 1"), Err(FenError::InvalidSymbol('?')));
    // a bad side comes before a missing field
    assert_eq!(Board::from_fen("8/8/8/8/8/8/8/8 x"), Err(FenError::InvalidSide));
    // a bad square comes before a missing counter
    assert_eq!(Board::from_fen("8/8/8/8/8/8/8/8 w - zz"), Err(FenError::InvalidSquare));
    // a bad castling field comes before a bad or a missing square
    assert_eq!(Board::from_fen("8/8/8/8/8/8/8/8 w x zz 0 1"), Err(FenError::InvalidCastling));
    assert_eq!(Board::from_fen("8/8/8/8/8/8/8/8 w x"), Err(FenError::InvalidCastling));
    // a bad side comes before a bad castling field
    assert_eq!(Board::from_fen("8/8/8/8/8/8/8/8 x x - 0 1"), Err(FenError::InvalidSide));
}

#[test]
fn numbers_with_signs_and_limits() {
    assert_eq!(parse_int(&chars_of("0")), Some(0));
    assert_eq!(parse_int(&chars_of("007")), Some(7));
    assert_eq!(parse_int(&chars_of("+15")), Some(15));
    assert_eq!(parse_int(&chars_of("-15")), Some(-15));
    assert_eq!(parse_int(&chars_of("2147483647")), Some(2147483647));
    assert_eq!(parse_int(&chars_of("-2147483648")), Some(-2147483648));
    assert_eq!(parse_int(&chars_of("2147483648")), None);
    assert_eq!(parse_int(&chars_of("-2147483649")), None);
    assert_eq!(parse_int(&chars_of("99999999999999999999999999")), None);
    assert_eq!(parse_int(&chars_of("")), None);
    assert_eq!(parse_int(&chars_of("+")), None);
    assert_eq!(parse_int(&chars_of("-")), None);
    assert_eq!(parse_int(&chars_of("1 ")), None);
    assert_eq!(parse_int(&chars_of("--1")), None);
}

#[test]
fn splitting_keeps_empty_fields() {
    let fields = split(&chars_of("a  b "), ' ');
    let texts: Vec<String> = fields.iter().map(|f| f.iter().collect()).collect();
    assert_eq!(texts, vec!["a", "", "b", ""]);
    let one = split(&chars_of(""), ' ');
    assert_eq!(one.len(), 1);
    assert!(one[0].is_empty());
}

#[test]
fn chars_of_keeps_every_character() {
    assert_eq!(chars_of("a♙b"), vec!['a', '♙', 'b']);
}
