use chess_rules::board::{BitBoard, Board};
use chess_rules::text::write_decimal;
use chess_rules::utils::fen::{CMK_POSITION, KILLER_POSITION, START_POSITION};

fn decimal(n: i32) -> String {
    let mut out = String::from("n=");
    write_decimal(n, &mut out);
    out
}

#[test]
fn numbers_are_written_in_decimal() {
    assert_eq!(decimal(0), "n=0");
    assert_eq!(decimal(7), "n=7");
    assert_eq!(decimal(10), "n=10");
    assert_eq!(decimal(1203), "n=1203");
    assert_eq!(decimal(-45), "n=-45");
    assert_eq!(decimal(i32::MAX), "n=2147483647");
    assert_eq!(decimal(i32::MIN), "n=-2147483648");
    for n in [-100000, -11, -1, 1, 9, 99, 100, 65535, 1000000000] {
        assert_eq!(decimal(n), format!("n={}", n));
    }
}

#[test]
fn empty_bitboard_is_eight_lines_of_dots() {
    assert_eq!(BitBoard(0).render(), ". . . . . . . . \n".repeat(8));
}

#[test]
fn bitboard_shows_the_eighth_rank_first_and_the_a_file_left() {
    let text = BitBoard(0x81 | (1 << 63) | (1 << 18)).render();
    let lines: Vec<&str> = text.split('\n').collect();
    assert_eq!(
        lines,
        vec![
            ". . . . . . . 1 ",
            ". . . . . . . . ",
            ". . . . . . . . ",
            ". . . . . . . . ",
            ". . . . . . . . ",
            ". . 1 . . . . . ",
            ". . . . . . . . ",
            "1 . . . . . . 1 ",
            "",
        ]
    );
}

#[test]
fn full_bitboard_is_all_ones() {
    assert_eq!(BitBoard(u64::MAX).render(), "1 1 1 1 1 1 1 1 \n".repeat(8));
}

#[test]
fn the_starting_position_written_out() {
    let text = Board::from_fen(START_POSITION).unwrap().render();
    let expected = "♖ ♘ ♗ ♕ ♔ ♗ ♘ ♖ \n\
                    ♙ ♙ ♙ ♙ ♙ ♙ ♙ ♙ \n\
                    . . . . . . . . \n\
                    . . . . . . . . \n\
                    . . . . . . . . \n\
                    . . . . . . . . \n\
                    ♟︎ ♟︎ ♟︎ ♟︎ ♟︎ ♟︎ ♟︎ ♟︎ \n\
                    ♜ ♞ ♝ ♛ ♚ ♝ ♞ ♜ \n\
                    White to move\n\
                    Board has no killer square\n\
                    Board halfmove clock is 0\n\
                    Board fullmove is 1\n";
    assert_eq!(text, expected);
}

#[test]
fn the_skipped_square_is_named() {
    let text = Board::from_fen(KILLER_POSITION).unwrap().render();
    assert!(text.ends_with(
        "White to move\nBoard has killer square e6\nBoard halfmove clock is 0\nBoard fullmove is 1\n"
    ));
    assert!(text.starts_with("♖ ♘ ♗ ♕ ♔ ♗ . ♖ \n♙ ♙ . ♙ . ♙ ♟︎ ♙ \n"));
}

#[test]
fn black_to_move_and_the_counters() {
    let text = Board::from_fen(CMK_POSITION).unwrap().render();
    assert!(text.ends_with(
        "Black to move\nBoard has no killer square\nBoard halfmove clock is 0\nBoard fullmove is 9\n"
    ));
    let odd = Board::from_fen("4k3/8/8/8/8/8/1P6/4K3 b - - -12 345").unwrap().render();
    assert!(odd.ends_with(
        "Black to move\nBoard has no killer square\nBoard halfmove clock is -12\nBoard fullmove is 345\n"
    ));
}
