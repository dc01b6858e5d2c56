//! Positions and bitboards written out as text, rank by rank from the eighth
//! down, each rank from the a-file to the h-file.
use crate::bitboard::bitboard_base;
use crate::bits::{contains_square, holds};
use crate::board::{find_on_square, spec_find_on_square, BitBoard, Board};
use crate::utils::squares::{spec_to_str, to_str};
use crate::utils::{Colour, Piece, Pieces};
use vstd::prelude::*;
use vstd::string::StringExecFns;

verus! {

/// The decimal digit for a number below ten.
pub open spec fn digit_text(d: int) -> Seq<char> {
    if d == 0 {
        "0"@
    } else if d == 1 {
        "1"@
    } else if d == 2 {
        "2"@
    } else if d == 3 {
        "3"@
    } else if d == 4 {
        "4"@
    } else if d == 5 {
        "5"@
    } else if d == 6 {
        "6"@
    } else if d == 7 {
        "7"@
    } else if d == 8 {
        "8"@
    } else {
        "9"@
    }
}

/// The decimal digits of a number that is not negative, without leading
/// zeros.
pub open spec fn digits_text(n: int) -> Seq<char>
    decreases n,
{
    if n < 10 {
        digit_text(n)
    } else {
        digits_text(n / 10) + digit_text(n % 10)
    }
}

/// A number in decimal, with a minus sign if it is negative.
pub open spec fn decimal_text(n: int) -> Seq<char> {
    if n < 0 {
        "-"@ + digits_text(-n)
    } else {
        digits_text(n)
    }
}

/// Writes the decimal digits of `n` at the end of `out`.
fn write_digits(n: u32, out: &mut String)
    ensures
        final(out)@ == old(out)@ + digits_text(n as int),
    decreases n,
{
    if n >= 10 {
        write_digits(n / 10, out);
    }
    let digit: &str = match n % 10 {
        0 => "0",
        1 => "1",
        2 => "2",
        3 => "3",
        4 => "4",
        5 => "5",
        6 => "6",
        7 => "7",
        8 => "8",
        _ => "9",
    };
    out.append(digit);
    assert(out@ =~= old(out)@ + digits_text(n as int));
}

/// Writes `n` in decimal at the end of `out`.
pub fn write_decimal(n: i32, out: &mut String)
    ensures
        final(out)@ == old(out)@ + decimal_text(n as int),
{
    if n < 0 {
        out.append("-");
        let size: u32 = if n == i32::MIN {
            2147483648
        } else {
            (-n) as u32
        };
        write_digits(size, out);
        assert(out@ =~= old(out)@ + decimal_text(n as int));
    } else {
        write_digits(n as u32, out);
    }
}

/// How a square of a bitboard is written: `1` for a member, `.` for any
/// other, and a space.
pub open spec fn mark_text(b: u64, s: int) -> Seq<char> {
    if holds(b, s) {
        "1 "@
    } else {
        ". "@
    }
}

/// The first `files` squares of a rank of a bitboard.
pub open spec fn marks_text(b: u64, rank: int, files: int) -> Seq<char>
    decreases files,
{
    if files <= 0 {
        Seq::empty()
    } else {
        marks_text(b, rank, files - 1) + mark_text(b, 8 * rank + files - 1)
    }
}

/// The first `rows` lines of a bitboard; the first line is the eighth rank.
pub open spec fn mark_rows_text(b: u64, rows: int) -> Seq<char>
    decreases rows,
{
    if rows <= 0 {
        Seq::empty()
    } else {
        mark_rows_text(b, rows - 1) + marks_text(b, 8 - rows, 8) + "\n"@
    }
}

impl BitBoard {
    /// The bitboard as eight lines of eight marks.
    pub open spec fn text(self) -> Seq<char> {
        mark_rows_text(self.0, 8)
    }

    /// Writes the bitboard out.
    pub fn render(&self) -> (res: String)
        ensures
            res@ == self.text(),
    {
        let mut out = String::new();
        let mut row: i32 = 0;
        while row < 8
            invariant
                0 <= row <= 8,
                out@ == mark_rows_text(self.0, row as int),
            decreases 8 - row,
        {
            let ghost before = out@;
            let rank: i32 = 7 - row;
            let mut file: i32 = 0;
            while file < 8
                invariant
                    0 <= file <= 8,
                    0 <= rank < 8,
                    out@ == before + marks_text(self.0, rank as int, file as int),
                decreases 8 - file,
            {
                if contains_square(self.0, rank * 8 + file) {
                    out.append("1 ");
                } else {
                    out.append(". ");
                }
                file += 1;
                assert(out@ =~= before + marks_text(self.0, rank as int, file as int));
            }
            out.append("\n");
            row += 1;
            assert(out@ =~= mark_rows_text(self.0, row as int));
        }
        out
    }
}

/// The piece that stands on `s`. Where the bitboards disagree, pawns come
/// before kings, kings before queens, then bishops, knights and rooks, and
/// within a kind White before Black.
pub open spec fn piece_on(base: bitboard_base, s: int) -> Option<Piece> {
    if holds(base.white.pawns, s) {
        Some(Piece::Pawn(Colour::White))
    } else if holds(base.black.pawns, s) {
        Some(Piece::Pawn(Colour::Black))
    } else if holds(base.white.king, s) {
        Some(Piece::King(Colour::White))
    } else if holds(base.black.king, s) {
        Some(Piece::King(Colour::Black))
    } else if holds(base.white.queens, s) {
        Some(Piece::Queen(Colour::White))
    } else if holds(base.black.queens, s) {
        Some(Piece::Queen(Colour::Black))
    } else if holds(base.white.bishops, s) {
        Some(Piece::Bishop(Colour::White))
    } else if holds(base.black.bishops, s) {
        Some(Piece::Bishop(Colour::Black))
    } else if holds(base.white.knights, s) {
        Some(Piece::Knight(Colour::White))
    } else if holds(base.black.knights, s) {
        Some(Piece::Knight(Colour::Black))
    } else if holds(base.white.rooks, s) {
        Some(Piece::Rook(Colour::White))
    } else if holds(base.black.rooks, s) {
        Some(Piece::Rook(Colour::Black))
    } else {
        None
    }
}

/// How a square of a position is written: the figurine of the piece on it, or
/// `.` where it is empty, and a space.
pub open spec fn square_text(base: bitboard_base, s: int) -> Seq<char> {
    match piece_on(base, s) {
        Some(piece) => piece.spec_symbol()@ + " "@,
        None => ". "@,
    }
}

/// The first `files` squares of a rank of a position.
pub open spec fn rank_text(base: bitboard_base, rank: int, files: int) -> Seq<char>
    decreases files,
{
    if files <= 0 {
        Seq::empty()
    } else {
        rank_text(base, rank, files - 1) + square_text(base, 8 * rank + files - 1)
    }
}

/// The first `rows` lines of a position; the first line is the eighth rank.
pub open spec fn ranks_text(base: bitboard_base, rows: int) -> Seq<char>
    decreases rows,
{
    if rows <= 0 {
        Seq::empty()
    } else {
        ranks_text(base, rows - 1) + rank_text(base, 8 - rows, 8) + "\n"@
    }
}

/// The line that names the side to move.
pub open spec fn side_text(colour: Colour) -> Seq<char> {
    match colour {
        Colour::White => "White to move\n"@,
        Colour::Black => "Black to move\n"@,
    }
}

/// The line that names the square that a pawn has just skipped.
pub open spec fn killer_text(square: int) -> Seq<char> {
    if 0 <= square < 64 {
        "Board has killer square "@ + spec_to_str(square) + "\n"@
    } else {
        "Board has no killer square\n"@
    }
}

impl Board {
    /// The position as text: the eight ranks, then a line each for the side
    /// to move, the skipped square and the two counters.
    pub open spec fn text(self) -> Seq<char> {
        ranks_text(self.base, 8) + side_text(self.side_to_move) + killer_text(
            self.killer_square as int,
        ) + "Board halfmove clock is "@ + decimal_text(self.halfmove as int) + "\n"@
            + "Board fullmove is "@ + decimal_text(self.fullmove as int) + "\n"@
    }

    /// Writes the position out.
    pub fn render(&self) -> (res: String)
        ensures
            res@ == self.text(),
    {
        let white = Pieces::from_bitboards(self.base.white);
        let black = Pieces::from_bitboards(self.base.black);
        proof {
            crate::utils::lemma_squares_of(self.base.white.pawns);
            crate::utils::lemma_squares_of(self.base.white.king);
            crate::utils::lemma_squares_of(self.base.white.queens);
            crate::utils::lemma_squares_of(self.base.white.bishops);
            crate::utils::lemma_squares_of(self.base.white.knights);
            crate::utils::lemma_squares_of(self.base.white.rooks);
            crate::utils::lemma_squares_of(self.base.black.pawns);
            crate::utils::lemma_squares_of(self.base.black.king);
            crate::utils::lemma_squares_of(self.base.black.queens);
            crate::utils::lemma_squares_of(self.base.black.bishops);
            crate::utils::lemma_squares_of(self.base.black.knights);
            crate::utils::lemma_squares_of(self.base.black.rooks);
        }
        let mut out = String::new();
        let mut row: i32 = 0;
        while row < 8
            invariant
                0 <= row <= 8,
                white.lists(self.base.white),
                black.lists(self.base.black),
                out@ == ranks_text(self.base, row as int),
            decreases 8 - row,
        {
            let ghost before = out@;
            let rank: i32 = 7 - row;
            let mut file: i32 = 0;
            while file < 8
                invariant
                    0 <= file <= 8,
                    0 <= rank < 8,
                    white.lists(self.base.white),
                    black.lists(self.base.black),
                    out@ == before + rank_text(self.base, rank as int, file as int),
                decreases 8 - file,
            {
                let square: i32 = rank * 8 + file;
                proof {
                    lemma_lists_agree(self.base, white, black, square);
                }
                match find_on_square(square, &white, &black) {
                    Some(piece) => {
                        if let Some(symbol) = piece.symbol() {
                            out.append(symbol);
                        }
                        out.append(" ");
                    },
                    None => {
                        // Empty
                        out.append(". ");
                    },
                }
                file += 1;
                assert(out@ =~= before + rank_text(self.base, rank as int, file as int));
            }
            out.append("\n");
            row += 1;
            assert(out@ =~= ranks_text(self.base, row as int));
        }
        match self.side_to_move {
            Colour::White => out.append("White to move\n"),
            Colour::Black => out.append("Black to move\n"),
        }
        if let Some(square) = to_str(self.killer_square) {
            out.append("Board has killer square ");
            out.append(square.as_str());
            out.append("\n");
        } else {
            out.append("Board has no killer square\n");
        }
        out.append("Board halfmove clock is ");
        write_decimal(self.halfmove, &mut out);
        out.append("\n");
        out.append("Board fullmove is ");
        write_decimal(self.fullmove, &mut out);
        out.append("\n");
        assert(out@ =~= self.text());
        out
    }
}

/// The lists of a position's pieces name for a square the piece that the
/// bitboards hold there.
proof fn lemma_lists_agree(base: bitboard_base, white: Pieces, black: Pieces, square: i32)
    requires
        0 <= square < 64,
        white.lists(base.white),
        black.lists(base.black),
    ensures
        spec_find_on_square(square, white, black) == piece_on(base, square as int),
{
    lemma_list_names_members(base.white.pawns, square);
    lemma_list_names_members(base.white.king, square);
    lemma_list_names_members(base.white.queens, square);
    lemma_list_names_members(base.white.bishops, square);
    lemma_list_names_members(base.white.knights, square);
    lemma_list_names_members(base.white.rooks, square);
    lemma_list_names_members(base.black.pawns, square);
    lemma_list_names_members(base.black.king, square);
    lemma_list_names_members(base.black.queens, square);
    lemma_list_names_members(base.black.bishops, square);
    lemma_list_names_members(base.black.knights, square);
    lemma_list_names_members(base.black.rooks, square);
}

/// The ascending list of a bitboard's members names a square exactly if the
/// bitboard holds it.
proof fn lemma_list_names_members(b: u64, square: i32)
    requires
        0 <= square < 64,
    ensures
        crate::utils::squares_of(b).contains(square) <==> holds(b, square as int),
{
    crate::utils::lemma_squares_of(b);
    let list = crate::utils::squares_of(b);
    if list.contains(square) {
        let i = choose|i: int| 0 <= i < list.len() && list[i] == square;
        assert(holds(b, list[i] as int));
    }
    if holds(b, square as int) {
        assert(list.contains((square as int) as i32));
    }
}

} // verus!
