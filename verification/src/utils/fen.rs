//! Positions written as one line of text: the pieces rank by rank from the
//! eighth to the first, the side to move (`w` or `b`), the castling rights
//! (letters of `KQkq`, or `-`), the square that a pawn has just skipped (its
//! algebraic name, or `-`), and the two move counters, separated by single
//! spaces.
use crate::bitboard::{castling_rights, create_base, piece_map_bitboards, spec_create_base};
use crate::board::Board;
use crate::utils::squares::{
    digit_value, read_digit, read_file, read_rank, readable, spec_from_str,
};
use crate::utils::{Colour, Piece};
use vstd::prelude::*;

verus! {

/// A board without pieces. The line lacks the two move counters, so that it
/// is no complete record by itself.
pub const EMPTY_BOARD: &'static str = "8/8/8/8/8/8/8/8 w - - ";

/// The position from which a game starts.
pub const START_POSITION: &'static str = "rnbqkbnr/pppppppp/8/8/8/8/PPPPPPPP/RNBQKBNR w KQkq - 0 1 ";

/// The starting position without the pieces between king and king's rook.
pub const CASTLE_KINGSIDE_POSITION: &'static str =
    "rnbqk2r/pppppppp/8/8/8/8/PPPPPPPP/RNBQK2R w KQkq - 0 1 ";

/// The starting position without the pieces between king and queen's rook.
pub const CASTLE_QUEENSIDE_POSITION: &'static str = "r3kbnr/pppppppp/8/8/8/8/PPPPPPPP/R3KBNR w KQkq - 0 1 ";

/// White has a pawn one step from promotion.
pub const PROMOTION_POSITION: &'static str = "4k3/1P6/2P5/8/8/8/8/4K3 w - - 0 1";

/// A black pawn gives check to the white king.
pub const CHECK_POSITION: &'static str = "4k3/1P6/2P5/8/8/8/5p2/4K3 w - - 0 1";

/// A middlegame in which every kind of move occurs.
pub const TRICKY_POSITION: &'static str =
    "r3k2r/p1ppqpb1/bn2pnp1/3PN3/1p2P3/2N2Q1p/PPPBBPPP/R3K2R w KQkq - 0 1 ";

/// A pawn has just skipped e6 and can be captured in passing.
pub const KILLER_POSITION: &'static str =
    "rnbqkb1r/pp1p1pPp/8/2p1pP2/1P1P4/3P3P/P1P1P3/RNBQKBNR w KQkq e6 0 1";

/// A middlegame with Black to move.
pub const CMK_POSITION: &'static str =
    "r2q1rk1/ppp2ppp/2n1bn2/2b1p3/3pP3/3P1NPP/PPP1NPB1/R1BQ1RK1 b - - 0 9 ";

/// Why a line of text is not a position.
#[derive(Debug, Clone, Copy, PartialEq, Eq)]
pub enum FenError {
    /// The line has fewer than six fields.
    MissingField,
    /// The piece placement holds a character that is neither a digit nor the
    /// letter of a piece.
    InvalidSymbol(char),
    /// The piece placement puts a piece beyond the last square.
    OffBoard,
    /// The side to move is neither `w` nor `b`.
    InvalidSide,
    /// The field of the castling rights is neither `-` nor made of the
    /// letters `K`, `Q`, `k` and `q`.
    InvalidCastling,
    /// The field of the skipped square is neither `-` nor a file and a rank.
    InvalidSquare,
    /// A move counter is not a number that fits 32 bits.
    InvalidNumber,
}

/// The fields of `s` between the occurrences of `sep`, as they stand when all
/// of `s` has been read: the finished fields and the one still open.
pub open spec fn split_state(s: Seq<char>, sep: char) -> (Seq<Seq<char>>, Seq<char>)
    decreases s.len(),
{
    if s.len() == 0 {
        (Seq::empty(), Seq::empty())
    } else {
        let (done, open) = split_state(s.drop_last(), sep);
        if s.last() == sep {
            (done.push(open), Seq::empty())
        } else {
            (done, open.push(s.last()))
        }
    }
}

/// The fields of `s` between the occurrences of `sep`. There is one field
/// more than there are separators, and a field may be empty.
pub open spec fn spec_split(s: Seq<char>, sep: char) -> Seq<Seq<char>> {
    split_state(s, sep).0.push(split_state(s, sep).1)
}

/// The fields put together again, with `sep` between one and the next.
pub open spec fn spec_join(fields: Seq<Seq<char>>, sep: char) -> Seq<char>
    decreases fields.len(),
{
    if fields.len() == 0 {
        Seq::empty()
    } else if fields.len() == 1 {
        fields[0]
    } else {
        spec_join(fields.drop_last(), sep).push(sep) + fields.last()
    }
}

/// Splitting loses nothing and leaves no separator behind: the fields of a
/// text, put together again, are the text, and none of them holds `sep`.
pub proof fn lemma_split_joins(s: Seq<char>, sep: char)
    ensures
        spec_split(s, sep).len() >= 1,
        spec_join(spec_split(s, sep), sep) == s,
        forall|k: int| 0 <= k < spec_split(s, sep).len() ==> !spec_split(s, sep)[k].contains(sep),
    decreases s.len(),
{
    let (done, open) = split_state(s, sep);
    let fields = done.push(open);
    if s.len() == 0 {
        assert(spec_join(fields, sep) =~= s);
    } else {
        let front = s.drop_last();
        let c = s.last();
        lemma_split_joins(front, sep);
        let (done0, open0) = split_state(front, sep);
        let fields0 = done0.push(open0);
        assert(fields0.drop_last() =~= done0);
        assert(fields.drop_last() =~= done);
        assert(s =~= front.push(c));
        if c == sep {
            assert(done =~= fields0);
            assert(spec_join(fields, sep) =~= spec_join(fields0, sep).push(sep));
            assert forall|k: int| 0 <= k < fields.len() implies !fields[k].contains(sep) by {
                if k < fields0.len() {
                    assert(fields[k] == fields0[k]);
                }
            }
        } else {
            assert(open =~= open0.push(c));
            if done.len() == 0 {
                assert(spec_join(fields, sep) =~= spec_join(fields0, sep).push(c));
            } else {
                assert(spec_join(fields, sep) =~= spec_join(done, sep).push(sep) + open0.push(c));
                assert(spec_join(fields0, sep) =~= spec_join(done, sep).push(sep) + open0);
            }
            assert forall|k: int| 0 <= k < fields.len() implies !fields[k].contains(sep) by {
                if k < done.len() {
                    assert(fields[k] == fields0[k]);
                } else {
                    assert(!fields0[k].contains(sep));
                    if open.contains(sep) {
                        let i = choose|i: int| 0 <= i < open.len() && open[i] == sep;
                        assert(open0[i] == sep);
                    }
                }
            }
        }
    }
}

/// Splits `text` at each occurrence of `sep`.
pub fn split(text: &Vec<char>, sep: char) -> (res: Vec<Vec<char>>)
    ensures
        res@.len() == spec_split(text@, sep).len(),
        forall|k: int| 0 <= k < res@.len() ==> (#[trigger] res@[k])@ == spec_split(text@, sep)[k],
{
    let mut done: Vec<Vec<char>> = Vec::new();
    let mut open: Vec<char> = Vec::new();
    let mut i: usize = 0;
    while i < text.len()
        invariant
            0 <= i <= text.len(),
            done@.len() == split_state(text@.take(i as int), sep).0.len(),
            forall|k: int|
                0 <= k < done@.len() ==> (#[trigger] done@[k])@ == split_state(
                    text@.take(i as int),
                    sep,
                ).0[k],
            open@ == split_state(text@.take(i as int), sep).1,
        decreases text.len() - i,
    {
        let c: char = text[i];
        proof {
            assert(text@.take(i + 1).drop_last() == text@.take(i as int));
            assert(text@.take(i + 1).last() == c);
        }
        if c == sep {
            done.push(open);
            open = Vec::new();
        } else {
            open.push(c);
        }
        i += 1;
    }
    proof {
        assert(text@.take(text.len() as int) == text@);
    }
    done.push(open);
    done
}

/// The characters of a string.
pub fn chars_of(s: &str) -> (res: Vec<char>)
    ensures
        res@ == s@,
{
    let n: usize = s.unicode_len();
    let mut res: Vec<char> = Vec::new();
    let mut i: usize = 0;
    while i < n
        invariant
            0 <= i <= n,
            n == s@.len(),
            res@ == s@.take(i as int),
        decreases n - i,
    {
        res.push(s.get_char(i));
        proof {
            assert(s@.take(i + 1) == s@.take(i as int).push(s@[i as int]));
        }
        i += 1;
    }
    proof {
        assert(s@.take(n as int) == s@);
    }
    res
}

/// The piece that a letter of the piece placement stands for: lower case for
/// Black, upper case for White.
pub open spec fn piece_of_letter(c: char) -> Option<Piece> {
    match c {
        'p' => Some(Piece::Pawn(Colour::Black)),
        'P' => Some(Piece::Pawn(Colour::White)),
        'k' => Some(Piece::King(Colour::Black)),
        'K' => Some(Piece::King(Colour::White)),
        'q' => Some(Piece::Queen(Colour::Black)),
        'Q' => Some(Piece::Queen(Colour::White)),
        'b' => Some(Piece::Bishop(Colour::Black)),
        'B' => Some(Piece::Bishop(Colour::White)),
        'n' => Some(Piece::Knight(Colour::Black)),
        'N' => Some(Piece::Knight(Colour::White)),
        'r' => Some(Piece::Rook(Colour::Black)),
        'R' => Some(Piece::Rook(Colour::White)),
        _ => None,
    }
}

/// Reads a letter of the piece placement.
pub fn read_piece(c: char) -> (res: Option<Piece>)
    ensures
        res == piece_of_letter(c),
{
    match c {
        'p' => Some(Piece::Pawn(Colour::Black)),
        'P' => Some(Piece::Pawn(Colour::White)),
        'k' => Some(Piece::King(Colour::Black)),
        'K' => Some(Piece::King(Colour::White)),
        'q' => Some(Piece::Queen(Colour::Black)),
        'Q' => Some(Piece::Queen(Colour::White)),
        'b' => Some(Piece::Bishop(Colour::Black)),
        'B' => Some(Piece::Bishop(Colour::White)),
        'n' => Some(Piece::Knight(Colour::Black)),
        'N' => Some(Piece::Knight(Colour::White)),
        'r' => Some(Piece::Rook(Colour::Black)),
        'R' => Some(Piece::Rook(Colour::White)),
        _ => None,
    }
}

/// The pieces placed so far, and how many squares are left: the next piece
/// goes on square `left - 1`, so that the first goes on h8.
#[derive(Debug, Clone, Copy, PartialEq, Eq)]
pub struct Placement {
    pub white: piece_map_bitboards,
    pub black: piece_map_bitboards,
    pub left: i32,
}

impl Placement {
    /// Nothing placed, all 64 squares left.
    pub open spec fn start() -> Placement {
        Placement {
            white: piece_map_bitboards::none(),
            black: piece_map_bitboards::none(),
            left: 64,
        }
    }

    /// The placement after one more character: a digit leaves that many
    /// squares empty, the letter of a piece puts the piece on the next square.
    pub open spec fn after(self, c: char) -> Result<Placement, FenError> {
        match digit_value(c) {
            Some(d) => Ok(
                Placement { left: if d <= self.left { (self.left - d) as i32 } else { 0 }, ..self },
            ),
            None => match piece_of_letter(c) {
                None => Err(FenError::InvalidSymbol(c)),
                Some(piece) => if self.left <= 0 {
                    Err(FenError::OffBoard)
                } else {
                    match piece.colour() {
                        Colour::White => Ok(
                            Placement {
                                white: self.white.with(piece, self.left - 1),
                                left: (self.left - 1) as i32,
                                ..self
                            },
                        ),
                        Colour::Black => Ok(
                            Placement {
                                black: self.black.with(piece, self.left - 1),
                                left: (self.left - 1) as i32,
                                ..self
                            },
                        ),
                    }
                },
            },
        }
    }

    /// The placement after the last `n` characters of `rank`, read from the
    /// last one backwards.
    pub open spec fn after_rank(self, rank: Seq<char>, n: int) -> Result<Placement, FenError>
        decreases n,
    {
        if n <= 0 {
            Ok(self)
        } else {
            match self.after_rank(rank, n - 1) {
                Err(e) => Err(e),
                Ok(p) => p.after(rank[rank.len() - n]),
            }
        }
    }

    /// The placement after the first `n` of `ranks`.
    pub open spec fn after_ranks(ranks: Seq<Seq<char>>, n: int) -> Result<Placement, FenError>
        decreases n,
    {
        if n <= 0 {
            Ok(Placement::start())
        } else {
            match Placement::after_ranks(ranks, n - 1) {
                Err(e) => Err(e),
                Ok(p) => p.after_rank(ranks[n - 1], ranks[n - 1].len() as int),
            }
        }
    }

    /// Reads one more character of the piece placement.
    pub fn read(self, c: char) -> (res: Result<Placement, FenError>)
        requires
            0 <= self.left <= 64,
        ensures
            res == self.after(c),
            res matches Ok(p) ==> 0 <= p.left <= 64,
    {
        let mut next = self;
        if let Some(d) = read_digit(c) {
            next.left = if d <= self.left {
                self.left - d
            } else {
                0
            };
            Ok(next)
        } else if let Some(piece) = read_piece(c) {
            if self.left <= 0 {
                Err(FenError::OffBoard)
            } else {
                next.left = self.left - 1;
                match piece {
                    Piece::Pawn(Colour::White)
                    | Piece::King(Colour::White)
                    | Piece::Queen(Colour::White)
                    | Piece::Bishop(Colour::White)
                    | Piece::Knight(Colour::White)
                    | Piece::Rook(Colour::White) => {
                        next.white.put(piece, self.left - 1);
                    },
                    _ => {
                        next.black.put(piece, self.left - 1);
                    },
                }
                Ok(next)
            }
        } else {
            Err(FenError::InvalidSymbol(c))
        }
    }
}

/// The pieces that the first field of a line describes. Its ranks are
/// separated by `/` and come from the eighth down; within a rank the
/// characters run from the a-file to the h-file.
pub open spec fn spec_placement(field: Seq<char>) -> Result<Placement, FenError> {
    Placement::after_ranks(spec_split(field, '/'), spec_split(field, '/').len() as int)
}

/// Reads the piece placement.
pub fn parse_placement(field: &Vec<char>) -> (res: Result<Placement, FenError>)
    ensures
        res == spec_placement(field@),
{
    let ranks = split(field, '/');
    let ghost all = spec_split(field@, '/');
    let mut placed = Placement {
        white: piece_map_bitboards::empty(),
        black: piece_map_bitboards::empty(),
        left: 64,
    };
    let mut k: usize = 0;
    while k < ranks.len()
        invariant
            0 <= k <= ranks.len(),
            ranks@.len() == all.len(),
            all == spec_split(field@, '/'),
            forall|j: int| 0 <= j < ranks@.len() ==> (#[trigger] ranks@[j])@ == all[j],
            Placement::after_ranks(all, k as int) == Ok::<Placement, FenError>(placed),
            0 <= placed.left <= 64,
        decreases ranks.len() - k,
    {
        let rank = &ranks[k];
        let ghost before = placed;
        let mut n: usize = 0;
        while n < rank.len()
            invariant
                0 <= n <= rank.len(),
                0 <= k < all.len(),
                all == spec_split(field@, '/'),
                rank@ == all[k as int],
                Placement::after_ranks(all, k as int) == Ok::<Placement, FenError>(before),
                before.after_rank(rank@, n as int) == Ok::<Placement, FenError>(placed),
                0 <= placed.left <= 64,
            decreases rank.len() - n,
        {
            let c: char = rank[rank.len() - 1 - n];
            match placed.read(c) {
                Ok(next) => {
                    placed = next;
                },
                Err(e) => {
                    proof {
                        lemma_rank_fails(before, rank@, n + 1, rank@.len() as int);
                        lemma_ranks_fail(all, k + 1, all.len() as int);
                    }
                    return Err(e);
                },
            }
            n += 1;
        }
        k += 1;
    }
    Ok(placed)
}

/// Once a character of a rank is refused, the rank is refused.
proof fn lemma_rank_fails(start: Placement, rank: Seq<char>, n: int, m: int)
    requires
        0 <= n <= m,
        start.after_rank(rank, n) is Err,
    ensures
        start.after_rank(rank, m) == start.after_rank(rank, n),
    decreases m - n,
{
    if n < m {
        lemma_rank_fails(start, rank, n, m - 1);
    }
}

/// Once a rank is refused, the placement is refused.
proof fn lemma_ranks_fail(ranks: Seq<Seq<char>>, n: int, m: int)
    requires
        0 <= n <= m,
        Placement::after_ranks(ranks, n) is Err,
    ensures
        Placement::after_ranks(ranks, m) == Placement::after_ranks(ranks, n),
    decreases m - n,
{
    if n < m {
        lemma_ranks_fail(ranks, n, m - 1);
    }
}

/// The side that the second field of a line names.
pub open spec fn side_of(field: Seq<char>) -> Option<Colour> {
    if field =~= seq!['w'] {
        Some(Colour::White)
    } else if field =~= seq!['b'] {
        Some(Colour::Black)
    } else {
        None
    }
}

/// Reads the side to move.
pub fn parse_side(field: &Vec<char>) -> (res: Option<Colour>)
    ensures
        res == side_of(field@),
{
    if field.len() == 1 && field[0] == 'w' {
        assert(field@ =~= seq!['w']);
        Some(Colour::White)
    } else if field.len() == 1 && field[0] == 'b' {
        assert(field@ =~= seq!['b']);
        Some(Colour::Black)
    } else {
        proof {
            if field@ =~= seq!['w'] {
                assert(field@[0] == 'w');
            }
            if field@ =~= seq!['b'] {
                assert(field@[0] == 'b');
            }
        }
        None
    }
}

/// One of the four letters that grant a castling right.
pub open spec fn is_right_letter(c: char) -> bool {
    c == 'K' || c == 'Q' || c == 'k' || c == 'q'
}

/// A field of castling rights that can be read: `-` alone for none, or one
/// or more of the letters `K`, `Q`, `k` and `q` and nothing else.
pub open spec fn rights_readable(field: Seq<char>) -> bool {
    ||| field.len() == 1 && field[0] == '-'
    ||| field.len() > 0 && forall|i: int|
        0 <= i < field.len() ==> is_right_letter(#[trigger] field[i])
}

/// The castling rights that a readable field grants: one for each of `K`,
/// `Q`, `k` and `q` that occurs in it.
pub open spec fn rights_of(field: Seq<char>) -> castling_rights {
    castling_rights {
        white_king: field.contains('K'),
        white_queen: field.contains('Q'),
        black_king: field.contains('k'),
        black_queen: field.contains('q'),
    }
}

/// Tells whether `c` occurs in `text`.
pub fn occurs(text: &Vec<char>, c: char) -> (res: bool)
    ensures
        res == text@.contains(c),
{
    let mut i: usize = 0;
    while i < text.len()
        invariant
            0 <= i <= text.len(),
            forall|j: int| 0 <= j < i ==> text@[j] != c,
        decreases text.len() - i,
    {
        if text[i] == c {
            return true;
        }
        i += 1;
    }
    false
}

/// Tells whether a field is made of the letters `K`, `Q`, `k` and `q` alone.
fn only_right_letters(field: &Vec<char>) -> (res: bool)
    ensures
        res == (forall|i: int| 0 <= i < field@.len() ==> is_right_letter(#[trigger] field@[i])),
{
    let mut i: usize = 0;
    while i < field.len()
        invariant
            0 <= i <= field.len(),
            forall|j: int| 0 <= j < i ==> is_right_letter(#[trigger] field@[j]),
        decreases field.len() - i,
    {
        let c: char = field[i];
        if !(c == 'K' || c == 'Q' || c == 'k' || c == 'q') {
            return false;
        }
        i += 1;
    }
    true
}

/// Reads the castling rights; there are none to read where the field holds
/// anything but `-` alone or the four letters.
pub fn parse_rights(field: &Vec<char>) -> (res: Option<castling_rights>)
    ensures
        res is Some <==> rights_readable(field@),
        res matches Some(rights) ==> rights == rights_of(field@),
{
    let none: bool = field.len() == 1 && field[0] == '-';
    if none || (field.len() > 0 && only_right_letters(field)) {
        Some(
            castling_rights {
                white_king: occurs(field, 'K'),
                white_queen: occurs(field, 'Q'),
                black_king: occurs(field, 'k'),
                black_queen: occurs(field, 'q'),
            },
        )
    } else {
        None
    }
}

/// The number that a string of decimal digits stands for; none where the
/// string is empty or holds anything else.
pub open spec fn digits_value(s: Seq<char>) -> Option<int>
    decreases s.len(),
{
    if s.len() == 0 {
        None
    } else {
        match digit_value(s.last()) {
            None => None,
            Some(d) => if s.len() == 1 {
                Some(d)
            } else {
                match digits_value(s.drop_last()) {
                    None => None,
                    Some(v) => Some(10 * v + d),
                }
            },
        }
    }
}

/// The number that a field stands for: decimal digits after an optional sign,
/// with a value that fits 32 bits.
pub open spec fn spec_parse_int(s: Seq<char>) -> Option<i32> {
    if s.len() == 0 {
        None
    } else {
        let negative = s[0] == '-';
        let digits = if s[0] == '-' || s[0] == '+' {
            s.skip(1)
        } else {
            s
        };
        match digits_value(digits) {
            None => None,
            Some(v) => {
                let n = if negative {
                    -v
                } else {
                    v
                };
                if i32::MIN <= n <= i32::MAX {
                    Some(n as i32)
                } else {
                    None
                }
            },
        }
    }
}

/// A string of digits has a value only if each of its beginnings has one, and
/// the value is no smaller than theirs.
proof fn lemma_digits_prefix(s: Seq<char>, k: int)
    requires
        0 < k <= s.len(),
    ensures
        digits_value(s) is Some ==> digits_value(s.take(k)) is Some && 0 <= digits_value(
            s.take(k),
        )->0 <= digits_value(s)->0,
    decreases s.len(),
{
    if k == s.len() {
        assert(s.take(k) == s);
        if s.len() > 1 {
            lemma_digits_prefix(s.drop_last(), k - 1);
        }
    } else {
        assert(s.drop_last().take(k) == s.take(k));
        lemma_digits_prefix(s.drop_last(), k);
    }
}

/// Reads a number.
pub fn parse_int(field: &Vec<char>) -> (res: Option<i32>)
    ensures
        res == spec_parse_int(field@),
{
    if field.len() == 0 {
        return None;
    }
    let negative: bool = field[0] == '-';
    let first: usize = if field[0] == '-' || field[0] == '+' {
        1
    } else {
        0
    };
    let ghost digits = if first == 1 {
        field@.skip(1)
    } else {
        field@
    };
    if first >= field.len() {
        return None;
    }
    let mut value: i64 = 0;
    let mut i: usize = first;
    while i < field.len()
        invariant
            first <= i <= field.len(),
            first < field.len(),
            negative == (field@[0] == '-'),
            digits == (if field@[0] == '-' || field@[0] == '+' {
                field@.skip(1)
            } else {
                field@
            }),
            digits == field@.skip(first as int),
            0 <= value <= 2147483648,
            i > first ==> digits_value(digits.take(i - first)) == Some(value as int),
            i == first ==> value == 0,
        decreases field.len() - i,
    {
        let ghost upto = digits.take(i + 1 - first);
        proof {
            assert(upto.last() == field@[i as int]);
            assert(upto.drop_last() == digits.take(i - first));
            lemma_digits_prefix(digits, i + 1 - first);
        }
        match read_digit(field[i]) {
            None => {
                return None;
            },
            Some(d) => {
                value = value * 10 + d as i64;
                if value > 2147483648 {
                    return None;
                }
            },
        }
        i += 1;
    }
    proof {
        assert(digits.take(field.len() - first) == digits);
    }
    if negative {
        Some((-value) as i32)
    } else if value <= 2147483647 {
        Some(value as i32)
    } else {
        None
    }
}

/// The position that a line of text describes, or why it describes none. The
/// fields are looked at from the first to the last, and the first fault is
/// the one reported.
pub open spec fn spec_parse_fen(s: Seq<char>) -> Result<Board, FenError> {
    let fields = spec_split(s, ' ');
    if fields.len() < 2 {
        Err(FenError::MissingField)
    } else {
        match spec_placement(fields[0]) {
            Err(e) => Err(e),
            Ok(placed) => match side_of(fields[1]) {
                None => Err(FenError::InvalidSide),
                Some(side_to_move) => if fields.len() < 3 {
                    Err(FenError::MissingField)
                } else if !rights_readable(fields[2]) {
                    Err(FenError::InvalidCastling)
                } else if fields.len() < 4 {
                    Err(FenError::MissingField)
                } else if !readable(fields[3]) {
                    Err(FenError::InvalidSquare)
                } else if fields.len() < 5 {
                    Err(FenError::MissingField)
                } else {
                    match spec_parse_int(fields[4]) {
                        None => Err(FenError::InvalidNumber),
                        Some(halfmove) => if fields.len() < 6 {
                            Err(FenError::MissingField)
                        } else {
                            match spec_parse_int(fields[5]) {
                                None => Err(FenError::InvalidNumber),
                                Some(fullmove) => Ok(
                                    Board {
                                        base: spec_create_base(placed.white, placed.black),
                                        killer_square: spec_from_str(fields[3]) as i32,
                                        castling_rights: rights_of(fields[2]),
                                        side_to_move,
                                        halfmove,
                                        fullmove,
                                    },
                                ),
                            }
                        },
                    }
                },
            },
        }
    }
}

/// Reads the field of the skipped square: `Some` of the square, where -1
/// stands for none, or `None` where the field is neither `-` nor the name
/// of a square.
pub fn parse_square(field: &Vec<char>) -> (res: Option<i32>)
    ensures
        res is Some <==> readable(field@),
        res matches Some(square) ==> square == spec_from_str(field@) && -1 <= square < 64,
{
    if field.len() == 1 && field[0] == '-' {
        return Some(-1);
    }
    if field.len() != 2 {
        return None;
    }
    match (read_file(field[0]), read_rank(field[1])) {
        (Some(file), Some(rank)) => Some(file + rank * 8),
        _ => None,
    }
}

impl Board {
    /// Create a chess board instance from fen
    pub fn from_fen(value: &str) -> (res: Result<Board, FenError>)
        ensures
            res == spec_parse_fen(value@),
    {
        let text = chars_of(value);
        let fields = split(&text, ' ');
        if fields.len() < 2 {
            return Err(FenError::MissingField);
        }
        let placed = match parse_placement(&fields[0]) {
            Ok(placed) => placed,
            Err(e) => {
                return Err(e);
            },
        };
        let side_to_move = match parse_side(&fields[1]) {
            Some(side) => side,
            None => {
                return Err(FenError::InvalidSide);
            },
        };
        if fields.len() < 3 {
            return Err(FenError::MissingField);
        }
        let castling_rights = match parse_rights(&fields[2]) {
            Some(rights) => rights,
            None => {
                return Err(FenError::InvalidCastling);
            },
        };
        if fields.len() < 4 {
            return Err(FenError::MissingField);
        }
        let killer_square = match parse_square(&fields[3]) {
            Some(square) => square,
            None => {
                return Err(FenError::InvalidSquare);
            },
        };
        if fields.len() < 5 {
            return Err(FenError::MissingField);
        }
        let halfmove = match parse_int(&fields[4]) {
            Some(n) => n,
            None => {
                return Err(FenError::InvalidNumber);
            },
        };
        if fields.len() < 6 {
            return Err(FenError::MissingField);
        }
        let fullmove = match parse_int(&fields[5]) {
            Some(n) => n,
            None => {
                return Err(FenError::InvalidNumber);
            },
        };
        Ok(
            Board::new(
                create_base(placed.white, placed.black),
                killer_square,
                castling_rights,
                side_to_move,
                halfmove,
                fullmove,
            ),
        )
    }
}

} // verus!
