//! Colours, pieces, and the conversion between bitboards and lists of squares.
pub mod fen;
pub mod squares;

use crate::bitboard::{
    lemma_squares_to_bitboard, piece_map_bitboards, spec_squares_to_bitboard,
    squares_to_bitboard,
};
use crate::bits::{contains_square, holds, lemma_same_members};
use vstd::prelude::*;

verus! {

/// Enum representation of the colour of pieces.
#[derive(Debug, Clone, Copy, PartialEq, Eq, Structural)]
pub enum Colour {
    White,
    Black,
}

impl Colour {
    /// The opposing colour.
    pub open spec fn spec_other(self) -> Colour {
        match self {
            Colour::White => Colour::Black,
            Colour::Black => Colour::White,
        }
    }

    /// Black is 0 and White is 1.
    pub fn as_int(&self) -> (res: i32)
        ensures
            res == (if *self == Colour::Black { 0int } else { 1int }),
    {
        match self {
            Self::Black => 0,
            Self::White => 1,
        }
    }

    /// The opposing colour.
    pub fn other(&self) -> (res: Self)
        ensures
            res == self.spec_other(),
            res != *self,
            res.spec_other() == *self,
    {
        match self {
            Self::White => Self::Black,
            Self::Black => Self::White,
        }
    }
}

/// A piece kind together with the side that owns it.
#[derive(Debug, Clone, Copy, PartialEq, Eq, Structural)]
pub enum Piece {
    Pawn(Colour),
    King(Colour),
    Queen(Colour),
    Bishop(Colour),
    Knight(Colour),
    Rook(Colour),
}

impl Piece {
    /// The side that owns the piece.
    pub open spec fn colour(self) -> Colour {
        match self {
            Piece::Pawn(c) => c,
            Piece::King(c) => c,
            Piece::Queen(c) => c,
            Piece::Bishop(c) => c,
            Piece::Knight(c) => c,
            Piece::Rook(c) => c,
        }
    }

    /// The figurine of the piece: the outlined glyph for Black and the solid
    /// one for White.
    pub open spec fn spec_symbol(self) -> &'static str {
        match self {
            Piece::Pawn(Colour::Black) => "♙",
            Piece::Pawn(Colour::White) => "♟︎",
            Piece::King(Colour::Black) => "♔",
            Piece::King(Colour::White) => "♚",
            Piece::Queen(Colour::Black) => "♕",
            Piece::Queen(Colour::White) => "♛",
            Piece::Bishop(Colour::Black) => "♗",
            Piece::Bishop(Colour::White) => "♝",
            Piece::Knight(Colour::Black) => "♘",
            Piece::Knight(Colour::White) => "♞",
            Piece::Rook(Colour::Black) => "♖",
            Piece::Rook(Colour::White) => "♜",
        }
    }

    /// The figurine used when a board is written out.
    pub fn symbol(&self) -> (res: Option<&'static str>)
        ensures
            res == Some(self.spec_symbol()),
    {
        match self {
            Self::Pawn(Colour::Black) => Some("♙"),
            Self::Pawn(Colour::White) => Some("♟︎"),
            Self::King(Colour::Black) => Some("♔"),
            Self::King(Colour::White) => Some("♚"),
            Self::Queen(Colour::Black) => Some("♕"),
            Self::Queen(Colour::White) => Some("♛"),
            Self::Bishop(Colour::Black) => Some("♗"),
            Self::Bishop(Colour::White) => Some("♝"),
            Self::Knight(Colour::Black) => Some("♘"),
            Self::Knight(Colour::White) => Some("♞"),
            Self::Rook(Colour::Black) => Some("♖"),
            Self::Rook(Colour::White) => Some("♜"),
        }
    }
}

/// The files of the board, from the queen's rook file to the king's.
#[derive(Debug, Clone, Copy, PartialEq, Eq, Structural)]
pub enum File {
    A,
    B,
    C,
    D,
    E,
    F,
    G,
    H,
}

impl File {
    /// Distance of the file from the a-file.
    pub open spec fn index(self) -> int {
        match self {
            File::A => 0,
            File::B => 1,
            File::C => 2,
            File::D => 3,
            File::E => 4,
            File::F => 5,
            File::G => 6,
            File::H => 7,
        }
    }
}

/// The members of `b` below square `n`, in ascending order.
pub open spec fn squares_below(b: u64, n: int) -> Seq<i32>
    decreases n,
{
    if n <= 0 {
        Seq::empty()
    } else if holds(b, n - 1) {
        squares_below(b, n - 1).push((n - 1) as i32)
    } else {
        squares_below(b, n - 1)
    }
}

/// The members of `b` in ascending order.
pub open spec fn squares_of(b: u64) -> Seq<i32> {
    squares_below(b, 64)
}

/// `list` names each member of `b` once, in ascending order, and nothing else.
pub open spec fn lists_members(list: Seq<i32>, b: u64) -> bool {
    &&& forall|i: int| 0 <= i < list.len() ==> holds(b, #[trigger] list[i] as int)
    &&& forall|s: int| #[trigger] holds(b, s) ==> list.contains(s as i32)
    &&& forall|i: int, j: int| 0 <= i < j < list.len() ==> list[i] < list[j]
}

proof fn lemma_squares_below(b: u64, n: int)
    requires
        0 <= n <= 64,
    ensures
        forall|i: int|
            0 <= i < squares_below(b, n).len() ==> 0 <= #[trigger] squares_below(b, n)[i] < n
                && holds(b, squares_below(b, n)[i] as int),
        forall|s: int|
            0 <= s < n && #[trigger] holds(b, s) ==> squares_below(b, n).contains(s as i32),
        forall|i: int, j: int|
            0 <= i < j < squares_below(b, n).len() ==> squares_below(b, n)[i] < squares_below(
                b,
                n,
            )[j],
    decreases n,
{
    if n > 0 {
        lemma_squares_below(b, n - 1);
        let prev = squares_below(b, n - 1);
        let cur = squares_below(b, n);
        assert forall|s: int| 0 <= s < n && #[trigger] holds(b, s) implies cur.contains(
            s as i32,
        ) by {
            if s < n - 1 {
                let i = choose|i: int| 0 <= i < prev.len() && prev[i] == s as i32;
                assert(cur[i] == s as i32);
            } else {
                assert(cur[cur.len() - 1] == s as i32);
            }
        }
    }
}

/// The ascending list of a bitboard's members names all of them and nothing
/// else.
pub proof fn lemma_squares_of(b: u64)
    ensures
        lists_members(squares_of(b), b),
{
    lemma_squares_below(b, 64);
}

/// Turning a bitboard into its list of squares and the list back into a
/// bitboard gives the bitboard that one started from.
pub proof fn lemma_extract_round_trip(b: u64)
    ensures
        spec_squares_to_bitboard(squares_of(b)) == b,
{
    lemma_squares_of(b);
    let list = squares_of(b);
    let back = spec_squares_to_bitboard(list);
    assert forall|s: int| 0 <= s < 64 implies (holds(back, s) <==> holds(b, s)) by {
        lemma_squares_to_bitboard(list, s);
        if list.contains(s as i32) {
            let i = choose|i: int| 0 <= i < list.len() && list[i] == s as i32;
            assert(holds(b, list[i] as int));
        }
    }
    lemma_same_members(back, b);
}

/// The square at position `i` of a list of squares, or 64 past its end.
pub open spec fn bound(list: Seq<i32>, i: int) -> int {
    if 0 <= i < list.len() {
        list[i] as int
    } else {
        64
    }
}

/// In the ascending list of a bitboard's members, the members below the
/// entry at `i + 1` are those up to the entry at `i`, and no member lies below
/// the first entry.
pub proof fn lemma_bound(list: Seq<i32>, b: u64, i: int)
    requires
        lists_members(list, b),
        0 <= i < list.len(),
    ensures
        0 <= list[i] < 64,
        holds(b, list[i] as int),
        forall|s: int| #[trigger] holds(b, s) ==> (s < bound(list, i + 1) <==> s <= list[i]),
        forall|s: int| #[trigger] holds(b, s) ==> s >= bound(list, 0),
{
    assert(holds(b, list[i] as int));
    assert forall|s: int| #[trigger] holds(b, s) implies (s < bound(list, i + 1) <==> s
        <= list[i]) && s >= bound(list, 0) by {
        assert(list.contains(s as i32));
        let k = choose|k: int| 0 <= k < list.len() && list[k] == s as i32;
        if k > 0 {
            assert(list[0] < list[k]);
        }
        if k < i {
            assert(list[k] < list[i]);
        }
        if i < k {
            assert(list[i] < list[k]);
        }
        if i + 1 < list.len() {
            assert(list[i] < list[i + 1]);
            if k < i + 1 {
            } else if k > i + 1 {
                assert(list[i + 1] < list[k]);
            }
        }
    }
}

/// A list without repetitions stays so when something new is added.
pub proof fn lemma_push_fresh<A>(list: Seq<A>, x: A)
    requires
        list.no_duplicates(),
        !list.contains(x),
    ensures
        list.push(x).no_duplicates(),
{
    assert forall|i: int, j: int|
        0 <= i < list.len() + 1 && 0 <= j < list.len() + 1 && i != j implies list.push(x)[i]
        != list.push(x)[j] by {
        if i < list.len() && j < list.len() {
        } else if i < list.len() {
            assert(list.contains(list[i]));
        } else {
            assert(list.contains(list[j]));
        }
    }
}

/// Two lists without repetitions and without a common entry make a list
/// without repetitions, which holds what either holds.
pub proof fn lemma_join<A>(a: Seq<A>, b: Seq<A>)
    requires
        a.no_duplicates(),
        b.no_duplicates(),
        forall|x: A| a.contains(x) ==> !b.contains(x),
    ensures
        (a + b).no_duplicates(),
        forall|x: A| #[trigger] (a + b).contains(x) <==> a.contains(x) || b.contains(x),
{
    assert forall|i: int, j: int| 0 <= i < a.len() && 0 <= j < b.len() implies a[i] != b[j] by {
        assert(a.contains(a[i]));
        assert(b.contains(b[j]));
    }
    vstd::seq_lib::lemma_no_dup_in_concat(a, b);
    assert forall|x: A| #[trigger] (a + b).contains(x) <==> a.contains(x) || b.contains(x) by {
        vstd::seq_lib::lemma_seq_concat_contains_all_elements(a, b, x);
    }
}

/// Lists the squares of a bitboard in ascending order.
pub fn extract_squares(bitboard: u64) -> (res: Vec<i32>)
    ensures
        res@ == squares_of(bitboard),
        lists_members(res@, bitboard),
        res@.len() <= 64,
{
    let mut res: Vec<i32> = Vec::new();
    let mut iter: i32 = 0;
    while iter < 64
        invariant
            0 <= iter <= 64,
            res@ == squares_below(bitboard, iter as int),
            res@.len() <= iter,
        decreases 64 - iter,
    {
        if contains_square(bitboard, iter) {
            res.push(iter);
        }
        iter += 1;
    }
    proof {
        lemma_squares_of(bitboard);
    }
    res
}

/// The squares of one side's pieces, kind by kind.
pub struct Pieces {
    pub king: Vec<i32>,
    pub queens: Vec<i32>,
    pub bishops: Vec<i32>,
    pub knights: Vec<i32>,
    pub rooks: Vec<i32>,
    pub pawns: Vec<i32>,
}

impl Pieces {
    /// The bitboards that hold the on-board squares of each list.
    pub open spec fn bitboards(self) -> piece_map_bitboards {
        piece_map_bitboards {
            pawns: spec_squares_to_bitboard(self.pawns@),
            king: spec_squares_to_bitboard(self.king@),
            queens: spec_squares_to_bitboard(self.queens@),
            bishops: spec_squares_to_bitboard(self.bishops@),
            knights: spec_squares_to_bitboard(self.knights@),
            rooks: spec_squares_to_bitboard(self.rooks@),
        }
    }

    /// Each list is the ascending list of the corresponding bitboard.
    pub open spec fn lists(self, map: piece_map_bitboards) -> bool {
        &&& self.king@ == squares_of(map.king)
        &&& self.queens@ == squares_of(map.queens)
        &&& self.bishops@ == squares_of(map.bishops)
        &&& self.knights@ == squares_of(map.knights)
        &&& self.rooks@ == squares_of(map.rooks)
        &&& self.pawns@ == squares_of(map.pawns)
    }

    /// Lists the squares of each of a side's bitboards.
    pub fn from_bitboards(value: piece_map_bitboards) -> (res: Self)
        ensures
            res.lists(value),
            res.bitboards() == value,
    {
        let king = extract_squares(value.king);
        let queens = extract_squares(value.queens);
        let bishops = extract_squares(value.bishops);
        let knights = extract_squares(value.knights);
        let rooks = extract_squares(value.rooks);
        let pawns = extract_squares(value.pawns);
        proof {
            lemma_extract_round_trip(value.king);
            lemma_extract_round_trip(value.queens);
            lemma_extract_round_trip(value.bishops);
            lemma_extract_round_trip(value.knights);
            lemma_extract_round_trip(value.rooks);
            lemma_extract_round_trip(value.pawns);
        }
        Self { king, queens, bishops, knights, rooks, pawns }
    }

    /// Collects each list into a bitboard.
    pub fn to_bitboards(&self) -> (res: piece_map_bitboards)
        ensures
            res == self.bitboards(),
    {
        piece_map_bitboards {
            pawns: squares_to_bitboard(&self.pawns),
            king: squares_to_bitboard(&self.king),
            queens: squares_to_bitboard(&self.queens),
            bishops: squares_to_bitboard(&self.bishops),
            knights: squares_to_bitboard(&self.knights),
            rooks: squares_to_bitboard(&self.rooks),
        }
    }
}

impl<'a> From<&'a Pieces> for piece_map_bitboards {
    fn from(value: &'a Pieces) -> (res: Self) {
        value.to_bitboards()
    }
}

impl<'a> vstd::std_specs::convert::FromSpecImpl<&'a Pieces> for piece_map_bitboards {
    open spec fn obeys_from_spec() -> bool {
        true
    }

    open spec fn from_spec(value: &'a Pieces) -> Self {
        value.bitboards()
    }
}

impl Default for Pieces {
    fn default() -> (res: Self)
        ensures
            res.king@.len() == 0,
            res.queens@.len() == 0,
            res.bishops@.len() == 0,
            res.knights@.len() == 0,
            res.rooks@.len() == 0,
            res.pawns@.len() == 0,
    {
        Self {
            king: vec![],
            queens: vec![],
            bishops: vec![],
            knights: vec![],
            rooks: vec![],
            pawns: vec![],
        }
    }
}

} // verus!
