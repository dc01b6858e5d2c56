//! Square numbers and their algebraic names.
//!
//! Squares are numbered rank by rank from a1 = 0 to h8 = 63.
use crate::utils::File;
use vstd::prelude::*;
use vstd::string::StringExecFns;

verus! {

// integer representations of squares to be used by lookup functions
pub const a1: i32 = 0;

pub const b1: i32 = 1;

pub const c1: i32 = 2;

pub const d1: i32 = 3;

pub const e1: i32 = 4;

pub const f1: i32 = 5;

pub const g1: i32 = 6;

pub const h1: i32 = 7;

pub const a2: i32 = 8;

pub const b2: i32 = 9;

pub const c2: i32 = 10;

pub const d2: i32 = 11;

pub const e2: i32 = 12;

pub const f2: i32 = 13;

pub const g2: i32 = 14;

pub const h2: i32 = 15;

pub const a3: i32 = 16;

pub const b3: i32 = 17;

pub const c3: i32 = 18;

pub const d3: i32 = 19;

pub const e3: i32 = 20;

pub const f3: i32 = 21;

pub const g3: i32 = 22;

pub const h3: i32 = 23;

pub const a4: i32 = 24;

pub const b4: i32 = 25;

pub const c4: i32 = 26;

pub const d4: i32 = 27;

pub const e4: i32 = 28;

pub const f4: i32 = 29;

pub const g4: i32 = 30;

pub const h4: i32 = 31;

pub const a5: i32 = 32;

pub const b5: i32 = 33;

pub const c5: i32 = 34;

pub const d5: i32 = 35;

pub const e5: i32 = 36;

pub const f5: i32 = 37;

pub const g5: i32 = 38;

pub const h5: i32 = 39;

pub const a6: i32 = 40;

pub const b6: i32 = 41;

pub const c6: i32 = 42;

pub const d6: i32 = 43;

pub const e6: i32 = 44;

pub const f6: i32 = 45;

pub const g6: i32 = 46;

pub const h6: i32 = 47;

pub const a7: i32 = 48;

pub const b7: i32 = 49;

pub const c7: i32 = 50;

pub const d7: i32 = 51;

pub const e7: i32 = 52;

pub const f7: i32 = 53;

pub const g7: i32 = 54;

pub const h7: i32 = 55;

pub const a8: i32 = 56;

pub const b8: i32 = 57;

pub const c8: i32 = 58;

pub const d8: i32 = 59;

pub const e8: i32 = 60;

pub const f8: i32 = 61;

pub const g8: i32 = 62;

pub const h8: i32 = 63;

/// The number of the square on `file` and `rank`, where the first rank is 1.
pub open spec fn spec_square_id(file: File, rank: int) -> int {
    (rank - 1) * 8 + file.index()
}

/// The number of the square on `file` and `rank`, where the first rank is 1.
pub fn square_id(file: &File, rank: i32) -> (res: i32)
    requires
        i32::MIN <= (rank - 1) * 8,
        (rank - 1) * 8 + 7 <= i32::MAX,
    ensures
        res == spec_square_id(*file, rank as int),
{
    let mut res: i32 = (rank - 1) * 8;
    match file {
        File::A => res += 0,
        File::B => res += 1,
        File::C => res += 2,
        File::D => res += 3,
        File::E => res += 4,
        File::F => res += 5,
        File::G => res += 6,
        File::H => res += 7,
    }
    res
}

/// The value of a decimal digit.
pub open spec fn digit_value(c: char) -> Option<int> {
    match c {
        '0' => Some(0),
        '1' => Some(1),
        '2' => Some(2),
        '3' => Some(3),
        '4' => Some(4),
        '5' => Some(5),
        '6' => Some(6),
        '7' => Some(7),
        '8' => Some(8),
        '9' => Some(9),
        _ => None,
    }
}

/// The index of the file that a letter names, 0 for `a`; none for any other
/// character.
pub open spec fn file_index(c: char) -> Option<int> {
    match c {
        'a' => Some(0),
        'b' => Some(1),
        'c' => Some(2),
        'd' => Some(3),
        'e' => Some(4),
        'f' => Some(5),
        'g' => Some(6),
        'h' => Some(7),
        _ => None,
    }
}

/// The index of the rank that a digit names, 0 for `1`; none for any other
/// character.
pub open spec fn rank_index(c: char) -> Option<int> {
    match c {
        '1' => Some(0),
        '2' => Some(1),
        '3' => Some(2),
        '4' => Some(3),
        '5' => Some(4),
        '6' => Some(5),
        '7' => Some(6),
        '8' => Some(7),
        _ => None,
    }
}

/// The letter of the file with the given index.
pub open spec fn file_letter(i: int) -> char {
    if i == 0 {
        'a'
    } else if i == 1 {
        'b'
    } else if i == 2 {
        'c'
    } else if i == 3 {
        'd'
    } else if i == 4 {
        'e'
    } else if i == 5 {
        'f'
    } else if i == 6 {
        'g'
    } else {
        'h'
    }
}

/// The digit that names the rank with the given index, where 0 is the first
/// rank.
pub open spec fn rank_digit(i: int) -> char {
    if i == 0 {
        '1'
    } else if i == 1 {
        '2'
    } else if i == 2 {
        '3'
    } else if i == 3 {
        '4'
    } else if i == 4 {
        '5'
    } else if i == 5 {
        '6'
    } else if i == 6 {
        '7'
    } else {
        '8'
    }
}

/// A name that `from_str` can read: `-` alone, or the letter of a file from
/// `a` to `h` followed by the digit of a rank from `1` to `8`, and nothing
/// else.
pub open spec fn readable(s: Seq<char>) -> bool {
    ||| s.len() == 1 && s[0] == '-'
    ||| s.len() == 2 && file_index(s[0]) is Some && rank_index(s[1]) is Some
}

/// The square that a readable name stands for; -1 for `-`, which names no
/// square.
pub open spec fn spec_from_str(s: Seq<char>) -> int {
    if s[0] == '-' {
        -1
    } else {
        file_index(s[0])->0 + 8 * rank_index(s[1])->0
    }
}

/// The algebraic name of a square: the letter of its file, then the digit of
/// its rank.
pub open spec fn spec_to_str(n: int) -> Seq<char> {
    seq![file_letter(n % 8), rank_digit(n / 8)]
}

/// Reading the name of a square gives the square.
pub proof fn lemma_name_round_trip(n: int)
    requires
        0 <= n < 64,
    ensures
        readable(spec_to_str(n)),
        spec_from_str(spec_to_str(n)) == n,
{
}

/// Reads a decimal digit.
pub fn read_digit(c: char) -> (res: Option<i32>)
    ensures
        res is Some <==> digit_value(c) is Some,
        res matches Some(d) ==> d == digit_value(c)->0,
{
    match c {
        '0' => Some(0),
        '1' => Some(1),
        '2' => Some(2),
        '3' => Some(3),
        '4' => Some(4),
        '5' => Some(5),
        '6' => Some(6),
        '7' => Some(7),
        '8' => Some(8),
        '9' => Some(9),
        _ => None,
    }
}

/// Reads the letter of a file.
pub fn read_file(c: char) -> (res: Option<i32>)
    ensures
        res is Some <==> file_index(c) is Some,
        res matches Some(f) ==> f == file_index(c)->0,
{
    match c {
        'a' => Some(0),
        'b' => Some(1),
        'c' => Some(2),
        'd' => Some(3),
        'e' => Some(4),
        'f' => Some(5),
        'g' => Some(6),
        'h' => Some(7),
        _ => None,
    }
}

/// Reads the digit of a rank.
pub fn read_rank(c: char) -> (res: Option<i32>)
    ensures
        res is Some <==> rank_index(c) is Some,
        res matches Some(r) ==> r == rank_index(c)->0,
{
    match c {
        '1' => Some(0),
        '2' => Some(1),
        '3' => Some(2),
        '4' => Some(3),
        '5' => Some(4),
        '6' => Some(5),
        '7' => Some(6),
        '8' => Some(7),
        _ => None,
    }
}

/// Reads the algebraic name of a square, or `-` for no square.
pub fn from_str(s: &str) -> (res: i32)
    requires
        readable(s@),
    ensures
        res == spec_from_str(s@),
        -1 <= res < 64,
{
    let first: char = s.get_char(0);
    if first == '-' {
        return -1;
    }
    let mut res: i32 = 0;
    if let Some(file) = read_file(first) {
        res += file;
    }
    if let Some(rank) = read_rank(s.get_char(1)) {
        res += rank * 8;
    }
    res
}

/// Writes the algebraic name of a square; there is none for a number that is
/// not a square.
pub fn to_str(n: i32) -> (res: Option<String>)
    ensures
        res is Some <==> 0 <= n < 64,
        res matches Some(name) ==> name@ == spec_to_str(n as int),
{
    if n >= 0 && n < 64 {
        proof {
            reveal_strlit("a");
            reveal_strlit("b");
            reveal_strlit("c");
            reveal_strlit("d");
            reveal_strlit("e");
            reveal_strlit("f");
            reveal_strlit("g");
            reveal_strlit("h");
            reveal_strlit("1");
            reveal_strlit("2");
            reveal_strlit("3");
            reveal_strlit("4");
            reveal_strlit("5");
            reveal_strlit("6");
            reveal_strlit("7");
            reveal_strlit("8");
        }
        let file: &str = match n % 8 {
            0 => "a",
            1 => "b",
            2 => "c",
            3 => "d",
            4 => "e",
            5 => "f",
            6 => "g",
            _ => "h",
        };
        let rank: &str = match n / 8 {
            0 => "1",
            1 => "2",
            2 => "3",
            3 => "4",
            4 => "5",
            5 => "6",
            6 => "7",
            _ => "8",
        };
        let mut res = String::from_str(file);
        res.append(rank);
        assert(res@ =~= spec_to_str(n as int));
        Some(res)
    } else {
        None
    }
}

} // verus!
