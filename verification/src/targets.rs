//! Where each kind of piece can go from a square: the geometry of the board,
//! stated over squares, and the functions that compute the target sets as
//! bitboards.
//!
//! Every target set is computed from the geometry when it is asked for. There
//! are no tables behind these functions, and nothing has to be set up before
//! they are called.
use crate::bits::{contains_square, group_holds, holds, single, square_bit};
use crate::bitboard::piece_map_bitboards;
use crate::utils::{extract_squares, lists_members, Colour, Piece};
use vstd::prelude::*;

verus! {

/// `s` is the number of a square.
pub open spec fn on_board(s: int) -> bool {
    0 <= s < 64
}

/// The file of a square, 0 for the a-file.
pub open spec fn file_of(s: int) -> int {
    s % 8
}

/// The rank of a square, 0 for the first rank.
pub open spec fn rank_of(s: int) -> int {
    s / 8
}

/// The direction in which a side's pawns advance, in ranks.
pub open spec fn forward(colour: Colour) -> int {
    match colour {
        Colour::White => 1,
        Colour::Black => -1,
    }
}

/// The rank on which a side's pawns start.
pub open spec fn pawn_home_rank(colour: Colour) -> int {
    match colour {
        Colour::White => 1,
        Colour::Black => 6,
    }
}

/// A king on `s` reaches `t`: a different square at most one file and one rank
/// away.
pub open spec fn king_reach(s: int, t: int) -> bool {
    &&& on_board(s) && on_board(t) && s != t
    &&& -1 <= file_of(t) - file_of(s) <= 1
    &&& -1 <= rank_of(t) - rank_of(s) <= 1
}

/// A knight on `s` reaches `t`: one file and two ranks away, or two files and
/// one rank.
pub open spec fn knight_reach(s: int, t: int) -> bool {
    let df = file_of(t) - file_of(s);
    let dr = rank_of(t) - rank_of(s);
    &&& on_board(s) && on_board(t)
    &&& (df == 1 || df == -1) && (dr == 2 || dr == -2) || (df == 2 || df == -2) && (dr == 1 || dr
        == -1)
}

/// A pawn of `colour` on `s` attacks `t`: one rank forward, one file aside.
pub open spec fn pawn_attack(s: int, colour: Colour, t: int) -> bool {
    let df = file_of(t) - file_of(s);
    &&& on_board(s) && on_board(t)
    &&& rank_of(t) - rank_of(s) == forward(colour)
    &&& (df == 1 || df == -1)
}

/// A pawn of `colour` on `s` can go to `t` when `occupancy` holds the occupied
/// squares: onto an occupied square that it attacks, one square forward onto
/// a free square, or from its home rank two squares forward over free squares.
pub open spec fn pawn_reach(s: int, colour: Colour, occupancy: u64, t: int) -> bool {
    &&& on_board(s) && on_board(t)
    &&& {
        ||| pawn_attack(s, colour, t) && holds(occupancy, t)
        ||| t == s + 8 * forward(colour) && !holds(occupancy, t)
        ||| rank_of(s) == pawn_home_rank(colour) && t == s + 16 * forward(colour) && !holds(
            occupancy,
            s + 8 * forward(colour),
        ) && !holds(occupancy, t)
    }
}

/// -1, 0 or 1 as `b` lies below, at or above `a`.
pub open spec fn step_towards(a: int, b: int) -> int {
    if b > a {
        1
    } else if b < a {
        -1
    } else {
        0
    }
}

/// How far apart two files or two ranks are.
pub open spec fn distance(a: int, b: int) -> int {
    if b >= a {
        b - a
    } else {
        a - b
    }
}

/// The point `(f2, r2)` lies on the ray that leaves `(f1, r1)` in direction
/// `(df, dr)`, beyond its origin.
pub open spec fn ahead(f1: int, r1: int, f2: int, r2: int, df: int, dr: int) -> bool {
    &&& step_towards(f1, f2) == df
    &&& step_towards(r1, r2) == dr
    &&& df == 0 || dr == 0 || distance(f1, f2) == distance(r1, r2)
}

/// Square `t` lies on the ray that leaves square `s` in direction `(df, dr)`.
pub open spec fn on_ray(s: int, t: int, df: int, dr: int) -> bool {
    &&& on_board(s) && on_board(t)
    &&& ahead(file_of(s), rank_of(s), file_of(t), rank_of(t), df, dr)
}

/// `s` and `t` are different squares of one rank or one file.
pub open spec fn straight(s: int, t: int) -> bool {
    &&& on_board(s) && on_board(t) && s != t
    &&& file_of(s) == file_of(t) || rank_of(s) == rank_of(t)
}

/// `s` and `t` are different squares of one diagonal.
pub open spec fn diagonal(s: int, t: int) -> bool {
    &&& on_board(s) && on_board(t) && s != t
    &&& distance(file_of(s), file_of(t)) == distance(rank_of(s), rank_of(t))
}

/// `k` lies strictly between `s` and `t` on the line through both.
pub open spec fn lies_between(s: int, k: int, t: int) -> bool {
    let df = step_towards(file_of(s), file_of(t));
    let dr = step_towards(rank_of(s), rank_of(t));
    on_ray(s, k, df, dr) && on_ray(k, t, df, dr)
}

/// No square strictly between `s` and `t` is occupied.
pub open spec fn clear_between(s: int, t: int, occupancy: u64) -> bool {
    forall|k: int| #[trigger] lies_between(s, k, t) ==> !holds(occupancy, k)
}

/// A rook on `s` reaches `t`: along a rank or a file, over free squares.
pub open spec fn rook_reach(s: int, occupancy: u64, t: int) -> bool {
    straight(s, t) && clear_between(s, t, occupancy)
}

/// A bishop on `s` reaches `t`: along a diagonal, over free squares.
pub open spec fn bishop_reach(s: int, occupancy: u64, t: int) -> bool {
    diagonal(s, t) && clear_between(s, t, occupancy)
}

/// A queen on `s` reaches what a rook or a bishop reaches from there.
pub open spec fn queen_reach(s: int, occupancy: u64, t: int) -> bool {
    rook_reach(s, occupancy, t) || bishop_reach(s, occupancy, t)
}

/// The square `files` files and `ranks` ranks away from `square` as a
/// bitboard, which is empty where that leaves the board.
fn neighbour(square: i32, files: i32, ranks: i32) -> (res: u64)
    requires
        on_board(square as int),
        -2 <= files <= 2,
        -2 <= ranks <= 2,
    ensures
        forall|t: int|
            holds(res, t) <==> on_board(t) && file_of(t) == file_of(square as int) + files
                && rank_of(t) == rank_of(square as int) + ranks,
{
    broadcast use group_holds;

    let f: i32 = square % 8 + files;
    let r: i32 = square / 8 + ranks;
    if 0 <= f && f < 8 && 0 <= r && r < 8 {
        square_bit(r * 8 + f)
    } else {
        0
    }
}

/// The squares that a king on `square` reaches.
pub fn king_targets(square: i32) -> (res: u64)
    requires
        on_board(square as int),
    ensures
        forall|t: int| holds(res, t) <==> king_reach(square as int, t),
{
    broadcast use group_holds;

    let a: u64 = neighbour(square, -1, -1) | neighbour(square, 0, -1) | neighbour(square, 1, -1);
    let b: u64 = neighbour(square, -1, 0) | neighbour(square, 1, 0);
    let c: u64 = neighbour(square, -1, 1) | neighbour(square, 0, 1) | neighbour(square, 1, 1);
    a | b | c
}

/// The squares that a knight on `square` reaches.
pub fn knight_targets(square: i32) -> (res: u64)
    requires
        on_board(square as int),
    ensures
        forall|t: int| holds(res, t) <==> knight_reach(square as int, t),
{
    broadcast use group_holds;

    let a: u64 = neighbour(square, -1, -2) | neighbour(square, 1, -2);
    let b: u64 = neighbour(square, -2, -1) | neighbour(square, 2, -1);
    let c: u64 = neighbour(square, -2, 1) | neighbour(square, 2, 1);
    let d: u64 = neighbour(square, -1, 2) | neighbour(square, 1, 2);
    a | b | c | d
}

/// The squares that a pawn of `colour` on `square` attacks.
pub fn pawn_attack_targets(square: i32, colour: Colour) -> (res: u64)
    requires
        on_board(square as int),
    ensures
        forall|t: int| holds(res, t) <==> pawn_attack(square as int, colour, t),
{
    broadcast use group_holds;

    let ahead: i32 = match colour {
        Colour::White => 1,
        Colour::Black => -1,
    };
    neighbour(square, -1, ahead) | neighbour(square, 1, ahead)
}

/// The squares that a pawn of `colour` on `square` can go to: captures onto
/// occupied squares, the single push, and the double push from the home rank.
pub fn pawn_targets(square: i32, colour: Colour, occupancy: u64) -> (res: u64)
    requires
        on_board(square as int),
    ensures
        forall|t: int| holds(res, t) <==> pawn_reach(square as int, colour, occupancy, t),
{
    broadcast use group_holds;

    let ahead: i32 = match colour {
        Colour::White => 1,
        Colour::Black => -1,
    };
    let home: i32 = match colour {
        Colour::White => 1,
        Colour::Black => 6,
    };
    let captures: u64 = pawn_attack_targets(square, colour) & occupancy;
    let single_push: u64 = neighbour(square, 0, ahead) & !occupancy;
    let double_push: u64 = if square / 8 == home && !contains_square(
        occupancy,
        square + 8 * ahead,
    ) {
        neighbour(square, 0, 2 * ahead) & !occupancy
    } else {
        0
    };
    let res: u64 = captures | single_push | double_push;
    proof {
        let s = square as int;
        assert forall|t: int| holds(res, t) <==> pawn_reach(s, colour, occupancy, t) by {
            if on_board(t) {
                assert(t == 8 * rank_of(t) + file_of(t));
                assert(s == 8 * rank_of(s) + file_of(s));
            }
        }
    }
    res
}

/// Square `k` is on the ray from `s` in direction `(df, dr)` and comes before
/// the point `(f, r)` on it.
pub open spec fn passed(s: int, k: int, f: int, r: int, df: int, dr: int) -> bool {
    on_ray(s, k, df, dr) && ahead(file_of(k), rank_of(k), f, r, df, dr)
}

/// Two points on one ray are equal, or one comes before the other.
proof fn lemma_ray_order(fs: int, rs: int, f1: int, r1: int, f2: int, r2: int, df: int, dr: int)
    requires
        -1 <= df <= 1,
        -1 <= dr <= 1,
        df != 0 || dr != 0,
        ahead(fs, rs, f1, r1, df, dr),
        ahead(fs, rs, f2, r2, df, dr),
    ensures
        ahead(f1, r1, f2, r2, df, dr) || (f1 == f2 && r1 == r2) || ahead(f2, r2, f1, r1, df, dr),
        ahead(f1, r1, f2, r2, df, dr) <==> ahead(f1, r1, f2 + df, r2 + dr, df, dr) && !(f1 == f2
            && r1 == r2),
        ahead(f1, r1, f2, r2, df, dr) ==> distance(fs, f2) >= distance(fs, f1) && distance(rs, r2)
            >= distance(rs, r1),
{
}

/// The squares on the ray that leaves `square` in direction `(files, ranks)`,
/// up to and including the first occupied one.
fn slide(square: i32, files: i32, ranks: i32, occupancy: u64) -> (res: u64)
    requires
        on_board(square as int),
        -1 <= files <= 1,
        -1 <= ranks <= 1,
        files != 0 || ranks != 0,
    ensures
        forall|t: int|
            holds(res, t) <==> on_ray(square as int, t, files as int, ranks as int)
                && clear_between(square as int, t, occupancy),
{
    broadcast use group_holds;

    let ghost s = square as int;
    let ghost df = files as int;
    let ghost dr = ranks as int;
    let mut f: i32 = square % 8 + files;
    let mut r: i32 = square / 8 + ranks;
    let mut res: u64 = 0;
    let mut blocked: bool = false;
    let ghost mut last: int = s;
    while !blocked && 0 <= f && f < 8 && 0 <= r && r < 8
        invariant
            on_board(s),
            s == square,
            df == files,
            dr == ranks,
            -1 <= df <= 1,
            -1 <= dr <= 1,
            df != 0 || dr != 0,
            -1 <= f <= 8,
            -1 <= r <= 8,
            ahead(file_of(s), rank_of(s), f as int, r as int, df, dr),
            forall|t: int|
                holds(res, t) <==> #[trigger] passed(s, t, f as int, r as int, df, dr)
                    && clear_between(s, t, occupancy),
            !blocked ==> forall|k: int| #[trigger]
                passed(s, k, f as int, r as int, df, dr) ==> !holds(occupancy, k),
            blocked ==> holds(occupancy, last) && on_ray(s, last, df, dr) && f == file_of(last) + df
                && r == rank_of(last) + dr,
        decreases
                (if blocked {
                    0int
                } else {
                    1int
                }),
                8 - distance(file_of(s), f as int),
                8 - distance(rank_of(s), r as int),
    {
        let here: i32 = r * 8 + f;
        let ghost f0 = f as int;
        let ghost r0 = r as int;
        let ghost res0 = res;
        res = res | square_bit(here);
        blocked = contains_square(occupancy, here);
        f = f + files;
        r = r + ranks;
        proof {
            broadcast use group_holds;

            last = here as int;
            assert(file_of(here as int) == f0 && rank_of(here as int) == r0);
            assert forall|k: int| #[trigger] lies_between(s, k, here as int) implies !holds(
                occupancy,
                k,
            ) by {
                assert(passed(s, k, f0, r0, df, dr));
            }
            assert(clear_between(s, here as int, occupancy));
            assert forall|t: int| #[trigger]
                passed(s, t, f as int, r as int, df, dr) <==> passed(s, t, f0, r0, df, dr) || t
                    == here by {
                if on_ray(s, t, df, dr) {
                    assert(t == 8 * rank_of(t) + file_of(t));
                    lemma_ray_order(
                        file_of(s),
                        rank_of(s),
                        file_of(t),
                        rank_of(t),
                        f0,
                        r0,
                        df,
                        dr,
                    );
                }
            }
            assert forall|t: int|
                holds(res, t) <==> #[trigger] passed(s, t, f as int, r as int, df, dr)
                    && clear_between(s, t, occupancy) by {
                assert(holds(res, t) <==> holds(res0, t) || t == here);
                assert(holds(res0, t) <==> passed(s, t, f0, r0, df, dr) && clear_between(
                    s,
                    t,
                    occupancy,
                ));
            }
            if !blocked {
                assert forall|k: int| #[trigger]
                    passed(s, k, f as int, r as int, df, dr) implies !holds(occupancy, k) by {
                    assert(passed(s, k, f0, r0, df, dr) || k == here);
                }
            }
        }
    }
    proof {
        assert forall|t: int|
            holds(res, t) <==> on_ray(s, t, df, dr) && clear_between(s, t, occupancy) by {
            let before = passed(s, t, f as int, r as int, df, dr);
            assert(holds(res, t) <==> before && clear_between(s, t, occupancy));
            if on_ray(s, t, df, dr) && clear_between(s, t, occupancy) && !before {
                lemma_ray_order(
                    file_of(s),
                    rank_of(s),
                    file_of(t),
                    rank_of(t),
                    f as int,
                    r as int,
                    df,
                    dr,
                );
                if blocked {
                    assert(lies_between(s, last, t));
                    assert(!holds(occupancy, last));
                }
                assert(false);
            }
        }
    }
    res
}

/// The squares that a rook on `square` reaches when `occupancy` holds the
/// occupied squares.
pub fn rook_targets(square: i32, occupancy: u64) -> (res: u64)
    requires
        on_board(square as int),
    ensures
        forall|t: int| holds(res, t) <==> rook_reach(square as int, occupancy, t),
{
    broadcast use group_holds;

    let a: u64 = slide(square, 1, 0, occupancy) | slide(square, -1, 0, occupancy);
    let b: u64 = slide(square, 0, 1, occupancy) | slide(square, 0, -1, occupancy);
    let res: u64 = a | b;
    proof {
        let s = square as int;
        assert forall|t: int| holds(res, t) <==> rook_reach(s, occupancy, t) by {
            if on_board(t) {
                assert(t == 8 * rank_of(t) + file_of(t));
                assert(s == 8 * rank_of(s) + file_of(s));
            }
        }
    }
    res
}

/// The squares that a bishop on `square` reaches when `occupancy` holds the
/// occupied squares.
pub fn bishop_targets(square: i32, occupancy: u64) -> (res: u64)
    requires
        on_board(square as int),
    ensures
        forall|t: int| holds(res, t) <==> bishop_reach(square as int, occupancy, t),
{
    broadcast use group_holds;

    let a: u64 = slide(square, 1, 1, occupancy) | slide(square, -1, 1, occupancy);
    let b: u64 = slide(square, 1, -1, occupancy) | slide(square, -1, -1, occupancy);
    let res: u64 = a | b;
    proof {
        let s = square as int;
        assert forall|t: int| holds(res, t) <==> bishop_reach(s, occupancy, t) by {
            if on_board(t) {
                assert(t == 8 * rank_of(t) + file_of(t));
                assert(s == 8 * rank_of(s) + file_of(s));
            }
        }
    }
    res
}

/// The squares that a queen on `square` reaches when `occupancy` holds the
/// occupied squares.
pub fn queen_targets(square: i32, occupancy: u64) -> (res: u64)
    requires
        on_board(square as int),
    ensures
        forall|t: int| holds(res, t) <==> queen_reach(square as int, occupancy, t),
{
    broadcast use group_holds;

    rook_targets(square, occupancy) | bishop_targets(square, occupancy)
}

/// A piece of the given kind on `s` can go to `t` when `occupancy` holds the
/// occupied squares, whatever stands on `t`.
pub open spec fn reach(piece: Piece, s: int, occupancy: u64, t: int) -> bool {
    match piece {
        Piece::Pawn(c) => pawn_reach(s, c, occupancy, t),
        Piece::King(_) => king_reach(s, t),
        Piece::Queen(_) => queen_reach(s, occupancy, t),
        Piece::Bishop(_) => bishop_reach(s, occupancy, t),
        Piece::Knight(_) => knight_reach(s, t),
        Piece::Rook(_) => rook_reach(s, occupancy, t),
    }
}

/// A piece of the given kind on `s` attacks `t`. For a pawn these are the two
/// squares diagonally ahead; for the other kinds it is where they can go.
pub open spec fn attack_reach(piece: Piece, s: int, occupancy: u64, t: int) -> bool {
    match piece {
        Piece::Pawn(c) => pawn_attack(s, c, t),
        _ => reach(piece, s, occupancy, t),
    }
}

/// A piece of `pieces`, which belong to `colour`, stands on `s` and attacks
/// `t`.
pub open spec fn attacks_from(
    pieces: piece_map_bitboards,
    colour: Colour,
    occupancy: u64,
    s: int,
    t: int,
) -> bool {
    ||| holds(pieces.pawns, s) && pawn_attack(s, colour, t)
    ||| holds(pieces.king, s) && king_reach(s, t)
    ||| holds(pieces.queens, s) && queen_reach(s, occupancy, t)
    ||| holds(pieces.bishops, s) && bishop_reach(s, occupancy, t)
    ||| holds(pieces.knights, s) && knight_reach(s, t)
    ||| holds(pieces.rooks, s) && rook_reach(s, occupancy, t)
}

/// Some piece of `pieces`, which belong to `colour`, attacks `t`.
pub open spec fn attacked(
    pieces: piece_map_bitboards,
    colour: Colour,
    occupancy: u64,
    t: int,
) -> bool {
    exists|s: int| attacks_from(pieces, colour, occupancy, s, t)
}

/// The squares that a piece of the given kind on `square` can go to.
pub fn piece_targets(piece: Piece, square: i32, occupancy: u64) -> (res: u64)
    requires
        on_board(square as int),
    ensures
        forall|t: int| holds(res, t) <==> reach(piece, square as int, occupancy, t),
{
    match piece {
        Piece::Pawn(c) => pawn_targets(square, c, occupancy),
        Piece::King(_) => king_targets(square),
        Piece::Queen(_) => queen_targets(square, occupancy),
        Piece::Bishop(_) => bishop_targets(square, occupancy),
        Piece::Knight(_) => knight_targets(square),
        Piece::Rook(_) => rook_targets(square, occupancy),
    }
}

/// The squares that a piece of the given kind on `square` attacks.
pub fn piece_attack_targets(piece: Piece, square: i32, occupancy: u64) -> (res: u64)
    requires
        on_board(square as int),
    ensures
        forall|t: int| holds(res, t) <==> attack_reach(piece, square as int, occupancy, t),
{
    match piece {
        Piece::Pawn(c) => pawn_attack_targets(square, c),
        _ => piece_targets(piece, square, occupancy),
    }
}

/// The squares attacked by pieces of one kind that stand on the members of
/// `bitboard`.
fn attacks_of_kind(piece: Piece, bitboard: u64, occupancy: u64) -> (res: u64)
    ensures
        forall|t: int|
            holds(res, t) <==> exists|s: int|
                holds(bitboard, s) && #[trigger] attack_reach(piece, s, occupancy, t),
{
    let squares = extract_squares(bitboard);
    let mut res: u64 = 0;
    let mut i: usize = 0;
    proof {
        broadcast use group_holds;

    }
    while i < squares.len()
        invariant
            0 <= i <= squares.len(),
            lists_members(squares@, bitboard),
            forall|t: int|
                holds(res, t) <==> exists|j: int|
                    0 <= j < i && #[trigger] attack_reach(piece, squares@[j] as int, occupancy, t),
        decreases squares.len() - i,
    {
        let ghost res0 = res;
        let targets: u64 = piece_attack_targets(piece, squares[i], occupancy);
        res = res | targets;
        proof {
            broadcast use group_holds;

            assert forall|t: int|
                holds(res, t) <==> exists|j: int|
                    0 <= j < i + 1 && #[trigger] attack_reach(
                        piece,
                        squares@[j] as int,
                        occupancy,
                        t,
                    ) by {
                if holds(res0, t) {
                    let j = choose|j: int|
                        0 <= j < i && #[trigger] attack_reach(
                            piece,
                            squares@[j] as int,
                            occupancy,
                            t,
                        );
                    assert(0 <= j < i + 1);
                }
                if holds(targets, t) {
                    assert(attack_reach(piece, squares@[i as int] as int, occupancy, t));
                }
                if exists|j: int|
                    0 <= j < i + 1 && #[trigger] attack_reach(
                        piece,
                        squares@[j] as int,
                        occupancy,
                        t,
                    ) {
                    let j = choose|j: int|
                        0 <= j < i + 1 && #[trigger] attack_reach(
                            piece,
                            squares@[j] as int,
                            occupancy,
                            t,
                        );
                    if j < i {
                        assert(holds(res0, t));
                    } else {
                        assert(holds(targets, t));
                    }
                }
            }
        }
        i += 1;
    }
    proof {
        assert forall|t: int|
            holds(res, t) <==> exists|s: int|
                holds(bitboard, s) && #[trigger] attack_reach(piece, s, occupancy, t) by {
            if holds(res, t) {
                let j = choose|j: int|
                    0 <= j < i && #[trigger] attack_reach(piece, squares@[j] as int, occupancy, t);
                assert(holds(bitboard, squares@[j] as int));
            }
            if exists|s: int|
                holds(bitboard, s) && #[trigger] attack_reach(piece, s, occupancy, t) {
                let s = choose|s: int|
                    holds(bitboard, s) && #[trigger] attack_reach(piece, s, occupancy, t);
                assert(squares@.contains(s as i32));
                let j = choose|j: int| 0 <= j < squares@.len() && squares@[j] == s as i32;
                assert(attack_reach(piece, squares@[j] as int, occupancy, t));
            }
        }
    }
    res
}

/// The squares that the pieces of one side, which has `colour`, attack when
/// `occupancy` holds the occupied squares.
pub fn generate_attack_targets(pieces: piece_map_bitboards, colour: Colour, occupancy: u64) -> (res:
    u64)
    ensures
        forall|t: int| holds(res, t) <==> attacked(pieces, colour, occupancy, t),
{
    let pawns: u64 = attacks_of_kind(Piece::Pawn(colour), pieces.pawns, occupancy);
    let king: u64 = attacks_of_kind(Piece::King(colour), pieces.king, occupancy);
    let queens: u64 = attacks_of_kind(Piece::Queen(colour), pieces.queens, occupancy);
    let bishops: u64 = attacks_of_kind(Piece::Bishop(colour), pieces.bishops, occupancy);
    let knights: u64 = attacks_of_kind(Piece::Knight(colour), pieces.knights, occupancy);
    let rooks: u64 = attacks_of_kind(Piece::Rook(colour), pieces.rooks, occupancy);
    let res: u64 = pawns | king | queens | bishops | knights | rooks;
    proof {
        broadcast use group_holds;

        assert forall|t: int| holds(res, t) <==> attacked(pieces, colour, occupancy, t) by {
            if holds(pawns, t) {
                let s = choose|s: int|
                    holds(pieces.pawns, s) && #[trigger] attack_reach(
                        Piece::Pawn(colour),
                        s,
                        occupancy,
                        t,
                    );
                assert(attacks_from(pieces, colour, occupancy, s, t));
            }
            if holds(king, t) {
                let s = choose|s: int|
                    holds(pieces.king, s) && #[trigger] attack_reach(
                        Piece::King(colour),
                        s,
                        occupancy,
                        t,
                    );
                assert(attacks_from(pieces, colour, occupancy, s, t));
            }
            if holds(queens, t) {
                let s = choose|s: int|
                    holds(pieces.queens, s) && #[trigger] attack_reach(
                        Piece::Queen(colour),
                        s,
                        occupancy,
                        t,
                    );
                assert(attacks_from(pieces, colour, occupancy, s, t));
            }
            if holds(bishops, t) {
                let s = choose|s: int|
                    holds(pieces.bishops, s) && #[trigger] attack_reach(
                        Piece::Bishop(colour),
                        s,
                        occupancy,
                        t,
                    );
                assert(attacks_from(pieces, colour, occupancy, s, t));
            }
            if holds(knights, t) {
                let s = choose|s: int|
                    holds(pieces.knights, s) && #[trigger] attack_reach(
                        Piece::Knight(colour),
                        s,
                        occupancy,
                        t,
                    );
                assert(attacks_from(pieces, colour, occupancy, s, t));
            }
            if holds(rooks, t) {
                let s = choose|s: int|
                    holds(pieces.rooks, s) && #[trigger] attack_reach(
                        Piece::Rook(colour),
                        s,
                        occupancy,
                        t,
                    );
                assert(attacks_from(pieces, colour, occupancy, s, t));
            }
            if attacked(pieces, colour, occupancy, t) {
                let s = choose|s: int| attacks_from(pieces, colour, occupancy, s, t);
                assert(attack_reach(Piece::Pawn(colour), s, occupancy, t) == pawn_attack(
                    s,
                    colour,
                    t,
                ));
                assert(attack_reach(Piece::King(colour), s, occupancy, t) == king_reach(s, t));
                assert(attack_reach(Piece::Queen(colour), s, occupancy, t) == queen_reach(
                    s,
                    occupancy,
                    t,
                ));
                assert(attack_reach(Piece::Bishop(colour), s, occupancy, t) == bishop_reach(
                    s,
                    occupancy,
                    t,
                ));
                assert(attack_reach(Piece::Knight(colour), s, occupancy, t) == knight_reach(s, t));
                assert(attack_reach(Piece::Rook(colour), s, occupancy, t) == rook_reach(
                    s,
                    occupancy,
                    t,
                ));
            }
        }
    }
    res
}

} // verus!
