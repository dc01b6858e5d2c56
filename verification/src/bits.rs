//! Bitboards as sets of squares.
//!
//! A bitboard is a `u64` in which bit `s` stands for square `s` (a1 = 0,
//! b1 = 1, ..., h8 = 63). Everything the rest of the crate needs to know about
//! the bitwise operators is stated here over the membership predicate `holds`.
use vstd::prelude::*;

verus! {

/// Square `s` is a member of the set that `b` encodes.
pub open spec fn holds(b: u64, s: int) -> bool {
    0 <= s < 64 && b & (1u64 << (s as u64)) != 0
}

/// The bitboard that holds `s` and nothing else.
pub open spec fn single(s: int) -> u64 {
    1u64 << (s as u64)
}

/// The zero bitboard has no member.
pub broadcast proof fn lemma_holds_zero(s: int)
    ensures
        !#[trigger] holds(0, s),
{
    if 0 <= s < 64 {
        let k: u64 = s as u64;
        assert(0u64 & (1u64 << k) == 0) by (bit_vector);
    }
}

/// The bitboard of one square has that square as its only member.
pub broadcast proof fn lemma_holds_single(s: int, t: int)
    requires
        0 <= s < 64,
    ensures
        #[trigger] holds(single(s), t) <==> t == s,
{
    if 0 <= t < 64 {
        let a: u64 = s as u64;
        let b: u64 = t as u64;
        assert(((1u64 << a) & (1u64 << b) != 0) <==> a == b) by (bit_vector)
            requires
                a < 64,
                b < 64,
        ;
    }
}

/// `|` is the union of two sets of squares.
pub broadcast proof fn lemma_holds_or(a: u64, b: u64, s: int)
    ensures
        #[trigger] holds(a | b, s) <==> holds(a, s) || holds(b, s),
{
    if 0 <= s < 64 {
        let k: u64 = s as u64;
        assert(((a | b) & (1u64 << k) != 0) <==> (a & (1u64 << k) != 0 || b & (1u64 << k) != 0))
            by (bit_vector);
    }
}

/// `&` is the intersection of two sets of squares.
pub broadcast proof fn lemma_holds_and(a: u64, b: u64, s: int)
    ensures
        #[trigger] holds(a & b, s) <==> holds(a, s) && holds(b, s),
{
    if 0 <= s < 64 {
        let k: u64 = s as u64;
        assert(((a & b) & (1u64 << k) != 0) <==> (a & (1u64 << k) != 0 && b & (1u64 << k) != 0))
            by (bit_vector)
            requires
                k < 64,
        ;
    }
}

/// `^` holds the squares that are members of exactly one of two sets.
pub broadcast proof fn lemma_holds_xor(a: u64, b: u64, s: int)
    ensures
        #[trigger] holds(a ^ b, s) <==> (holds(a, s) != holds(b, s)),
{
    if 0 <= s < 64 {
        let k: u64 = s as u64;
        assert(((a ^ b) & (1u64 << k) != 0) <==> ((a & (1u64 << k) != 0) != (b & (1u64 << k)
            != 0))) by (bit_vector)
            requires
                k < 64,
        ;
    }
}

/// `!` is the complement of a set of squares on the board.
pub broadcast proof fn lemma_holds_not(a: u64, s: int)
    ensures
        #[trigger] holds(!a, s) <==> 0 <= s < 64 && !holds(a, s),
{
    if 0 <= s < 64 {
        let k: u64 = s as u64;
        assert(((!a) & (1u64 << k) != 0) <==> a & (1u64 << k) == 0) by (bit_vector)
            requires
                k < 64,
        ;
    }
}

/// What the bitwise operators mean for membership.
pub broadcast group group_holds {
    lemma_holds_zero,
    lemma_holds_single,
    lemma_holds_or,
    lemma_holds_and,
    lemma_holds_xor,
    lemma_holds_not,
}

/// If no square from `n` upwards is a member of `x`, shifting `x` right by
/// `n` leaves nothing.
proof fn lemma_upper_part_empty(x: u64, n: int)
    requires
        0 <= n < 64,
        forall|s: int| n <= s < 64 ==> !holds(x, s),
    ensures
        x >> (n as u64) == 0,
    decreases 64 - n,
{
    let k: u64 = n as u64;
    assert(!holds(x, n));
    if n == 63 {
        assert(x >> 63 == 0) by (bit_vector)
            requires
                x & (1u64 << 63) == 0,
        ;
    } else {
        lemma_upper_part_empty(x, n + 1);
        let k1: u64 = (n + 1) as u64;
        assert(x >> k == 0) by (bit_vector)
            requires
                k < 63,
                k1 == k + 1,
                x >> k1 == 0,
                x & (1u64 << k) == 0,
        ;
    }
}

/// A bitboard without members is zero.
pub proof fn lemma_empty_is_zero(x: u64)
    requires
        forall|s: int| 0 <= s < 64 ==> !holds(x, s),
    ensures
        x == 0,
{
    lemma_upper_part_empty(x, 0);
    assert(x == 0) by (bit_vector)
        requires
            x >> 0 == 0,
    ;
}

/// Two bitboards with the same members are equal.
pub proof fn lemma_same_members(a: u64, b: u64)
    requires
        forall|s: int| 0 <= s < 64 ==> (holds(a, s) <==> holds(b, s)),
    ensures
        a == b,
{
    broadcast use group_holds;

    assert forall|s: int| 0 <= s < 64 implies !holds(a ^ b, s) by {}
    lemma_empty_is_zero(a ^ b);
    assert(a == b) by (bit_vector)
        requires
            a ^ b == 0,
    ;
}

/// `x & y` is non-zero exactly when the two sets share a square.
pub proof fn lemma_meet(x: u64, y: u64)
    ensures
        x & y != 0 <==> exists|s: int| holds(x, s) && holds(y, s),
{
    broadcast use group_holds;

    if x & y != 0 {
        if forall|s: int| 0 <= s < 64 ==> !holds(x & y, s) {
            lemma_empty_is_zero(x & y);
        }
        let s = choose|s: int| 0 <= s < 64 && holds(x & y, s);
        assert(holds(x, s) && holds(y, s));
    }
    if exists|s: int| holds(x, s) && holds(y, s) {
        let s = choose|s: int| holds(x, s) && holds(y, s);
        assert(holds(x & y, s));
        assert(holds(0, s) == false);
    }
}

/// `x` holds none of the squares of `mask` exactly when `x & mask` is zero.
pub proof fn lemma_apart(mask: u64, x: u64)
    ensures
        mask & x == 0 <==> forall|s: int| holds(mask, s) ==> !holds(x, s),
{
    lemma_meet(mask, x);
    if mask & x == 0 {
        assert forall|s: int| holds(mask, s) implies !holds(x, s) by {
            if holds(x, s) {
                assert(holds(mask, s) && holds(x, s));
            }
        }
    }
}

/// The bitboard that holds square `s` alone.
pub fn square_bit(s: i32) -> (m: u64)
    requires
        0 <= s < 64,
    ensures
        m == single(s as int),
{
    1u64 << (s as u64)
}

/// Tests whether square `s` is a member of `b`.
pub fn contains_square(b: u64, s: i32) -> (r: bool)
    requires
        0 <= s < 64,
    ensures
        r == holds(b, s as int),
{
    b & (1u64 << (s as u64)) != 0
}

/// The eight squares of a rank, where 0 is the first rank.
pub fn rank_squares(rank: i32) -> (m: u64)
    requires
        0 <= rank < 8,
    ensures
        forall|s: int| holds(m, s) <==> 0 <= s < 64 && s / 8 == rank,
{
    let r: u64 = rank as u64;
    let m: u64 = 0xffu64 << (8 * r);
    proof {
        assert forall|s: int| holds(m, s) <==> 0 <= s < 64 && s / 8 == rank by {
            if 0 <= s < 64 {
                let k: u64 = s as u64;
                assert(((0xffu64 << (8 * r)) & (1u64 << k) != 0) <==> k / 8 == r) by (bit_vector)
                    requires
                        k < 64,
                        r < 8,
                ;
            }
        }
    }
    m
}

} // verus!
