//! Attack and span bitboards. Leaper and pawn patterns have closed-form
//! definitions and are computed here; sliding-piece attacks come from the
//! `cozy_chess` lookup tables behind trusted wrappers.

use vstd::prelude::*;
use crate::bits::{bit64, lemma_bit_or, lemma_bit_single};

verus! {

pub open spec fn file_of(sq: int) -> int {
    sq % 8
}

pub open spec fn rank_of(sq: int) -> int {
    sq / 8
}

pub open spec fn dist(a: int, b: int) -> int {
    if a >= b {
        a - b
    } else {
        b - a
    }
}

/// A knight on `sq` attacks `t`.
pub open spec fn knight_attack_spec(sq: u64, t: u64) -> bool {
    let df = dist(file_of(sq as int), file_of(t as int));
    let dr = dist(rank_of(sq as int), rank_of(t as int));
    t < 64 && ((df == 1 && dr == 2) || (df == 2 && dr == 1))
}

/// A king on `sq` attacks `t`.
pub open spec fn king_attack_spec(sq: u64, t: u64) -> bool {
    let df = dist(file_of(sq as int), file_of(t as int));
    let dr = dist(rank_of(sq as int), rank_of(t as int));
    t < 64 && df <= 1 && dr <= 1 && (df != 0 || dr != 0)
}

/// A pawn of the given color on `sq` attacks `t` (captures only).
pub open spec fn pawn_attack_spec(white: bool, sq: u64, t: u64) -> bool {
    let step: int = if white {
        1
    } else {
        -1
    };
    t < 64 && rank_of(t as int) == rank_of(sq as int) + step && dist(
        file_of(sq as int),
        file_of(t as int),
    ) == 1
}

/// A pawn of the given color on `sq` may quietly push to `t` given the
/// occupancy `occ`: one step to an empty square, or two from its start rank
/// across empty squares.
pub open spec fn pawn_quiet_spec(white: bool, sq: u64, occ: u64, t: u64) -> bool {
    t < 64 && if white {
        (t == sq + 8 && !bit64(occ, t)) || (rank_of(sq as int) == 1 && t == sq + 16 && !bit64(
            occ,
            (sq + 8) as u64,
        ) && !bit64(occ, t))
    } else {
        (sq >= 8 && t == sq - 8 && !bit64(occ, t)) || (rank_of(sq as int) == 6 && t == sq - 16
            && !bit64(occ, (sq - 8) as u64) && !bit64(occ, t))
    }
}

/// `t` lies on the file of `sq`, strictly ahead of it from the given color's
/// point of view, short of the promotion rank.
pub open spec fn forward_span_spec(white: bool, sq: u64, t: u64) -> bool {
    t < 64 && file_of(t as int) == file_of(sq as int) && if white {
        rank_of(sq as int) < rank_of(t as int) <= 6
    } else {
        1 <= rank_of(t as int) < rank_of(sq as int)
    }
}

/// `t` can block or capture a pawn of the given color on `sq` on its way to
/// promotion: the forward spans of the pawn's file and of both adjacent
/// files, together with the pawn's two attack squares.
pub open spec fn blocker_spec(white: bool, sq: u64, t: u64) -> bool {
    let df = dist(file_of(sq as int), file_of(t as int));
    t < 64 && df <= 1 && if white {
        (df == 1 && rank_of(t as int) == rank_of(sq as int) + 1) || (rank_of(sq as int) < rank_of(
            t as int,
        ) <= 6)
    } else {
        (df == 1 && rank_of(t as int) == rank_of(sq as int) - 1) || (1 <= rank_of(t as int)
            < rank_of(sq as int))
    }
}

/// Setting one bit adds exactly that member.
proof fn lemma_set_bit(r: u64, r2: u64, t: u64)
    requires
        t < 64,
        r2 == r | (1u64 << t),
    ensures
        forall|j: u64| bit64(r2, j) == (bit64(r, j) || j == t),
{
    assert forall|j: u64| bit64(r2, j) == (bit64(r, j) || j == t) by {
        lemma_bit_or(r, 1u64 << t, j);
        lemma_bit_single(t, j);
    }
}

/// Squares a knight on `sq` attacks.
pub fn knight_attacks(sq: u8) -> (r: u64)
    requires
        sq < 64,
    ensures
        forall|j: u64| bit64(r, j) == knight_attack_spec(sq as u64, j),
{
    let fs: i32 = (sq % 8) as i32;
    let rs: i32 = (sq / 8) as i32;
    let mut r: u64 = 0;
    assert forall|j: u64| !bit64(0u64, j) by {
        crate::bits::lemma_bit_zero(j);
    }
    let mut t: u64 = 0;
    while t < 64
        invariant
            t <= 64,
            fs == file_of(sq as int),
            rs == rank_of(sq as int),
            forall|j: u64| bit64(r, j) == (j < t && knight_attack_spec(sq as u64, j)),
        decreases 64 - t,
    {
        let ft: i32 = (t % 8) as i32;
        let rt: i32 = (t / 8) as i32;
        let df: i32 = if ft >= fs {
            ft - fs
        } else {
            fs - ft
        };
        let dr: i32 = if rt >= rs {
            rt - rs
        } else {
            rs - rt
        };
        if (df == 1 && dr == 2) || (df == 2 && dr == 1) {
            let r2 = r | (1u64 << t);
            proof {
                lemma_set_bit(r, r2, t);
            }
            r = r2;
        }
        t = t + 1;
    }
    r
}

/// Squares a king on `sq` attacks.
pub fn king_attacks(sq: u8) -> (r: u64)
    requires
        sq < 64,
    ensures
        forall|j: u64| bit64(r, j) == king_attack_spec(sq as u64, j),
{
    let fs: i32 = (sq % 8) as i32;
    let rs: i32 = (sq / 8) as i32;
    let mut r: u64 = 0;
    assert forall|j: u64| !bit64(0u64, j) by {
        crate::bits::lemma_bit_zero(j);
    }
    for t in 0..64u64
        invariant
            fs == file_of(sq as int),
            rs == rank_of(sq as int),
            forall|j: u64| bit64(r, j) == (j < t && king_attack_spec(sq as u64, j)),
    {
        let ft: i32 = (t % 8) as i32;
        let rt: i32 = (t / 8) as i32;
        let df: i32 = if ft >= fs {
            ft - fs
        } else {
            fs - ft
        };
        let dr: i32 = if rt >= rs {
            rt - rs
        } else {
            rs - rt
        };
        if df <= 1 && dr <= 1 && (df != 0 || dr != 0) {
            let r2 = r | (1u64 << t);
            proof {
                lemma_set_bit(r, r2, t);
            }
            r = r2;
        }
    }
    r
}

/// Squares a pawn of the given color on `sq` attacks.
pub fn pawn_attacks(white: bool, sq: u8) -> (r: u64)
    requires
        sq < 64,
    ensures
        forall|j: u64| bit64(r, j) == pawn_attack_spec(white, sq as u64, j),
{
    let fs: i32 = (sq % 8) as i32;
    let rs: i32 = (sq / 8) as i32;
    let step: i32 = if white {
        1
    } else {
        -1
    };
    let mut r: u64 = 0;
    assert forall|j: u64| !bit64(0u64, j) by {
        crate::bits::lemma_bit_zero(j);
    }
    for t in 0..64u64
        invariant
            fs == file_of(sq as int),
            rs == rank_of(sq as int),
            step == if white { 1int } else { -1int },
            forall|j: u64| bit64(r, j) == (j < t && pawn_attack_spec(white, sq as u64, j)),
    {
        let ft: i32 = (t % 8) as i32;
        let rt: i32 = (t / 8) as i32;
        let df: i32 = if ft >= fs {
            ft - fs
        } else {
            fs - ft
        };
        if rt == rs + step && df == 1 {
            let r2 = r | (1u64 << t);
            proof {
                lemma_set_bit(r, r2, t);
            }
            r = r2;
        }
    }
    r
}

/// Quiet push squares of a pawn of the given color on `sq`, given `occ`.
pub fn pawn_quiets(white: bool, sq: u8, occ: u64) -> (r: u64)
    requires
        sq < 64,
    ensures
        forall|j: u64| bit64(r, j) == pawn_quiet_spec(white, sq as u64, occ, j),
{
    let rs: i32 = (sq / 8) as i32;
    let mut r: u64 = 0;
    assert forall|j: u64| !bit64(0u64, j) by {
        crate::bits::lemma_bit_zero(j);
    }
    for t in 0..64u64
        invariant
            rs == rank_of(sq as int),
            forall|j: u64| bit64(r, j) == (j < t && pawn_quiet_spec(white, sq as u64, occ, j)),
    {
        let occ_t = (occ >> t) & 1u64 == 1u64;
        let hit = if white {
            let single = t == sq as u64 + 8 && !occ_t;
            let double = rs == 1 && t == sq as u64 + 16 && ((occ >> (sq + 8) as u64) & 1u64
                != 1u64) && !occ_t;
            single || double
        } else {
            let single = sq >= 8 && t == sq as u64 - 8 && !occ_t;
            let double = rs == 6 && sq >= 16 && t == sq as u64 - 16 && ((occ >> (sq - 8) as u64)
                & 1u64 != 1u64) && !occ_t;
            single || double
        };
        if hit {
            let r2 = r | (1u64 << t);
            proof {
                lemma_set_bit(r, r2, t);
            }
            r = r2;
        }
    }
    r
}

/// The forward span of a pawn of the given color on `sq`.
pub fn forward_span(white: bool, sq: u8) -> (r: u64)
    requires
        sq < 64,
    ensures
        forall|j: u64| bit64(r, j) == forward_span_spec(white, sq as u64, j),
{
    let fs: i32 = (sq % 8) as i32;
    let rs: i32 = (sq / 8) as i32;
    let mut r: u64 = 0;
    assert forall|j: u64| !bit64(0u64, j) by {
        crate::bits::lemma_bit_zero(j);
    }
    for t in 0..64u64
        invariant
            fs == file_of(sq as int),
            rs == rank_of(sq as int),
            forall|j: u64| bit64(r, j) == (j < t && forward_span_spec(white, sq as u64, j)),
    {
        let ft: i32 = (t % 8) as i32;
        let rt: i32 = (t / 8) as i32;
        let hit = ft == fs && if white {
            rs < rt && rt <= 6
        } else {
            1 <= rt && rt < rs
        };
        if hit {
            let r2 = r | (1u64 << t);
            proof {
                lemma_set_bit(r, r2, t);
            }
            r = r2;
        }
    }
    r
}

/// The blocker mask of a pawn of the given color on `sq`.
pub fn blocker_mask(white: bool, sq: u8) -> (r: u64)
    requires
        sq < 64,
    ensures
        forall|j: u64| bit64(r, j) == blocker_spec(white, sq as u64, j),
{
    let fs: i32 = (sq % 8) as i32;
    let rs: i32 = (sq / 8) as i32;
    let mut r: u64 = 0;
    assert forall|j: u64| !bit64(0u64, j) by {
        crate::bits::lemma_bit_zero(j);
    }
    for t in 0..64u64
        invariant
            fs == file_of(sq as int),
            rs == rank_of(sq as int),
            forall|j: u64| bit64(r, j) == (j < t && blocker_spec(white, sq as u64, j)),
    {
        let ft: i32 = (t % 8) as i32;
        let rt: i32 = (t / 8) as i32;
        let df: i32 = if ft >= fs {
            ft - fs
        } else {
            fs - ft
        };
        let hit = df <= 1 && if white {
            (df == 1 && rt == rs + 1) || (rs < rt && rt <= 6)
        } else {
            (df == 1 && rt == rs - 1) || (1 <= rt && rt < rs)
        };
        if hit {
            let r2 = r | (1u64 << t);
            proof {
                lemma_set_bit(r, r2, t);
            }
            r = r2;
        }
    }
    r
}

/// `t` lies on file `f`.
pub open spec fn file_spec(f: int, t: u64) -> bool {
    t < 64 && file_of(t as int) == f
}

/// The bitboard of file `f`.
pub fn file_mask(f: u8) -> (r: u64)
    requires
        f < 8,
    ensures
        forall|j: u64| bit64(r, j) == file_spec(f as int, j),
{
    let mut r: u64 = 0;
    assert forall|j: u64| !bit64(0u64, j) by {
        crate::bits::lemma_bit_zero(j);
    }
    for t in 0..64u64
        invariant
            forall|j: u64| bit64(r, j) == (j < t && file_spec(f as int, j)),
    {
        if t % 8 == f as u64 {
            let r2 = r | (1u64 << t);
            proof {
                lemma_set_bit(r, r2, t);
            }
            r = r2;
        }
    }
    r
}

/// `x` lies strictly between `a` and `b`.
pub open spec fn strictly_between(x: int, a: int, b: int) -> bool {
    (a < x && x < b) || (b < x && x < a)
}

/// A rook on `sq` attacks `t` given the occupancy `occ`: a different
/// square of the same rank or file, with every square strictly between
/// the two unoccupied (the first occupied square of a ray is attacked,
/// squares beyond it are not).
pub open spec fn rook_attack_spec(sq: u64, occ: u64, t: u64) -> bool {
    t < 64 && t != sq && ((file_of(t as int) == file_of(sq as int) && (forall|u: u64|
        u < 64 && file_of(u as int) == file_of(sq as int) && strictly_between(
            rank_of(u as int),
            rank_of(sq as int),
            rank_of(t as int),
        ) ==> !bit64(occ, u))) || (rank_of(t as int) == rank_of(sq as int) && (forall|u: u64|
        u < 64 && rank_of(u as int) == rank_of(sq as int) && strictly_between(
            file_of(u as int),
            file_of(sq as int),
            file_of(t as int),
        ) ==> !bit64(occ, u))))
}

/// A bishop on `sq` attacks `t` given the occupancy `occ`: a different
/// square of the same diagonal or anti-diagonal, with every square
/// strictly between the two unoccupied.
pub open spec fn bishop_attack_spec(sq: u64, occ: u64, t: u64) -> bool {
    t < 64 && t != sq && ((file_of(t as int) - rank_of(t as int) == file_of(sq as int) - rank_of(
        sq as int,
    ) && (forall|u: u64|
        u < 64 && file_of(u as int) - rank_of(u as int) == file_of(sq as int) - rank_of(sq as int)
            && strictly_between(file_of(u as int), file_of(sq as int), file_of(t as int)) ==> !bit64(
            occ,
            u,
        ))) || (file_of(t as int) + rank_of(t as int) == file_of(sq as int) + rank_of(sq as int) && (
    forall|u: u64|
        u < 64 && file_of(u as int) + rank_of(u as int) == file_of(sq as int) + rank_of(sq as int)
            && strictly_between(file_of(u as int), file_of(sq as int), file_of(t as int)) ==> !bit64(
            occ,
            u,
        ))))
}

/// Relies on `cozy_chess::get_bishop_moves`: the diagonal-slider attack
/// set for a square given blockers. Its table lookup is documented to
/// equal `get_bishop_moves_const`, which walks the four diagonal rays
/// outward, collecting squares up to and including the first occupied
/// one — exactly `bishop_attack_spec`.
#[verifier::external_body]
pub fn bishop_attacks(sq: u8, occ: u64) -> (r: u64)
    requires
        sq < 64,
    ensures
        forall|t: u64| bit64(r, t) == bishop_attack_spec(sq as u64, occ, t),
{
    cozy_chess::get_bishop_moves(cozy_chess::Square::index(sq as usize), cozy_chess::BitBoard(occ))
        .0
}

/// Relies on `cozy_chess::get_rook_moves`: the orthogonal-slider attack
/// set for a square given blockers. Its table lookup is documented to
/// equal `get_rook_moves_const`, which walks the four orthogonal rays
/// outward, collecting squares up to and including the first occupied
/// one — exactly `rook_attack_spec`.
#[verifier::external_body]
pub fn rook_attacks(sq: u8, occ: u64) -> (r: u64)
    requires
        sq < 64,
    ensures
        forall|t: u64| bit64(r, t) == rook_attack_spec(sq as u64, occ, t),
{
    cozy_chess::get_rook_moves(cozy_chess::Square::index(sq as usize), cozy_chess::BitBoard(occ)).0
}

} // verus!
