//! The handcrafted evaluator: a phase-interpolated sum of king-relative
//! piece-square, mobility, virtual-queen-mobility, passed-pawn, rook-file
//! and bishop-pair terms, White minus Black, signed for the side to move.
//! Each scoring contribution can be mirrored into an `EvalTrace` with the
//! same sign and index as the weight lookup.

use vstd::prelude::*;
use crate::bits::{bit64, popcnt, popcnt_to, count_sat, count_bits, lemma_popcnt_to_bounds,
    lemma_popcnt_matches, lemma_popcnt_remove, lemma_count_sat_bounds, lemma_bit_and, lemma_bit_not, lemma_bit_or,
    lemma_empty_and};
use crate::board::{Board, Color, Piece, piece_index, piece_from_index};
use crate::phased::{PhasedEval, wrap16, lemma_wrap16_add, lemma_wrap16_sub, lemma_wrap16_addu, lemma_wrap16_subu};
use crate::terms::{EvalTerms, EvalTrace, EvalWeights, king_bucket, king_buckets, psqt_len,
    psqt_index, mob_offset, mob_cap, mob_len, vqm_len, passed_len, passed_index, mob_offset_of,
    mob_cap_of, mob_flat};
use crate::attacks::{file_of, rank_of, knight_attack_spec, king_attack_spec, pawn_attack_spec,
    pawn_quiet_spec, forward_span_spec, blocker_spec, file_spec, knight_attacks, king_attacks,
    pawn_attacks, pawn_quiets, forward_span, blocker_mask, file_mask, bishop_attack_spec,
    rook_attack_spec, bishop_attacks, rook_attacks};

verus! {

/// The interpolation range: 0 is full material, `MAX_PHASE` a bare board.
pub const MAX_PHASE: u32 = 256;

/// An unbounded midgame/endgame pair, for stating sums without wrapping.
pub struct SPair {
    pub mg: int,
    pub eg: int,
}

pub open spec fn szero() -> SPair {
    SPair { mg: 0, eg: 0 }
}

pub open spec fn sadd(a: SPair, b: SPair) -> SPair {
    SPair { mg: a.mg + b.mg, eg: a.eg + b.eg }
}

pub open spec fn ssub(a: SPair, b: SPair) -> SPair {
    SPair { mg: a.mg - b.mg, eg: a.eg - b.eg }
}

/// A weight entry as an unbounded pair.
pub open spec fn wcell(w: PhasedEval) -> SPair {
    SPair { mg: w.mg as int, eg: w.eg as int }
}

/// The board square a table slot stands for, from `c`'s point of view:
/// Black's tables read the board with ranks flipped.
pub open spec fn orient(c: Color, sq: int) -> int {
    if c == Color::White {
        sq
    } else {
        8 * (7 - rank_of(sq)) + file_of(sq)
    }
}

/// `c` has a piece of kind `p` on board square `sq`.
pub open spec fn has_at(b: Board, c: Color, p: Piece, sq: int) -> bool {
    0 <= sq < 64 && b.has(c, p, sq as u64)
}

/// The king bucket of `c`'s king.
pub open spec fn kb_of(b: Board, c: Color) -> int {
    king_bucket(b.spec_king(c) as int)
}

// ----- game phase -----

/// Weighted count of the non-pawn, non-king material on the board.
pub open spec fn phase_inv(b: Board) -> int {
    popcnt(b.knights) + popcnt(b.bishops) + 2 * popcnt(b.rooks) + 4 * popcnt(b.queens)
}

/// The interpolation phase of `b`: 0 at full material, 256 with no
/// non-pawn, non-king material, saturating under extra promoted pieces.
pub open spec fn phase_spec(b: Board) -> int {
    let raw = if phase_inv(b) >= 24 {
        0int
    } else {
        24 - phase_inv(b)
    };
    (raw * 256 + 12) / 24
}

/// Compute the game phase from the live piece counts.
pub fn game_phase(b: &Board) -> (r: u32)
    ensures
        r == phase_spec(*b),
        r <= 256,
{
    let inv: u32 = count_bits(b.knights) + count_bits(b.bishops) + 2 * count_bits(b.rooks) + 4
        * count_bits(b.queens);
    proof {
        lemma_popcnt_to_bounds(b.knights, 64);
        lemma_popcnt_to_bounds(b.bishops, 64);
        lemma_popcnt_to_bounds(b.rooks, 64);
        lemma_popcnt_to_bounds(b.queens, 64);
    }
    let raw: u32 = if inv >= 24 {
        0
    } else {
        24 - inv
    };
    (raw * 256 + 12) / 24
}

/// Removing one non-pawn, non-king piece never decreases the phase, and
/// the phase always stays within the interpolation range.
pub proof fn lemma_phase_monotone(b1: Board, b2: Board, p: Piece, sq: u64)
    requires
        sq < 64,
        p == Piece::Knight || p == Piece::Bishop || p == Piece::Rook || p == Piece::Queen,
        bit64(b1.spec_pieces(p), sq),
        b2.knights == if p == Piece::Knight {
            b1.knights & !(1u64 << sq)
        } else {
            b1.knights
        },
        b2.bishops == if p == Piece::Bishop {
            b1.bishops & !(1u64 << sq)
        } else {
            b1.bishops
        },
        b2.rooks == if p == Piece::Rook {
            b1.rooks & !(1u64 << sq)
        } else {
            b1.rooks
        },
        b2.queens == if p == Piece::Queen {
            b1.queens & !(1u64 << sq)
        } else {
            b1.queens
        },
    ensures
        phase_spec(b2) >= phase_spec(b1),
        0 <= phase_spec(b1) <= 256,
        0 <= phase_spec(b2) <= 256,
{
    lemma_popcnt_to_bounds(b1.knights, 64);
    lemma_popcnt_to_bounds(b1.bishops, 64);
    lemma_popcnt_to_bounds(b1.rooks, 64);
    lemma_popcnt_to_bounds(b1.queens, 64);
    lemma_popcnt_to_bounds(b2.knights, 64);
    lemma_popcnt_to_bounds(b2.bishops, 64);
    lemma_popcnt_to_bounds(b2.rooks, 64);
    lemma_popcnt_to_bounds(b2.queens, 64);
    match p {
        Piece::Knight => lemma_popcnt_remove(b1.knights, sq),
        Piece::Bishop => lemma_popcnt_remove(b1.bishops, sq),
        Piece::Rook => lemma_popcnt_remove(b1.rooks, sq),
        Piece::Queen => lemma_popcnt_remove(b1.queens, sq),
        _ => (),
    }
    let raw1 = if phase_inv(b1) >= 24 {
        0int
    } else {
        24 - phase_inv(b1)
    };
    let raw2 = if phase_inv(b2) >= 24 {
        0int
    } else {
        24 - phase_inv(b2)
    };
    vstd::arithmetic::div_mod::lemma_div_is_ordered(raw1 * 256 + 12, raw2 * 256 + 12, 24);
    vstd::arithmetic::div_mod::lemma_div_is_ordered(0, raw1 * 256 + 12, 24);
    vstd::arithmetic::div_mod::lemma_div_is_ordered(raw1 * 256 + 12, 24int * 256 + 12, 24);
    vstd::arithmetic::div_mod::lemma_div_is_ordered(0, raw2 * 256 + 12, 24);
    vstd::arithmetic::div_mod::lemma_div_is_ordered(raw2 * 256 + 12, 24int * 256 + 12, 24);
}

// ----- interpolation -----

/// Blend a midgame and an endgame value by the phase, truncating toward
/// zero as Rust's integer division does.
pub open spec fn interpolate_spec(mg: int, eg: int, phase: int) -> int {
    let num = mg * (256 - phase) + eg * phase;
    if num >= 0 {
        num / 256
    } else {
        -((-num) / 256)
    }
}

/// Compute the phase blend of a wrapped score pair.
pub fn interpolate(mg: i16, eg: i16, phase: u32) -> (r: i32)
    requires
        phase <= 256,
    ensures
        r == interpolate_spec(mg as int, eg as int, phase as int),
        -32768 <= r <= 32768,
{
    proof {
        let m = mg as int;
        let e = eg as int;
        let ph = phase as int;
        assert(m * (256 - ph) <= 32767 * 256 && m * (256 - ph) >= -32768 * 256) by (nonlinear_arith)
            requires
                -32768 <= m <= 32767,
                0 <= ph <= 256,
        ;
        assert(e * ph <= 32767 * 256 && e * ph >= -32768 * 256) by (nonlinear_arith)
            requires
                -32768 <= e <= 32767,
                0 <= ph <= 256,
        ;
    }
    let num: i64 = mg as i64 * (256 - phase as i64) + eg as i64 * (phase as i64);
    proof {
        let m = mg as int;
        let e = eg as int;
        let ph = phase as int;
        assert(m * (256 - ph) + e * ph <= 32767 * 256 && m * (256 - ph) + e * ph >= -32768 * 256)
            by (nonlinear_arith)
            requires
                -32768 <= m <= 32767,
                -32768 <= e <= 32767,
                0 <= ph <= 256,
        ;
        vstd::arithmetic::div_mod::lemma_div_is_ordered(num as int, 32767int * 256, 256);
        vstd::arithmetic::div_mod::lemma_div_is_ordered(0, if num as int >= 0 {
            num as int
        } else {
            -(num as int)
        }, 256);
        vstd::arithmetic::div_mod::lemma_div_is_ordered(-(num as int), 32768int * 256, 256);
    }
    if num >= 0 {
        let q: i64 = (((num as u64) / 256u64)) as i64;
        q as i32
    } else {
        let q: i64 = (((-num) as u64 / 256u64)) as i64;
        (-q) as i32
    }
}

/// The sign the final score is multiplied by: positive for the mover.
pub open spec fn stm_sign(c: Color) -> int {
    c.sign()
}

// ----- piece-square terms -----

/// Whether slot `(p, kb, sq0)` of the piece-square trace receives a count
/// during `c`'s pass.
pub open spec fn psqt_ind(b: Board, c: Color, p: int, kb: int, sq0: int) -> int {
    if kb == kb_of(b, c) && has_at(b, c, crate::board::piece_of(p), orient(c, sq0)) {
        1
    } else {
        0
    }
}

/// Sum of `c`'s piece-square weights of kind `p` over table slots below `n`.
pub open spec fn psqt_sq_sum(b: Board, c: Color, w: EvalWeights, p: int, n: int) -> SPair
    decreases n,
{
    if n <= 0 {
        szero()
    } else {
        sadd(
            psqt_sq_sum(b, c, w, p, n - 1),
            if has_at(b, c, crate::board::piece_of(p), orient(c, n - 1)) {
                wcell(w.piece_tables@[psqt_index(p, kb_of(b, c), n - 1)])
            } else {
                szero()
            },
        )
    }
}

/// Sum of `c`'s piece-square weights over piece kinds below `pi`.
pub open spec fn psqt_piece_sum(b: Board, c: Color, w: EvalWeights, pi: int) -> SPair
    decreases pi,
{
    if pi <= 0 {
        szero()
    } else {
        sadd(psqt_piece_sum(b, c, w, pi - 1), psqt_sq_sum(b, c, w, pi - 1, 64))
    }
}

/// `c`'s whole piece-square term.
pub open spec fn psqt_total(b: Board, c: Color, w: EvalWeights) -> SPair {
    psqt_piece_sum(b, c, w, 6)
}

/// `psqt_ind`, restricted to the slots a pass has reached: all kinds below
/// `pi`, and kind `pi` itself up to slot square `n`.
pub open spec fn psqt_ind_upto(
    b: Board,
    c: Color,
    p: int,
    kb: int,
    sq0: int,
    pi: int,
    n: int,
) -> int {
    if p < pi || (p == pi && sq0 < n) {
        psqt_ind(b, c, p, kb, sq0)
    } else {
        0
    }
}

/// How one color pass rewrites the piece-square trace: each slot gains the
/// pass's sign exactly when its bucket is the passer's king bucket and the
/// passer holds that piece on the slot's board square; all other tables
/// keep their contents.
#[verifier::opaque]
pub open spec fn psqt_trace_rel(t0: EvalTrace, t1: EvalTrace, b: Board, c: Color) -> bool {
    &&& t1.piece_tables@.len() == t0.piece_tables@.len()
    &&& forall|p: int, kb: int, sq0: int|
        0 <= p < 6 && 0 <= kb < king_buckets() && 0 <= sq0 < 64 ==> t1.piece_tables@[psqt_index(
            p,
            kb,
            sq0,
        )] as int == wrap16(
            t0.piece_tables@[psqt_index(p, kb, sq0)] + c.sign() * psqt_ind(b, c, p, kb, sq0),
        )
    &&& t1.mobility@ == t0.mobility@
    &&& t1.virtual_queen_mobility@ == t0.virtual_queen_mobility@
    &&& t1.passed_pawns@ == t0.passed_pawns@
    &&& t1.bishop_pair == t0.bishop_pair
    &&& t1.rook_on_open_file == t0.rook_on_open_file
    &&& t1.rook_on_semiopen_file == t0.rook_on_semiopen_file
}

/// One color's piece-square pass: look every piece up in its king-relative
/// table, and mirror each lookup into the trace when tracing.
#[verifier::rlimit(100)]
#[verifier::loop_isolation(false)]
pub fn psqt_terms(b: &Board, w: &EvalWeights, c: Color, tracing: bool, tr: &mut EvalTrace) -> (r:
    PhasedEval)
    requires
        b.wf(),
        w.wf(),
        tracing ==> old(tr).wf(),
    ensures
        r.mg as int == wrap16(psqt_total(*b, c, *w).mg),
        r.eg as int == wrap16(psqt_total(*b, c, *w).eg),
        !tracing ==> *final(tr) == *old(tr),
        tracing ==> final(tr).wf() && psqt_trace_rel(*old(tr), *final(tr), *b, c),
{
    let ours: u64 = b.colors(c);
    let ksq: u8 = b.king(c);
    let kb: usize = ((ksq % 8) / 2) as usize;
    let sign: i16 = match c {
        Color::White => 1,
        Color::Black => -1,
    };
    let mut acc = PhasedEval::zero();
    proof {
        if tracing {
            lemma_psqt_partial_init(*old(tr), *b, c);
        }
    }
    for pi in 0..6usize
        invariant
            w.piece_tables@.len() == psqt_len(),
            ours == b.spec_colors(c),
            kb == kb_of(*b, c),
            kb < 4,
            sign as int == c.sign(),
            acc.mg as int == wrap16(psqt_piece_sum(*b, c, *w, pi as int).mg),
            acc.eg as int == wrap16(psqt_piece_sum(*b, c, *w, pi as int).eg),
            !tracing ==> *tr == *old(tr),
            tracing ==> old(tr).wf() && tr.piece_tables@.len() == psqt_len() && psqt_partial(*old(tr), *tr, *b, c, pi as int, 0),
    {
        let p = piece_from_index(pi);
        let cp: u64 = ours & b.pieces(p);
        for sq0 in 0..64usize
            invariant
                w.piece_tables@.len() == psqt_len(),
                ours == b.spec_colors(c),
                kb == kb_of(*b, c),
                kb < 4,
                pi < 6,
                sign as int == c.sign(),
                p == crate::board::piece_of(pi as int),
                cp == b.spec_colors(c) & b.spec_pieces(p),
                acc.mg as int == wrap16(
                    sadd(
                        psqt_piece_sum(*b, c, *w, pi as int),
                        psqt_sq_sum(*b, c, *w, pi as int, sq0 as int),
                    ).mg,
                ),
                acc.eg as int == wrap16(
                    sadd(
                        psqt_piece_sum(*b, c, *w, pi as int),
                        psqt_sq_sum(*b, c, *w, pi as int, sq0 as int),
                    ).eg,
                ),
                !tracing ==> *tr == *old(tr),
                tracing ==> old(tr).wf() && tr.piece_tables@.len() == psqt_len() && psqt_partial(*old(tr), *tr, *b, c, pi as int, sq0 as int),
        {
            let bsq: u8 = match c {
                Color::White => sq0 as u8,
                Color::Black => {
                    let rk: u8 = (sq0 as u8) / 8;
                    let fl: u8 = (sq0 as u8) % 8;
                    (7 - rk) * 8 + fl
                },
            };
            assert(bsq as int == orient(c, sq0 as int));
            assert(bsq < 64);
            let ghost sum_pre = sadd(
                psqt_piece_sum(*b, c, *w, pi as int),
                psqt_sq_sum(*b, c, *w, pi as int, sq0 as int),
            );
            let hit = (cp >> bsq) & 1u64 == 1u64;
            if tracing {
                psqt_trace_step(
                    tr,
                    Ghost(*old(tr)),
                    Ghost(*b),
                    Ghost(c),
                    pi,
                    sq0,
                    kb,
                    sign,
                    hit,
                );
            }
            if hit {
                let idx: usize = (pi * 4 + kb) * 64 + sq0;
                assert(idx == psqt_index(pi as int, kb as int, sq0 as int));
                let cell: PhasedEval = w.piece_tables[idx];
                proof {
                    lemma_wrap16_add(sum_pre.mg, cell.mg as int);
                    lemma_wrap16_add(sum_pre.eg, cell.eg as int);
                }
                acc = acc.padd(cell);
            }
        }
        proof {
            if tracing {
                lemma_psqt_partial_roll(*old(tr), *tr, *b, c, pi as int);
            }
        }
    }
    proof {
        if tracing {
            lemma_psqt_partial_done(*old(tr), *tr, *b, c);
        }
    }
    acc
}

/// Record one piece-square slot into the trace, carrying the pass's
/// bookkeeping from slot square `sq0` to the next.
#[verifier::rlimit(60)]
fn psqt_trace_step(
    tr: &mut EvalTrace,
    Ghost(t0): Ghost<EvalTrace>,
    Ghost(b): Ghost<Board>,
    Ghost(c): Ghost<Color>,
    pi: usize,
    sq0: usize,
    kb: usize,
    sign: i16,
    hit: bool,
)
    requires
        t0.wf(),
        pi < 6,
        sq0 < 64,
        kb == kb_of(b, c),
        kb < 4,
        sign as int == c.sign(),
        hit == has_at(b, c, crate::board::piece_of(pi as int), orient(c, sq0 as int)),
        old(tr).piece_tables@.len() == psqt_len(),
        psqt_partial(t0, *old(tr), b, c, pi as int, sq0 as int),
    ensures
        final(tr).piece_tables@.len() == psqt_len(),
        psqt_partial(t0, *final(tr), b, c, pi as int, sq0 as int + 1),
{
    let ghost pre = *tr;
    if hit {
        let idx: usize = (pi * 4 + kb) * 64 + sq0;
        assert(idx == psqt_index(pi as int, kb as int, sq0 as int));
        let cur: i16 = tr.piece_tables[idx];
        tr.piece_tables.set(idx, cur.wrapping_add(sign));
    }
    proof {
        lemma_psqt_partial_step(t0, pre, *tr, b, c, pi as int, sq0 as int, kb as int);
    }
}

/// The piece-square trace relation while a pass is underway.
#[verifier::opaque]
pub open spec fn psqt_partial(
    t0: EvalTrace,
    t1: EvalTrace,
    b: Board,
    c: Color,
    pi: int,
    n: int,
) -> bool {
    &&& t1.piece_tables@.len() == t0.piece_tables@.len()
    &&& forall|p: int, kb: int, sq0: int|
        0 <= p < 6 && 0 <= kb < king_buckets() && 0 <= sq0 < 64 ==> t1.piece_tables@[psqt_index(
            p,
            kb,
            sq0,
        )] as int == wrap16(
            t0.piece_tables@[psqt_index(p, kb, sq0)] + c.sign() * psqt_ind_upto(
                b,
                c,
                p,
                kb,
                sq0,
                pi,
                n,
            ),
        )
    &&& t1.mobility@ == t0.mobility@
    &&& t1.virtual_queen_mobility@ == t0.virtual_queen_mobility@
    &&& t1.passed_pawns@ == t0.passed_pawns@
    &&& t1.bishop_pair == t0.bishop_pair
    &&& t1.rook_on_open_file == t0.rook_on_open_file
    &&& t1.rook_on_semiopen_file == t0.rook_on_semiopen_file
}

/// An untouched trace satisfies the partial relation at the pass's start.
proof fn lemma_psqt_partial_init(t0: EvalTrace, b: Board, c: Color)
    requires
        t0.wf(),
    ensures
        psqt_partial(t0, t0, b, c, 0, 0),
{
    reveal(psqt_partial);
}

/// A pass that exhausted one piece kind stands at the start of the next.
proof fn lemma_psqt_partial_roll(t0: EvalTrace, t1: EvalTrace, b: Board, c: Color, pi: int)
    requires
        psqt_partial(t0, t1, b, c, pi, 64),
    ensures
        psqt_partial(t0, t1, b, c, pi + 1, 0),
{
    reveal(psqt_partial);
}

/// A finished pass establishes the full trace relation.
proof fn lemma_psqt_partial_done(t0: EvalTrace, t1: EvalTrace, b: Board, c: Color)
    requires
        t0.wf(),
        psqt_partial(t0, t1, b, c, 6, 0),
    ensures
        t1.wf(),
        psqt_trace_rel(t0, t1, b, c),
{
    reveal(psqt_partial);
    reveal(psqt_trace_rel);
}

/// One slot square either left alone or bumped keeps the partial relation.
proof fn lemma_psqt_partial_step(
    t0: EvalTrace,
    pre: EvalTrace,
    post: EvalTrace,
    b: Board,
    c: Color,
    pi: int,
    n: int,
    kbc: int,
)
    requires
        t0.wf(),
        0 <= pi < 6,
        0 <= n < 64,
        kbc == kb_of(b, c),
        0 <= kbc < king_buckets(),
        psqt_partial(t0, pre, b, c, pi, n),
        if has_at(b, c, crate::board::piece_of(pi), orient(c, n)) {
            post.piece_tables@ == pre.piece_tables@.update(
                psqt_index(pi, kbc, n),
                crate::phased::crop_i16(
                    pre.piece_tables@[psqt_index(pi, kbc, n)] + c.sign(),
                ),
            )
        } else {
            post.piece_tables@ == pre.piece_tables@
        },
        post.mobility@ == pre.mobility@,
        post.virtual_queen_mobility@ == pre.virtual_queen_mobility@,
        post.passed_pawns@ == pre.passed_pawns@,
        post.bishop_pair == pre.bishop_pair,
        post.rook_on_open_file == pre.rook_on_open_file,
        post.rook_on_semiopen_file == pre.rook_on_semiopen_file,
    ensures
        psqt_partial(t0, post, b, c, pi, n + 1),
{
    reveal(psqt_partial);
    assert forall|p: int, kb: int, sq0: int|
        0 <= p < 6 && 0 <= kb < king_buckets() && 0 <= sq0 < 64 implies post.piece_tables@[
    psqt_index(p, kb, sq0)] as int == wrap16(
        t0.piece_tables@[psqt_index(p, kb, sq0)] + c.sign() * psqt_ind_upto(
            b,
            c,
            p,
            kb,
            sq0,
            pi,
            n + 1,
        ),
    ) by {
        let j = psqt_index(p, kb, sq0);
        let hit = has_at(b, c, crate::board::piece_of(pi), orient(c, n));
        if p == pi && sq0 == n && kb == kbc && hit {
            lemma_wrap16_add(t0.piece_tables@[j] as int, c.sign());
        } else {
            assert(j != psqt_index(pi, kbc, n) || !hit);
        }
    }
}

// ----- mobility terms -----

/// How many squares a piece of kind `p` of color `c` on `sq` can reach:
/// quiet pushes and captures for a pawn, attack squares not occupied by a
/// friendly piece for the rest. Pins and check legality are ignored by
/// design.
#[verifier::opaque]
pub open spec fn mob_count_spec(b: Board, c: Color, p: Piece, sq: u64) -> int {
    let ours = b.spec_colors(c);
    let theirs = b.spec_colors(c.other());
    let occ = b.spec_occupied();
    let white = (c == Color::White);
    match p {
        Piece::Pawn => count_sat(
            |t: u64|
                pawn_quiet_spec(white, sq, occ, t) || (pawn_attack_spec(white, sq, t) && bit64(
                    theirs,
                    t,
                )),
            64,
        ),
        Piece::Knight => count_sat(|t: u64| knight_attack_spec(sq, t) && !bit64(ours, t), 64),
        Piece::Bishop => count_sat(|t: u64| bishop_attack_spec(sq, occ, t) && !bit64(ours, t), 64),
        Piece::Rook => count_sat(|t: u64| rook_attack_spec(sq, occ, t) && !bit64(ours, t), 64),
        Piece::Queen => count_sat(
            |t: u64|
                (bishop_attack_spec(sq, occ, t) || rook_attack_spec(sq, occ, t)) && !bit64(
                    ours,
                    t,
                ),
            64,
        ),
        Piece::King => count_sat(|t: u64| king_attack_spec(sq, t) && !bit64(ours, t), 64),
    }
}

/// The mobility table entry the piece indexes: its reach count, clamped to
/// the table's last entry.
pub open spec fn mob_index_spec(b: Board, c: Color, p: Piece, sq: u64) -> int {
    let cnt = mob_count_spec(b, c, p, sq);
    if cnt >= mob_cap(piece_index(p)) {
        mob_cap(piece_index(p)) - 1
    } else {
        cnt
    }
}

/// Sum of `c`'s mobility weights of kind `p` over board squares below `n`.
pub open spec fn mob_sq_sum(b: Board, c: Color, w: EvalWeights, p: Piece, n: int) -> SPair
    decreases n,
{
    if n <= 0 {
        szero()
    } else {
        sadd(
            mob_sq_sum(b, c, w, p, n - 1),
            if has_at(b, c, p, n - 1) {
                wcell(
                    w.mobility@[mob_offset(piece_index(p)) + mob_index_spec(
                        b,
                        c,
                        p,
                        (n - 1) as u64,
                    )],
                )
            } else {
                szero()
            },
        )
    }
}

/// Sum of `c`'s mobility weights over piece kinds below `pi`.
pub open spec fn mob_piece_sum(b: Board, c: Color, w: EvalWeights, pi: int) -> SPair
    decreases pi,
{
    if pi <= 0 {
        szero()
    } else {
        sadd(mob_piece_sum(b, c, w, pi - 1), mob_sq_sum(b, c, w, crate::board::piece_of(pi - 1), 64))
    }
}

/// `c`'s whole mobility term.
pub open spec fn mob_total(b: Board, c: Color, w: EvalWeights) -> SPair {
    mob_piece_sum(b, c, w, 6)
}

/// How many of `c`'s pieces of kind `p` on board squares below `n` index
/// mobility entry `m`.
pub open spec fn mob_slot_count(b: Board, c: Color, p: int, m: int, n: int) -> int
    decreases n,
{
    if n <= 0 {
        0
    } else {
        mob_slot_count(b, c, p, m, n - 1) + if has_at(b, c, crate::board::piece_of(p), n - 1)
            && mob_index_spec(b, c, crate::board::piece_of(p), (n - 1) as u64) == m {
            1int
        } else {
            0int
        }
    }
}

/// `mob_slot_count`, restricted to what a pass has reached.
pub open spec fn mob_count_upto(b: Board, c: Color, p: int, m: int, pi: int, n: int) -> int {
    if p < pi {
        mob_slot_count(b, c, p, m, 64)
    } else if p == pi {
        mob_slot_count(b, c, p, m, n)
    } else {
        0
    }
}

/// A piece's mobility index lands inside its kind's table run.
proof fn lemma_mob_index_bounds(b: Board, c: Color, p: Piece, sq: u64)
    ensures
        0 <= mob_index_spec(b, c, p, sq) < mob_cap(piece_index(p)),
{
    reveal(mob_count_spec);
    let ours = b.spec_colors(c);
    let theirs = b.spec_colors(c.other());
    let occ = b.spec_occupied();
    let white = (c == Color::White);
    match p {
        Piece::Pawn => lemma_count_sat_bounds(
            |t: u64|
                pawn_quiet_spec(white, sq, occ, t) || (pawn_attack_spec(white, sq, t) && bit64(
                    theirs,
                    t,
                )),
            64,
        ),
        Piece::Knight => lemma_count_sat_bounds(
            |t: u64| knight_attack_spec(sq, t) && !bit64(ours, t),
            64,
        ),
        Piece::Bishop => lemma_count_sat_bounds(
            |t: u64| bishop_attack_spec(sq, occ, t) && !bit64(ours, t),
            64,
        ),
        Piece::Rook => lemma_count_sat_bounds(
            |t: u64| rook_attack_spec(sq, occ, t) && !bit64(ours, t),
            64,
        ),
        Piece::Queen => lemma_count_sat_bounds(
            |t: u64|
                (bishop_attack_spec(sq, occ, t) || rook_attack_spec(sq, occ, t)) && !bit64(
                    ours,
                    t,
                ),
            64,
        ),
        Piece::King => lemma_count_sat_bounds(
            |t: u64| king_attack_spec(sq, t) && !bit64(ours, t),
            64,
        ),
    }
}

/// The mobility trace relation while a pass is underway.
#[verifier::opaque]
pub open spec fn mob_partial(
    t0: EvalTrace,
    t1: EvalTrace,
    b: Board,
    c: Color,
    pi: int,
    n: int,
) -> bool {
    &&& t1.mobility@.len() == t0.mobility@.len()
    &&& forall|p: int, m: int|
        0 <= p < 6 && 0 <= m < mob_cap(p) ==> t1.mobility@[mob_flat(p, m)] as int == wrap16(
            t0.mobility@[mob_flat(p, m)] + c.sign() * mob_count_upto(b, c, p, m, pi, n),
        )
    &&& t1.piece_tables@ == t0.piece_tables@
    &&& t1.virtual_queen_mobility@ == t0.virtual_queen_mobility@
    &&& t1.passed_pawns@ == t0.passed_pawns@
    &&& t1.bishop_pair == t0.bishop_pair
    &&& t1.rook_on_open_file == t0.rook_on_open_file
    &&& t1.rook_on_semiopen_file == t0.rook_on_semiopen_file
}

/// How one color pass rewrites the mobility trace: each entry gains the
/// pass's sign once per piece of its kind whose clamped reach count selects
/// it; all other tables keep their contents.
#[verifier::opaque]
pub open spec fn mob_trace_rel(t0: EvalTrace, t1: EvalTrace, b: Board, c: Color) -> bool {
    &&& t1.mobility@.len() == t0.mobility@.len()
    &&& forall|p: int, m: int|
        0 <= p < 6 && 0 <= m < mob_cap(p) ==> t1.mobility@[mob_flat(p, m)] as int == wrap16(
            t0.mobility@[mob_flat(p, m)] + c.sign() * mob_slot_count(b, c, p, m, 64),
        )
    &&& t1.piece_tables@ == t0.piece_tables@
    &&& t1.virtual_queen_mobility@ == t0.virtual_queen_mobility@
    &&& t1.passed_pawns@ == t0.passed_pawns@
    &&& t1.bishop_pair == t0.bishop_pair
    &&& t1.rook_on_open_file == t0.rook_on_open_file
    &&& t1.rook_on_semiopen_file == t0.rook_on_semiopen_file
}

proof fn lemma_mob_partial_init(t0: EvalTrace, b: Board, c: Color)
    requires
        t0.wf(),
    ensures
        mob_partial(t0, t0, b, c, 0, 0),
{
    reveal(mob_partial);
}

proof fn lemma_mob_partial_roll(t0: EvalTrace, t1: EvalTrace, b: Board, c: Color, pi: int)
    requires
        mob_partial(t0, t1, b, c, pi, 64),
    ensures
        mob_partial(t0, t1, b, c, pi + 1, 0),
{
    reveal(mob_partial);
}

proof fn lemma_mob_partial_done(t0: EvalTrace, t1: EvalTrace, b: Board, c: Color)
    requires
        t0.wf(),
        mob_partial(t0, t1, b, c, 6, 0),
    ensures
        t1.wf(),
        mob_trace_rel(t0, t1, b, c),
{
    reveal(mob_partial);
    reveal(mob_trace_rel);
}

/// Distinct mobility slots occupy distinct flat indices.
proof fn lemma_mob_index_inj(p1: int, m1: int, p2: int, m2: int)
    requires
        0 <= p1 < 6,
        0 <= m1 < mob_cap(p1),
        0 <= p2 < 6,
        0 <= m2 < mob_cap(p2),
        mob_offset(p1) + m1 == mob_offset(p2) + m2,
    ensures
        p1 == p2 && m1 == m2,
{
}

#[verifier::rlimit(100)]
#[verifier::spinoff_prover]
proof fn lemma_mob_partial_step(
    t0: EvalTrace,
    pre: EvalTrace,
    post: EvalTrace,
    b: Board,
    c: Color,
    pi: int,
    n: int,
)
    requires
        t0.wf(),
        0 <= pi < 6,
        0 <= n < 64,
        mob_partial(t0, pre, b, c, pi, n),
        if has_at(b, c, crate::board::piece_of(pi), n) {
            post.mobility@ == pre.mobility@.update(
                mob_offset(pi) + mob_index_spec(b, c, crate::board::piece_of(pi), n as u64),
                crate::phased::crop_i16(
                    pre.mobility@[mob_offset(pi) + mob_index_spec(
                        b,
                        c,
                        crate::board::piece_of(pi),
                        n as u64,
                    )] + c.sign(),
                ),
            )
        } else {
            post.mobility@ == pre.mobility@
        },
        post.piece_tables@ == pre.piece_tables@,
        post.virtual_queen_mobility@ == pre.virtual_queen_mobility@,
        post.passed_pawns@ == pre.passed_pawns@,
        post.bishop_pair == pre.bishop_pair,
        post.rook_on_open_file == pre.rook_on_open_file,
        post.rook_on_semiopen_file == pre.rook_on_semiopen_file,
    ensures
        mob_partial(t0, post, b, c, pi, n + 1),
{
    reveal(mob_partial);
    let hit = has_at(b, c, crate::board::piece_of(pi), n);
    let mi = mob_index_spec(b, c, crate::board::piece_of(pi), n as u64);
    lemma_mob_index_bounds(b, c, crate::board::piece_of(pi), n as u64);
    assert(0 <= mi < mob_cap(pi));
    assert forall|p: int, m: int| 0 <= p < 6 && 0 <= m < mob_cap(p) implies post.mobility@[
    mob_flat(p, m)] as int == wrap16(
        t0.mobility@[mob_flat(p, m)] + c.sign() * mob_count_upto(b, c, p, m, pi, n + 1),
    ) by {
        if p == pi && m == mi && hit {
            lemma_wrap16_add(t0.mobility@[mob_flat(p, m)] as int, c.sign());
        } else {
            if hit && mob_flat(p, m) == mob_flat(pi, mi) {
                lemma_mob_index_inj(p, m, pi, mi);
            }
        }
    }
}

/// Record one mobility lookup into the trace.
#[verifier::rlimit(60)]
fn mob_trace_step(
    tr: &mut EvalTrace,
    Ghost(t0): Ghost<EvalTrace>,
    Ghost(b): Ghost<Board>,
    Ghost(c): Ghost<Color>,
    pi: usize,
    n: usize,
    m: usize,
    sign: i16,
    hit: bool,
)
    requires
        t0.wf(),
        pi < 6,
        n < 64,
        sign as int == c.sign(),
        hit == has_at(b, c, crate::board::piece_of(pi as int), n as int),
        hit ==> m == mob_index_spec(b, c, crate::board::piece_of(pi as int), n as u64),
        hit ==> m < mob_cap(pi as int),
        old(tr).mobility@.len() == mob_len(),
        mob_partial(t0, *old(tr), b, c, pi as int, n as int),
    ensures
        final(tr).mobility@.len() == mob_len(),
        mob_partial(t0, *final(tr), b, c, pi as int, n as int + 1),
{
    let ghost pre = *tr;
    if hit {
        let off = mob_offset_of(piece_from_index(pi));
        let idx: usize = off + m;
        assert(idx < 80);
        let cur: i16 = tr.mobility[idx];
        tr.mobility.set(idx, cur.wrapping_add(sign));
    }
    proof {
        lemma_mob_partial_step(t0, pre, *tr, b, c, pi as int, n as int);
    }
}

/// The clamped mobility table index of `c`'s piece of kind `p` on `sq`.
#[verifier::rlimit(60)]
pub fn mobility_index(b: &Board, c: Color, p: Piece, sq: u8) -> (m: usize)
    requires
        sq < 64,
    ensures
        m == mob_index_spec(*b, c, p, sq as u64),
        m < mob_cap(piece_index(p)),
{
    proof {
        reveal(mob_count_spec);
    }
    let ours: u64 = b.colors(c);
    let theirs: u64 = b.colors(c.flip());
    let occ: u64 = b.occupied();
    let white = match c {
        Color::White => true,
        Color::Black => false,
    };
    let cnt: u32 = match p {
        Piece::Pawn => {
            let qs: u64 = pawn_quiets(white, sq, occ);
            let att: u64 = pawn_attacks(white, sq);
            let mask: u64 = qs | (att & theirs);
            proof {
                let f = |t: u64|
                    pawn_quiet_spec(white, sq as u64, occ, t) || (pawn_attack_spec(
                        white,
                        sq as u64,
                        t,
                    ) && bit64(theirs, t));
                assert forall|j: u64| j < 64 implies bit64(mask, j) == f(j) by {
                    lemma_bit_or(qs, att & theirs, j);
                    lemma_bit_and(att, theirs, j);
                }
                lemma_popcnt_matches(mask, f, 64);
            }
            count_bits(mask)
        },
        Piece::Knight => {
            let att: u64 = knight_attacks(sq);
            let mask: u64 = att & !ours;
            proof {
                let f = |t: u64| knight_attack_spec(sq as u64, t) && !bit64(ours, t);
                assert forall|j: u64| j < 64 implies bit64(mask, j) == f(j) by {
                    lemma_bit_and(att, !ours, j);
                    lemma_bit_not(ours, j);
                }
                lemma_popcnt_matches(mask, f, 64);
            }
            count_bits(mask)
        },
        Piece::Bishop => {
            let att: u64 = bishop_attacks(sq, occ);
            let mask: u64 = att & !ours;
            proof {
                let f = |t: u64| bishop_attack_spec(sq as u64, occ, t) && !bit64(ours, t);
                assert forall|j: u64| j < 64 implies bit64(mask, j) == f(j) by {
                    lemma_bit_and(att, !ours, j);
                    lemma_bit_not(ours, j);
                }
                lemma_popcnt_matches(mask, f, 64);
            }
            count_bits(mask)
        },
        Piece::Rook => {
            let att: u64 = rook_attacks(sq, occ);
            let mask: u64 = att & !ours;
            proof {
                let f = |t: u64| rook_attack_spec(sq as u64, occ, t) && !bit64(ours, t);
                assert forall|j: u64| j < 64 implies bit64(mask, j) == f(j) by {
                    lemma_bit_and(att, !ours, j);
                    lemma_bit_not(ours, j);
                }
                lemma_popcnt_matches(mask, f, 64);
            }
            count_bits(mask)
        },
        Piece::Queen => {
            let ba: u64 = bishop_attacks(sq, occ);
            let ra: u64 = rook_attacks(sq, occ);
            let mask: u64 = (ba | ra) & !ours;
            proof {
                let f = |t: u64|
                    (bishop_attack_spec(sq as u64, occ, t) || rook_attack_spec(
                        sq as u64,
                        occ,
                        t,
                    )) && !bit64(ours, t);
                assert forall|j: u64| j < 64 implies bit64(mask, j) == f(j) by {
                    lemma_bit_and(ba | ra, !ours, j);
                    lemma_bit_or(ba, ra, j);
                    lemma_bit_not(ours, j);
                }
                lemma_popcnt_matches(mask, f, 64);
            }
            count_bits(mask)
        },
        Piece::King => {
            let att: u64 = king_attacks(sq);
            let mask: u64 = att & !ours;
            proof {
                let f = |t: u64| king_attack_spec(sq as u64, t) && !bit64(ours, t);
                assert forall|j: u64| j < 64 implies bit64(mask, j) == f(j) by {
                    lemma_bit_and(att, !ours, j);
                    lemma_bit_not(ours, j);
                }
                lemma_popcnt_matches(mask, f, 64);
            }
            count_bits(mask)
        },
    };
    let cap: usize = mob_cap_of(p);
    if cnt as usize >= cap {
        cap - 1
    } else {
        cnt as usize
    }
}

/// One color's mobility pass.
#[verifier::rlimit(100)]
pub fn mobility_terms(b: &Board, w: &EvalWeights, c: Color, tracing: bool, tr: &mut EvalTrace) -> (
    r: PhasedEval)
    requires
        b.wf(),
        w.wf(),
        tracing ==> old(tr).wf(),
    ensures
        r.mg as int == wrap16(mob_total(*b, c, *w).mg),
        r.eg as int == wrap16(mob_total(*b, c, *w).eg),
        !tracing ==> *final(tr) == *old(tr),
        tracing ==> final(tr).wf() && mob_trace_rel(*old(tr), *final(tr), *b, c),
{
    let ours: u64 = b.colors(c);
    let sign: i16 = match c {
        Color::White => 1,
        Color::Black => -1,
    };
    let mut acc = PhasedEval::zero();
    proof {
        if tracing {
            lemma_mob_partial_init(*old(tr), *b, c);
        }
    }
    for pi in 0..6usize
        invariant
            w.mobility@.len() == mob_len(),
            ours == b.spec_colors(c),
            sign as int == c.sign(),
            acc.mg as int == wrap16(mob_piece_sum(*b, c, *w, pi as int).mg),
            acc.eg as int == wrap16(mob_piece_sum(*b, c, *w, pi as int).eg),
            !tracing ==> *tr == *old(tr),
            tracing ==> old(tr).wf() && tr.mobility@.len() == mob_len() && mob_partial(
                *old(tr),
                *tr,
                *b,
                c,
                pi as int,
                0,
            ),
    {
        let p = piece_from_index(pi);
        let cp: u64 = ours & b.pieces(p);
        for n in 0..64usize
            invariant
                w.mobility@.len() == mob_len(),
                ours == b.spec_colors(c),
                sign as int == c.sign(),
                pi < 6,
                p == crate::board::piece_of(pi as int),
                cp == b.spec_colors(c) & b.spec_pieces(p),
                acc.mg as int == wrap16(
                    sadd(
                        mob_piece_sum(*b, c, *w, pi as int),
                        mob_sq_sum(*b, c, *w, p, n as int),
                    ).mg,
                ),
                acc.eg as int == wrap16(
                    sadd(
                        mob_piece_sum(*b, c, *w, pi as int),
                        mob_sq_sum(*b, c, *w, p, n as int),
                    ).eg,
                ),
                !tracing ==> *tr == *old(tr),
                tracing ==> old(tr).wf() && tr.mobility@.len() == mob_len() && mob_partial(
                    *old(tr),
                    *tr,
                    *b,
                    c,
                    pi as int,
                    n as int,
                ),
        {
            let hit = (cp >> (n as u64)) & 1u64 == 1u64;
            let ghost sum_pre = sadd(
                mob_piece_sum(*b, c, *w, pi as int),
                mob_sq_sum(*b, c, *w, p, n as int),
            );
            let m: usize = if hit {
                mobility_index(b, c, p, n as u8)
            } else {
                0
            };
            if tracing {
                mob_trace_step(tr, Ghost(*old(tr)), Ghost(*b), Ghost(c), pi, n, m, sign, hit);
            }
            if hit {
                let off = mob_offset_of(p);
                let idx: usize = off + m;
                assert(idx < 80);
                let cell: PhasedEval = w.mobility[idx];
                proof {
                    lemma_wrap16_add(sum_pre.mg, cell.mg as int);
                    lemma_wrap16_add(sum_pre.eg, cell.eg as int);
                }
                acc = acc.padd(cell);
            }
        }
        proof {
            if tracing {
                lemma_mob_partial_roll(*old(tr), *tr, *b, c, pi as int);
            }
        }
    }
    proof {
        if tracing {
            lemma_mob_partial_done(*old(tr), *tr, *b, c);
        }
    }
    acc
}

// ----- virtual queen mobility -----

/// The virtual-queen-mobility entry `c` indexes: how many moves a queen
/// standing on `c`'s king square would have, clamped to the table.
pub open spec fn vqm_index_spec(b: Board, c: Color) -> int {
    let ours = b.spec_colors(c);
    let occ = b.spec_occupied();
    let ksq = b.spec_king(c) as u64;
    let cnt = count_sat(
        |t: u64|
            (bishop_attack_spec(ksq, occ, t) || rook_attack_spec(ksq, occ, t)) && !bit64(ours, t),
        64,
    );
    if cnt >= 28 {
        27
    } else {
        cnt
    }
}

/// `c`'s virtual-queen-mobility term.
pub open spec fn vqm_total(b: Board, c: Color, w: EvalWeights) -> SPair {
    wcell(w.virtual_queen_mobility@[vqm_index_spec(b, c)])
}

/// How one color pass rewrites the virtual-queen-mobility trace.
#[verifier::opaque]
pub open spec fn vqm_trace_rel(t0: EvalTrace, t1: EvalTrace, b: Board, c: Color) -> bool {
    &&& t1.virtual_queen_mobility@.len() == t0.virtual_queen_mobility@.len()
    &&& forall|m: int|
        0 <= m < vqm_len() ==> t1.virtual_queen_mobility@[m] as int == wrap16(
            t0.virtual_queen_mobility@[m] + c.sign() * (if m == vqm_index_spec(b, c) {
                1int
            } else {
                0int
            }),
        )
    &&& t1.piece_tables@ == t0.piece_tables@
    &&& t1.mobility@ == t0.mobility@
    &&& t1.passed_pawns@ == t0.passed_pawns@
    &&& t1.bishop_pair == t0.bishop_pair
    &&& t1.rook_on_open_file == t0.rook_on_open_file
    &&& t1.rook_on_semiopen_file == t0.rook_on_semiopen_file
}

/// One color's virtual-queen-mobility lookup.
#[verifier::rlimit(60)]
pub fn virtual_queen_mobility(
    b: &Board,
    w: &EvalWeights,
    c: Color,
    tracing: bool,
    tr: &mut EvalTrace,
) -> (r: PhasedEval)
    requires
        b.wf(),
        w.wf(),
        tracing ==> old(tr).wf(),
    ensures
        r.mg as int == wrap16(vqm_total(*b, c, *w).mg),
        r.eg as int == wrap16(vqm_total(*b, c, *w).eg),
        !tracing ==> *final(tr) == *old(tr),
        tracing ==> final(tr).wf() && vqm_trace_rel(*old(tr), *final(tr), *b, c),
{
    proof {
        reveal(vqm_trace_rel);
    }
    let ours: u64 = b.colors(c);
    let occ: u64 = b.occupied();
    let ksq: u8 = b.king(c);
    let sign: i16 = match c {
        Color::White => 1,
        Color::Black => -1,
    };
    let ba: u64 = bishop_attacks(ksq, occ);
    let ra: u64 = rook_attacks(ksq, occ);
    let mask: u64 = (ba | ra) & !ours;
    proof {
        let f = |t: u64|
            (bishop_attack_spec(ksq as u64, occ, t) || rook_attack_spec(ksq as u64, occ, t))
                && !bit64(ours, t);
        assert forall|j: u64| j < 64 implies bit64(mask, j) == f(j) by {
            lemma_bit_and(ba | ra, !ours, j);
            lemma_bit_or(ba, ra, j);
            lemma_bit_not(ours, j);
        }
        lemma_popcnt_matches(mask, f, 64);
    }
    let cnt: u32 = count_bits(mask);
    let m: usize = if cnt >= 28 {
        27
    } else {
        cnt as usize
    };
    assert(m == vqm_index_spec(*b, c));
    if tracing {
        let cur: i16 = tr.virtual_queen_mobility[m];
        tr.virtual_queen_mobility.set(m, cur.wrapping_add(sign));
    }
    w.virtual_queen_mobility[m]
}

// ----- passed pawns -----

/// A pawn of color `c` on board square `s` is passed: no enemy pawn sits
/// on its blocker mask and no own pawn on its forward span.
pub open spec fn passed_spec(b: Board, c: Color, s: u64) -> bool {
    let white = (c == Color::White);
    let ours = b.spec_colors(c) & b.pawns;
    let theirs = b.spec_colors(c.other()) & b.pawns;
    &&& forall|t: u64| !(bit64(theirs, t) && blocker_spec(white, s, t))
    &&& forall|t: u64| !(bit64(ours, t) && forward_span_spec(white, s, t))
}

/// Whether slot `(kb, sq0)` of the passed-pawn trace receives a count
/// during `c`'s pass.
pub open spec fn passed_ind(b: Board, c: Color, kb: int, sq0: int) -> int {
    if kb == kb_of(b, c) && has_at(b, c, Piece::Pawn, orient(c, sq0)) && passed_spec(
        b,
        c,
        orient(c, sq0) as u64,
    ) {
        1
    } else {
        0
    }
}

/// Sum of `c`'s passed-pawn weights over table slots below `n`.
pub open spec fn passed_sq_sum(b: Board, c: Color, w: EvalWeights, n: int) -> SPair
    decreases n,
{
    if n <= 0 {
        szero()
    } else {
        sadd(
            passed_sq_sum(b, c, w, n - 1),
            if has_at(b, c, Piece::Pawn, orient(c, n - 1)) && passed_spec(
                b,
                c,
                orient(c, n - 1) as u64,
            ) {
                wcell(w.passed_pawns@[passed_index(kb_of(b, c), n - 1)])
            } else {
                szero()
            },
        )
    }
}

/// `c`'s whole passed-pawn term.
pub open spec fn passed_total(b: Board, c: Color, w: EvalWeights) -> SPair {
    passed_sq_sum(b, c, w, 64)
}

/// `passed_ind`, restricted to the slot squares a pass has reached.
pub open spec fn passed_ind_upto(b: Board, c: Color, kb: int, sq0: int, n: int) -> int {
    if sq0 < n {
        passed_ind(b, c, kb, sq0)
    } else {
        0
    }
}

/// How one color pass rewrites the passed-pawn trace.
#[verifier::opaque]
pub open spec fn passed_trace_rel(t0: EvalTrace, t1: EvalTrace, b: Board, c: Color) -> bool {
    &&& t1.passed_pawns@.len() == t0.passed_pawns@.len()
    &&& forall|kb: int, sq0: int|
        0 <= kb < king_buckets() && 0 <= sq0 < 64 ==> t1.passed_pawns@[passed_index(kb, sq0)] as int
            == wrap16(t0.passed_pawns@[passed_index(kb, sq0)] + c.sign() * passed_ind(b, c, kb, sq0))
    &&& t1.piece_tables@ == t0.piece_tables@
    &&& t1.mobility@ == t0.mobility@
    &&& t1.virtual_queen_mobility@ == t0.virtual_queen_mobility@
    &&& t1.bishop_pair == t0.bishop_pair
    &&& t1.rook_on_open_file == t0.rook_on_open_file
    &&& t1.rook_on_semiopen_file == t0.rook_on_semiopen_file
}

/// The passed-pawn trace relation while a pass is underway.
#[verifier::opaque]
pub open spec fn passed_partial(t0: EvalTrace, t1: EvalTrace, b: Board, c: Color, n: int) -> bool {
    &&& t1.passed_pawns@.len() == t0.passed_pawns@.len()
    &&& forall|kb: int, sq0: int|
        0 <= kb < king_buckets() && 0 <= sq0 < 64 ==> t1.passed_pawns@[passed_index(kb, sq0)] as int
            == wrap16(
            t0.passed_pawns@[passed_index(kb, sq0)] + c.sign() * passed_ind_upto(b, c, kb, sq0, n),
        )
    &&& t1.piece_tables@ == t0.piece_tables@
    &&& t1.mobility@ == t0.mobility@
    &&& t1.virtual_queen_mobility@ == t0.virtual_queen_mobility@
    &&& t1.bishop_pair == t0.bishop_pair
    &&& t1.rook_on_open_file == t0.rook_on_open_file
    &&& t1.rook_on_semiopen_file == t0.rook_on_semiopen_file
}

proof fn lemma_passed_partial_init(t0: EvalTrace, b: Board, c: Color)
    requires
        t0.wf(),
    ensures
        passed_partial(t0, t0, b, c, 0),
{
    reveal(passed_partial);
}

proof fn lemma_passed_partial_done(t0: EvalTrace, t1: EvalTrace, b: Board, c: Color)
    requires
        t0.wf(),
        passed_partial(t0, t1, b, c, 64),
    ensures
        t1.wf(),
        passed_trace_rel(t0, t1, b, c),
{
    reveal(passed_partial);
    reveal(passed_trace_rel);
}

proof fn lemma_passed_partial_step(
    t0: EvalTrace,
    pre: EvalTrace,
    post: EvalTrace,
    b: Board,
    c: Color,
    n: int,
    kbc: int,
)
    requires
        t0.wf(),
        0 <= n < 64,
        kbc == kb_of(b, c),
        0 <= kbc < king_buckets(),
        passed_partial(t0, pre, b, c, n),
        if has_at(b, c, Piece::Pawn, orient(c, n)) && passed_spec(b, c, orient(c, n) as u64) {
            post.passed_pawns@ == pre.passed_pawns@.update(
                passed_index(kbc, n),
                crate::phased::crop_i16(pre.passed_pawns@[passed_index(kbc, n)] + c.sign()),
            )
        } else {
            post.passed_pawns@ == pre.passed_pawns@
        },
        post.piece_tables@ == pre.piece_tables@,
        post.mobility@ == pre.mobility@,
        post.virtual_queen_mobility@ == pre.virtual_queen_mobility@,
        post.bishop_pair == pre.bishop_pair,
        post.rook_on_open_file == pre.rook_on_open_file,
        post.rook_on_semiopen_file == pre.rook_on_semiopen_file,
    ensures
        passed_partial(t0, post, b, c, n + 1),
{
    reveal(passed_partial);
    assert forall|kb: int, sq0: int|
        0 <= kb < king_buckets() && 0 <= sq0 < 64 implies post.passed_pawns@[passed_index(
        kb,
        sq0,
    )] as int == wrap16(
        t0.passed_pawns@[passed_index(kb, sq0)] + c.sign() * passed_ind_upto(b, c, kb, sq0, n + 1),
    ) by {
        let hit = has_at(b, c, Piece::Pawn, orient(c, n)) && passed_spec(b, c, orient(c, n) as u64);
        if kb == kbc && sq0 == n && hit {
            lemma_wrap16_add(t0.passed_pawns@[passed_index(kb, sq0)] as int, c.sign());
        } else {
            assert(passed_index(kb, sq0) != passed_index(kbc, n) || !hit);
        }
    }
}

/// Record one passed-pawn decision into the trace.
#[verifier::rlimit(60)]
fn passed_trace_step(
    tr: &mut EvalTrace,
    Ghost(t0): Ghost<EvalTrace>,
    Ghost(b): Ghost<Board>,
    Ghost(c): Ghost<Color>,
    n: usize,
    kb: usize,
    sign: i16,
    hit: bool,
)
    requires
        t0.wf(),
        n < 64,
        kb == kb_of(b, c),
        kb < 4,
        sign as int == c.sign(),
        hit == (has_at(b, c, Piece::Pawn, orient(c, n as int)) && passed_spec(
            b,
            c,
            orient(c, n as int) as u64,
        )),
        old(tr).passed_pawns@.len() == passed_len(),
        passed_partial(t0, *old(tr), b, c, n as int),
    ensures
        final(tr).passed_pawns@.len() == passed_len(),
        passed_partial(t0, *final(tr), b, c, n as int + 1),
{
    let ghost pre = *tr;
    if hit {
        let idx: usize = kb * 64 + n;
        assert(idx == passed_index(kb as int, n as int));
        let cur: i16 = tr.passed_pawns[idx];
        tr.passed_pawns.set(idx, cur.wrapping_add(sign));
    }
    proof {
        lemma_passed_partial_step(t0, pre, *tr, b, c, n as int, kb as int);
    }
}

/// Decide whether `c`'s pawn on `s` is passed.
#[verifier::rlimit(60)]
pub fn is_passed(b: &Board, c: Color, s: u8) -> (r: bool)
    requires
        s < 64,
    ensures
        r == passed_spec(*b, c, s as u64),
{
    let white = match c {
        Color::White => true,
        Color::Black => false,
    };
    let ours_p: u64 = b.colors(c) & b.pawns;
    let theirs_p: u64 = b.colors(c.flip()) & b.pawns;
    let bm: u64 = blocker_mask(white, s);
    let fs: u64 = forward_span(white, s);
    let clear_ahead = (theirs_p & bm) == 0;
    let clear_own = (ours_p & fs) == 0;
    proof {
        lemma_empty_and(theirs_p, bm);
        lemma_empty_and(ours_p, fs);
        if clear_ahead {
            assert(forall|t: u64| !(bit64(theirs_p, t) && blocker_spec(white, s as u64, t)));
        } else {
            let t = choose|t: u64| bit64(theirs_p, t) && bit64(bm, t);
            assert(bit64(theirs_p, t) && blocker_spec(white, s as u64, t));
        }
        if clear_own {
            assert(forall|t: u64| !(bit64(ours_p, t) && forward_span_spec(white, s as u64, t)));
        } else {
            let t = choose|t: u64| bit64(ours_p, t) && bit64(fs, t);
            assert(bit64(ours_p, t) && forward_span_spec(white, s as u64, t));
        }
    }
    clear_ahead && clear_own
}

/// One color's passed-pawn pass.
#[verifier::rlimit(100)]
pub fn passed_pawn_terms(b: &Board, w: &EvalWeights, c: Color, tracing: bool, tr: &mut EvalTrace)
    -> (r: PhasedEval)
    requires
        b.wf(),
        w.wf(),
        tracing ==> old(tr).wf(),
    ensures
        r.mg as int == wrap16(passed_total(*b, c, *w).mg),
        r.eg as int == wrap16(passed_total(*b, c, *w).eg),
        !tracing ==> *final(tr) == *old(tr),
        tracing ==> final(tr).wf() && passed_trace_rel(*old(tr), *final(tr), *b, c),
{
    let ours: u64 = b.colors(c);
    let pawns_ours: u64 = ours & b.pawns;
    let ksq: u8 = b.king(c);
    let kb: usize = ((ksq % 8) / 2) as usize;
    let sign: i16 = match c {
        Color::White => 1,
        Color::Black => -1,
    };
    let mut acc = PhasedEval::zero();
    proof {
        if tracing {
            lemma_passed_partial_init(*old(tr), *b, c);
        }
    }
    for n in 0..64usize
        invariant
            w.passed_pawns@.len() == passed_len(),
            ours == b.spec_colors(c),
            pawns_ours == b.spec_colors(c) & b.pawns,
            kb == kb_of(*b, c),
            kb < 4,
            sign as int == c.sign(),
            acc.mg as int == wrap16(passed_sq_sum(*b, c, *w, n as int).mg),
            acc.eg as int == wrap16(passed_sq_sum(*b, c, *w, n as int).eg),
            !tracing ==> *tr == *old(tr),
            tracing ==> old(tr).wf() && tr.passed_pawns@.len() == passed_len() && passed_partial(
                *old(tr),
                *tr,
                *b,
                c,
                n as int,
            ),
    {
        let bsq: u8 = match c {
            Color::White => n as u8,
            Color::Black => {
                let rk: u8 = (n as u8) / 8;
                let fl: u8 = (n as u8) % 8;
                (7 - rk) * 8 + fl
            },
        };
        assert(bsq as int == orient(c, n as int));
        assert(bsq < 64);
        let ghost sum_pre = passed_sq_sum(*b, c, *w, n as int);
        let here = (pawns_ours >> bsq) & 1u64 == 1u64;
        let hit = if here {
            is_passed(b, c, bsq)
        } else {
            false
        };
        assert(here == has_at(*b, c, Piece::Pawn, orient(c, n as int)));
        if tracing {
            passed_trace_step(tr, Ghost(*old(tr)), Ghost(*b), Ghost(c), n, kb, sign, hit);
        }
        if hit {
            let idx: usize = kb * 64 + n;
            assert(idx == passed_index(kb as int, n as int));
            let cell: PhasedEval = w.passed_pawns[idx];
            proof {
                lemma_wrap16_add(sum_pre.mg, cell.mg as int);
                lemma_wrap16_add(sum_pre.eg, cell.eg as int);
            }
            acc = acc.padd(cell);
        }
    }
    proof {
        if tracing {
            lemma_passed_partial_done(*old(tr), *tr, *b, c);
        }
    }
    acc
}

// ----- rook files -----

/// No pawn of either color stands on file `f`.
#[verifier::opaque]
pub open spec fn open_file_at(b: Board, f: int) -> bool {
    forall|t: u64| !(bit64(b.pawns, t) && file_spec(f, t))
}

/// No pawn of color `c` stands on file `f`.
#[verifier::opaque]
pub open spec fn semiopen_for(b: Board, c: Color, f: int) -> bool {
    forall|t: u64| !(bit64(b.spec_colors(c) & b.pawns, t) && file_spec(f, t))
}

/// Sum of `c`'s rook-file weights over board squares below `n`.
pub open spec fn rook_sq_sum(b: Board, c: Color, w: EvalWeights, n: int) -> SPair
    decreases n,
{
    if n <= 0 {
        szero()
    } else {
        sadd(
            rook_sq_sum(b, c, w, n - 1),
            if has_at(b, c, Piece::Rook, n - 1) {
                if open_file_at(b, file_of(n - 1)) {
                    wcell(w.rook_on_open_file)
                } else if semiopen_for(b, c, file_of(n - 1)) {
                    wcell(w.rook_on_semiopen_file)
                } else {
                    szero()
                }
            } else {
                szero()
            },
        )
    }
}

/// `c`'s whole rook-file term.
pub open spec fn rook_total(b: Board, c: Color, w: EvalWeights) -> SPair {
    rook_sq_sum(b, c, w, 64)
}

/// How many of `c`'s rooks on board squares below `n` stand on open files.
pub open spec fn rook_open_count(b: Board, c: Color, n: int) -> int
    decreases n,
{
    if n <= 0 {
        0
    } else {
        rook_open_count(b, c, n - 1) + if has_at(b, c, Piece::Rook, n - 1) && open_file_at(
            b,
            file_of(n - 1),
        ) {
            1int
        } else {
            0int
        }
    }
}

/// How many of `c`'s rooks on board squares below `n` stand on semi-open
/// files.
pub open spec fn rook_semi_count(b: Board, c: Color, n: int) -> int
    decreases n,
{
    if n <= 0 {
        0
    } else {
        rook_semi_count(b, c, n - 1) + if has_at(b, c, Piece::Rook, n - 1) && !open_file_at(
            b,
            file_of(n - 1),
        ) && semiopen_for(b, c, file_of(n - 1)) {
            1int
        } else {
            0int
        }
    }
}

/// How one color pass rewrites the two rook-file trace counters.
#[verifier::opaque]
pub open spec fn rook_trace_rel(t0: EvalTrace, t1: EvalTrace, b: Board, c: Color) -> bool {
    &&& t1.rook_on_open_file as int == wrap16(
        t0.rook_on_open_file + c.sign() * rook_open_count(b, c, 64),
    )
    &&& t1.rook_on_semiopen_file as int == wrap16(
        t0.rook_on_semiopen_file + c.sign() * rook_semi_count(b, c, 64),
    )
    &&& t1.piece_tables@ == t0.piece_tables@
    &&& t1.mobility@ == t0.mobility@
    &&& t1.virtual_queen_mobility@ == t0.virtual_queen_mobility@
    &&& t1.passed_pawns@ == t0.passed_pawns@
    &&& t1.bishop_pair == t0.bishop_pair
}

/// The rook-file trace relation while a pass is underway.
#[verifier::opaque]
pub open spec fn rook_partial(t0: EvalTrace, t1: EvalTrace, b: Board, c: Color, n: int) -> bool {
    &&& t1.rook_on_open_file as int == wrap16(
        t0.rook_on_open_file + c.sign() * rook_open_count(b, c, n),
    )
    &&& t1.rook_on_semiopen_file as int == wrap16(
        t0.rook_on_semiopen_file + c.sign() * rook_semi_count(b, c, n),
    )
    &&& t1.piece_tables@ == t0.piece_tables@
    &&& t1.mobility@ == t0.mobility@
    &&& t1.virtual_queen_mobility@ == t0.virtual_queen_mobility@
    &&& t1.passed_pawns@ == t0.passed_pawns@
    &&& t1.bishop_pair == t0.bishop_pair
}

proof fn lemma_rook_partial_init(t0: EvalTrace, b: Board, c: Color)
    ensures
        rook_partial(t0, t0, b, c, 0),
{
    reveal(rook_partial);
}

proof fn lemma_rook_partial_done(t0: EvalTrace, t1: EvalTrace, b: Board, c: Color)
    requires
        t0.wf(),
        rook_partial(t0, t1, b, c, 64),
    ensures
        t1.wf(),
        rook_trace_rel(t0, t1, b, c),
{
    reveal(rook_partial);
    reveal(rook_trace_rel);
}

/// Record one rook's file state into the trace.
#[verifier::rlimit(60)]
fn rook_trace_step(
    tr: &mut EvalTrace,
    Ghost(t0): Ghost<EvalTrace>,
    Ghost(b): Ghost<Board>,
    Ghost(c): Ghost<Color>,
    n: usize,
    sign: i16,
    open_hit: bool,
    semi_hit: bool,
)
    requires
        n < 64,
        sign as int == c.sign(),
        open_hit == (has_at(b, c, Piece::Rook, n as int) && open_file_at(b, file_of(n as int))),
        semi_hit == (has_at(b, c, Piece::Rook, n as int) && !open_file_at(b, file_of(n as int))
            && semiopen_for(b, c, file_of(n as int))),
        rook_partial(t0, *old(tr), b, c, n as int),
    ensures
        rook_partial(t0, *final(tr), b, c, n as int + 1),
{
    proof {
        reveal(rook_partial);
        if open_hit {
            lemma_wrap16_add(t0.rook_on_open_file + c.sign() * rook_open_count(b, c, n as int), c.sign());
        }
        if semi_hit {
            lemma_wrap16_add(
                t0.rook_on_semiopen_file + c.sign() * rook_semi_count(b, c, n as int),
                c.sign(),
            );
        }
    }
    if open_hit {
        tr.rook_on_open_file = tr.rook_on_open_file.wrapping_add(sign);
    } else if semi_hit {
        tr.rook_on_semiopen_file = tr.rook_on_semiopen_file.wrapping_add(sign);
    }
}

/// Whether the file of `sq` is open, or semi-open for `c`.
#[verifier::rlimit(60)]
pub fn rook_file_kind(b: &Board, c: Color, sq: u8) -> (r: (bool, bool))
    requires
        sq < 64,
    ensures
        r.0 == open_file_at(*b, file_of(sq as int)),
        r.1 == (!open_file_at(*b, file_of(sq as int)) && semiopen_for(*b, c, file_of(sq as int))),
{
    proof {
        reveal(open_file_at);
        reveal(semiopen_for);
    }
    let f: u8 = sq % 8;
    let fm: u64 = file_mask(f);
    let ours_p: u64 = b.colors(c) & b.pawns;
    let open_f = (b.pawns & fm) == 0;
    let semi = !open_f && (ours_p & fm) == 0;
    proof {
        lemma_empty_and(b.pawns, fm);
        lemma_empty_and(ours_p, fm);
        if (b.pawns & fm) == 0 {
            assert(forall|t: u64| !(bit64(b.pawns, t) && file_spec(f as int, t)));
        } else {
            let t = choose|t: u64| bit64(b.pawns, t) && bit64(fm, t);
            assert(bit64(b.pawns, t) && file_spec(f as int, t));
        }
        if (ours_p & fm) == 0 {
            assert(forall|t: u64| !(bit64(ours_p, t) && file_spec(f as int, t)));
        } else {
            let t = choose|t: u64| bit64(ours_p, t) && bit64(fm, t);
            assert(bit64(ours_p, t) && file_spec(f as int, t));
        }
    }
    (open_f, semi)
}

/// One color's rook-file pass: open files take precedence over semi-open.
#[verifier::rlimit(100)]
pub fn rook_on_open_file_terms(
    b: &Board,
    w: &EvalWeights,
    c: Color,
    tracing: bool,
    tr: &mut EvalTrace,
) -> (r: PhasedEval)
    requires
        b.wf(),
        w.wf(),
        tracing ==> old(tr).wf(),
    ensures
        r.mg as int == wrap16(rook_total(*b, c, *w).mg),
        r.eg as int == wrap16(rook_total(*b, c, *w).eg),
        !tracing ==> *final(tr) == *old(tr),
        tracing ==> final(tr).wf() && rook_trace_rel(*old(tr), *final(tr), *b, c),
{
    proof {
        reveal(rook_trace_rel);
    }
    proof {
        if tracing {
            lemma_rook_partial_init(*old(tr), *b, c);
        }
    }
    let ours: u64 = b.colors(c);
    let rooks_ours: u64 = ours & b.rooks;
    let sign: i16 = match c {
        Color::White => 1,
        Color::Black => -1,
    };
    let mut acc = PhasedEval::zero();
    for n in 0..64usize
        invariant
            ours == b.spec_colors(c),
            rooks_ours == b.spec_colors(c) & b.rooks,
            sign as int == c.sign(),
            acc.mg as int == wrap16(rook_sq_sum(*b, c, *w, n as int).mg),
            acc.eg as int == wrap16(rook_sq_sum(*b, c, *w, n as int).eg),
            !tracing ==> *tr == *old(tr),
            tracing ==> old(tr).wf() && rook_partial(*old(tr), *tr, *b, c, n as int),
    {
        let here = (rooks_ours >> (n as u64)) & 1u64 == 1u64;
        assert(here == has_at(*b, c, Piece::Rook, n as int));
        let ghost sum_pre = rook_sq_sum(*b, c, *w, n as int);
        let kinds = if here {
            rook_file_kind(b, c, n as u8)
        } else {
            (false, false)
        };
        let open_hit = here && kinds.0;
        let semi_hit = here && kinds.1;
        if tracing {
            rook_trace_step(tr, Ghost(*old(tr)), Ghost(*b), Ghost(c), n, sign, open_hit, semi_hit);
        }
        if open_hit {
            proof {
                lemma_wrap16_add(sum_pre.mg, w.rook_on_open_file.mg as int);
                lemma_wrap16_add(sum_pre.eg, w.rook_on_open_file.eg as int);
            }
            acc = acc.padd(w.rook_on_open_file);
        } else if semi_hit {
            proof {
                lemma_wrap16_add(sum_pre.mg, w.rook_on_semiopen_file.mg as int);
                lemma_wrap16_add(sum_pre.eg, w.rook_on_semiopen_file.eg as int);
            }
            acc = acc.padd(w.rook_on_semiopen_file);
        }
    }
    proof {
        if tracing {
            lemma_rook_partial_done(*old(tr), *tr, *b, c);
        }
    }
    acc
}

// ----- bishop pair -----

/// Whether `c` holds the bishop pair.
pub open spec fn bp_ind(b: Board, c: Color) -> int {
    if popcnt(b.spec_colors(c) & b.bishops) >= 2 {
        1
    } else {
        0
    }
}

/// `c`'s bishop-pair term.
pub open spec fn bp_total(b: Board, c: Color, w: EvalWeights) -> SPair {
    if bp_ind(b, c) == 1 {
        wcell(w.bishop_pair)
    } else {
        szero()
    }
}

/// How one color pass rewrites the bishop-pair trace counter.
#[verifier::opaque]
pub open spec fn bp_trace_rel(t0: EvalTrace, t1: EvalTrace, b: Board, c: Color) -> bool {
    &&& t1.bishop_pair as int == wrap16(t0.bishop_pair + c.sign() * bp_ind(b, c))
    &&& t1.piece_tables@ == t0.piece_tables@
    &&& t1.mobility@ == t0.mobility@
    &&& t1.virtual_queen_mobility@ == t0.virtual_queen_mobility@
    &&& t1.passed_pawns@ == t0.passed_pawns@
    &&& t1.rook_on_open_file == t0.rook_on_open_file
    &&& t1.rook_on_semiopen_file == t0.rook_on_semiopen_file
}

/// One color's bishop-pair bonus.
pub fn bishop_pair_terms(b: &Board, w: &EvalWeights, c: Color, tracing: bool, tr: &mut EvalTrace)
    -> (r: PhasedEval)
    requires
        b.wf(),
        w.wf(),
        tracing ==> old(tr).wf(),
    ensures
        r.mg as int == wrap16(bp_total(*b, c, *w).mg),
        r.eg as int == wrap16(bp_total(*b, c, *w).eg),
        !tracing ==> *final(tr) == *old(tr),
        tracing ==> final(tr).wf() && bp_trace_rel(*old(tr), *final(tr), *b, c),
{
    proof {
        reveal(bp_trace_rel);
    }
    let sign: i16 = match c {
        Color::White => 1,
        Color::Black => -1,
    };
    let pair = count_bits(b.colors(c) & b.bishops) >= 2;
    if pair {
        if tracing {
            tr.bishop_pair = tr.bishop_pair.wrapping_add(sign);
        }
        w.bishop_pair
    } else {
        PhasedEval::zero()
    }
}

// ----- the whole evaluation -----

/// One color's six term groups, summed.
pub open spec fn color_total(b: Board, c: Color, w: EvalWeights) -> SPair {
    sadd(
        sadd(
            sadd(sadd(sadd(psqt_total(b, c, w), mob_total(b, c, w)), vqm_total(b, c, w)), passed_total(b, c, w)),
            rook_total(b, c, w),
        ),
        bp_total(b, c, w),
    )
}

/// The un-interpolated score: White's terms minus Black's.
pub open spec fn raw_total(b: Board, w: EvalWeights) -> SPair {
    ssub(color_total(b, Color::White, w), color_total(b, Color::Black, w))
}

/// The handcrafted score of `b` under `w`: the wrapped term sum,
/// interpolated by the phase, signed for the side to move.
pub open spec fn eval_spec(b: Board, w: EvalWeights) -> int {
    interpolate_spec(wrap16(raw_total(b, w).mg), wrap16(raw_total(b, w).eg), phase_spec(b))
        * stm_sign(b.stm)
}

/// What a freshly recorded trace of `b` holds: each slot carries White's
/// count minus Black's count for that feature.
#[verifier::opaque]
pub open spec fn trace_of(b: Board, tr: EvalTrace) -> bool {
    &&& tr.wf()
    &&& forall|p: int, kb: int, sq0: int|
        0 <= p < 6 && 0 <= kb < king_buckets() && 0 <= sq0 < 64 ==> tr.piece_tables@[psqt_index(
            p,
            kb,
            sq0,
        )] as int == wrap16(
            psqt_ind(b, Color::White, p, kb, sq0) - psqt_ind(b, Color::Black, p, kb, sq0),
        )
    &&& forall|p: int, m: int|
        0 <= p < 6 && 0 <= m < mob_cap(p) ==> tr.mobility@[mob_flat(p, m)] as int == wrap16(
            mob_slot_count(b, Color::White, p, m, 64) - mob_slot_count(b, Color::Black, p, m, 64),
        )
    &&& forall|m: int|
        0 <= m < vqm_len() ==> tr.virtual_queen_mobility@[m] as int == wrap16(
            (if m == vqm_index_spec(b, Color::White) {
                1int
            } else {
                0int
            }) - (if m == vqm_index_spec(b, Color::Black) {
                1int
            } else {
                0int
            }),
        )
    &&& forall|kb: int, sq0: int|
        0 <= kb < king_buckets() && 0 <= sq0 < 64 ==> tr.passed_pawns@[passed_index(kb, sq0)] as int
            == wrap16(
            passed_ind(b, Color::White, kb, sq0) - passed_ind(b, Color::Black, kb, sq0),
        )
    &&& tr.rook_on_open_file as int == wrap16(
        rook_open_count(b, Color::White, 64) - rook_open_count(b, Color::Black, 64),
    )
    &&& tr.rook_on_semiopen_file as int == wrap16(
        rook_semi_count(b, Color::White, 64) - rook_semi_count(b, Color::Black, 64),
    )
    &&& tr.bishop_pair as int == wrap16(bp_ind(b, Color::White) - bp_ind(b, Color::Black))
}

/// White's then Black's piece-square pass over a zeroed trace leaves each
/// slot holding the signed count difference.
proof fn lemma_compose_psqt(t0: EvalTrace, t1: EvalTrace, t2: EvalTrace, b: Board)
    requires
        crate::terms::trace_zeroed(t0),
        psqt_trace_rel(t0, t1, b, Color::White),
        psqt_trace_rel(t1, t2, b, Color::Black),
    ensures
        forall|p: int, kb: int, sq0: int|
            0 <= p < 6 && 0 <= kb < king_buckets() && 0 <= sq0 < 64 ==> t2.piece_tables@[
            psqt_index(p, kb, sq0)] as int == wrap16(
                psqt_ind(b, Color::White, p, kb, sq0) - psqt_ind(b, Color::Black, p, kb, sq0),
            ),
        t2.piece_tables@.len() == t0.piece_tables@.len(),
{
    reveal(psqt_trace_rel);
    assert forall|p: int, kb: int, sq0: int|
        0 <= p < 6 && 0 <= kb < king_buckets() && 0 <= sq0 < 64 implies t2.piece_tables@[
    psqt_index(p, kb, sq0)] as int == wrap16(
        psqt_ind(b, Color::White, p, kb, sq0) - psqt_ind(b, Color::Black, p, kb, sq0),
    ) by {
        let j = psqt_index(p, kb, sq0);
        assert(0 <= j < psqt_len());
        lemma_wrap16_sub(
            psqt_ind(b, Color::White, p, kb, sq0),
            psqt_ind(b, Color::Black, p, kb, sq0),
        );
    }
}

/// The same composition for the mobility table.
proof fn lemma_compose_mob(t0: EvalTrace, t1: EvalTrace, t2: EvalTrace, b: Board)
    requires
        t0.mobility@.len() == mob_len(),
        forall|i: int| 0 <= i < mob_len() ==> t0.mobility@[i] == 0i16,
        mob_trace_rel(t0, t1, b, Color::White),
        mob_trace_rel(t1, t2, b, Color::Black),
    ensures
        forall|p: int, m: int|
            0 <= p < 6 && 0 <= m < mob_cap(p) ==> t2.mobility@[mob_flat(p, m)] as int == wrap16(
                mob_slot_count(b, Color::White, p, m, 64) - mob_slot_count(
                    b,
                    Color::Black,
                    p,
                    m,
                    64,
                ),
            ),
        t2.mobility@.len() == t0.mobility@.len(),
{
    reveal(mob_trace_rel);
    assert forall|p: int, m: int| 0 <= p < 6 && 0 <= m < mob_cap(p) implies t2.mobility@[mob_flat(
        p,
        m,
    )] as int == wrap16(
        mob_slot_count(b, Color::White, p, m, 64) - mob_slot_count(b, Color::Black, p, m, 64),
    ) by {
        assert(0 <= mob_flat(p, m) < mob_len());
        lemma_wrap16_sub(
            mob_slot_count(b, Color::White, p, m, 64),
            mob_slot_count(b, Color::Black, p, m, 64),
        );
    }
}

/// The same composition for the virtual-queen-mobility table.
proof fn lemma_compose_vqm(t0: EvalTrace, t1: EvalTrace, t2: EvalTrace, b: Board)
    requires
        t0.virtual_queen_mobility@.len() == vqm_len(),
        forall|i: int| 0 <= i < vqm_len() ==> t0.virtual_queen_mobility@[i] == 0i16,
        vqm_trace_rel(t0, t1, b, Color::White),
        vqm_trace_rel(t1, t2, b, Color::Black),
    ensures
        forall|m: int|
            0 <= m < vqm_len() ==> t2.virtual_queen_mobility@[m] as int == wrap16(
                (if m == vqm_index_spec(b, Color::White) {
                    1int
                } else {
                    0int
                }) - (if m == vqm_index_spec(b, Color::Black) {
                    1int
                } else {
                    0int
                }),
            ),
        t2.virtual_queen_mobility@.len() == t0.virtual_queen_mobility@.len(),
{
    reveal(vqm_trace_rel);
    assert forall|m: int| 0 <= m < vqm_len() implies t2.virtual_queen_mobility@[m] as int
        == wrap16(
        (if m == vqm_index_spec(b, Color::White) {
            1int
        } else {
            0int
        }) - (if m == vqm_index_spec(b, Color::Black) {
            1int
        } else {
            0int
        }),
    ) by {
        lemma_wrap16_sub(
            if m == vqm_index_spec(b, Color::White) {
                1int
            } else {
                0int
            },
            if m == vqm_index_spec(b, Color::Black) {
                1int
            } else {
                0int
            },
        );
    }
}

/// The same composition for the passed-pawn table.
proof fn lemma_compose_passed(t0: EvalTrace, t1: EvalTrace, t2: EvalTrace, b: Board)
    requires
        t0.passed_pawns@.len() == passed_len(),
        forall|i: int| 0 <= i < passed_len() ==> t0.passed_pawns@[i] == 0i16,
        passed_trace_rel(t0, t1, b, Color::White),
        passed_trace_rel(t1, t2, b, Color::Black),
    ensures
        forall|kb: int, sq0: int|
            0 <= kb < king_buckets() && 0 <= sq0 < 64 ==> t2.passed_pawns@[passed_index(
                kb,
                sq0,
            )] as int == wrap16(
                passed_ind(b, Color::White, kb, sq0) - passed_ind(b, Color::Black, kb, sq0),
            ),
        t2.passed_pawns@.len() == t0.passed_pawns@.len(),
{
    reveal(passed_trace_rel);
    assert forall|kb: int, sq0: int|
        0 <= kb < king_buckets() && 0 <= sq0 < 64 implies t2.passed_pawns@[passed_index(
        kb,
        sq0,
    )] as int == wrap16(
        passed_ind(b, Color::White, kb, sq0) - passed_ind(b, Color::Black, kb, sq0),
    ) by {
        assert(0 <= passed_index(kb, sq0) < passed_len());
        lemma_wrap16_sub(
            passed_ind(b, Color::White, kb, sq0),
            passed_ind(b, Color::Black, kb, sq0),
        );
    }
}

/// Twelve alternating passes over a zeroed trace leave, in every slot,
/// White's feature count minus Black's.
#[verifier::rlimit(100)]
#[verifier::spinoff_prover]
proof fn lemma_trace_compose_all(
    t0: EvalTrace,
    g1: EvalTrace,
    g2: EvalTrace,
    g3: EvalTrace,
    g4: EvalTrace,
    g5: EvalTrace,
    g6: EvalTrace,
    g7: EvalTrace,
    g8: EvalTrace,
    g9: EvalTrace,
    g10: EvalTrace,
    g11: EvalTrace,
    tf: EvalTrace,
    b: Board,
)
    requires
        crate::terms::trace_zeroed(t0),
        psqt_trace_rel(t0, g1, b, Color::White),
        psqt_trace_rel(g1, g2, b, Color::Black),
        mob_trace_rel(g2, g3, b, Color::White),
        mob_trace_rel(g3, g4, b, Color::Black),
        vqm_trace_rel(g4, g5, b, Color::White),
        vqm_trace_rel(g5, g6, b, Color::Black),
        passed_trace_rel(g6, g7, b, Color::White),
        passed_trace_rel(g7, g8, b, Color::Black),
        rook_trace_rel(g8, g9, b, Color::White),
        rook_trace_rel(g9, g10, b, Color::Black),
        bp_trace_rel(g10, g11, b, Color::White),
        bp_trace_rel(g11, tf, b, Color::Black),
    ensures
        trace_of(b, tf),
{
    reveal(trace_of);
    reveal(psqt_trace_rel);
    reveal(mob_trace_rel);
    reveal(vqm_trace_rel);
    reveal(passed_trace_rel);
    reveal(rook_trace_rel);
    reveal(bp_trace_rel);
    lemma_compose_psqt(t0, g1, g2, b);
    assert(g2.mobility@ == t0.mobility@);
    lemma_compose_mob(g2, g3, g4, b);
    assert(g4.virtual_queen_mobility@ == t0.virtual_queen_mobility@);
    lemma_compose_vqm(g4, g5, g6, b);
    assert(g6.passed_pawns@ == t0.passed_pawns@);
    lemma_compose_passed(g6, g7, g8, b);
    assert(tf.piece_tables@ == g2.piece_tables@);
    assert(tf.mobility@ == g4.mobility@);
    assert(tf.virtual_queen_mobility@ == g6.virtual_queen_mobility@);
    assert(tf.passed_pawns@ == g8.passed_pawns@);
    assert(g8.rook_on_open_file == 0i16 && g8.rook_on_semiopen_file == 0i16);
    assert(g10.bishop_pair == 0i16);
    lemma_wrap16_sub(rook_open_count(b, Color::White, 64), rook_open_count(b, Color::Black, 64));
    lemma_wrap16_sub(rook_semi_count(b, Color::White, 64), rook_semi_count(b, Color::Black, 64));
    lemma_wrap16_sub(bp_ind(b, Color::White), bp_ind(b, Color::Black));
}

/// Evaluate `b` under `w`, optionally recording every feature count.
#[verifier::rlimit(100)]
fn eval_core(b: &Board, w: &EvalWeights, tracing: bool, tr: &mut EvalTrace) -> (r: i32)
    requires
        b.wf(),
        w.wf(),
        tracing ==> crate::terms::trace_zeroed(*old(tr)),
    ensures
        r == eval_spec(*b, *w),
        !tracing ==> *final(tr) == *old(tr),
        tracing ==> trace_of(*b, *final(tr)),
{
    let ghost t0 = *old(tr);
    let pw = psqt_terms(b, w, Color::White, tracing, tr);
    let ghost g1 = *tr;
    let pb = psqt_terms(b, w, Color::Black, tracing, tr);
    let ghost g2 = *tr;
    let mw = mobility_terms(b, w, Color::White, tracing, tr);
    let ghost g3 = *tr;
    let mb = mobility_terms(b, w, Color::Black, tracing, tr);
    let ghost g4 = *tr;
    let vw = virtual_queen_mobility(b, w, Color::White, tracing, tr);
    let ghost g5 = *tr;
    let vb = virtual_queen_mobility(b, w, Color::Black, tracing, tr);
    let ghost g6 = *tr;
    let qw = passed_pawn_terms(b, w, Color::White, tracing, tr);
    let ghost g7 = *tr;
    let qb = passed_pawn_terms(b, w, Color::Black, tracing, tr);
    let ghost g8 = *tr;
    let rw = rook_on_open_file_terms(b, w, Color::White, tracing, tr);
    let ghost g9 = *tr;
    let rb = rook_on_open_file_terms(b, w, Color::Black, tracing, tr);
    let ghost g10 = *tr;
    let cw = bishop_pair_terms(b, w, Color::White, tracing, tr);
    let ghost g11 = *tr;
    let cb = bishop_pair_terms(b, w, Color::Black, tracing, tr);
    proof {
        if tracing {
            lemma_trace_compose_all(t0, g1, g2, g3, g4, g5, g6, g7, g8, g9, g10, g11, *tr, *b);
        }
    }
    let ghost wsum = color_total(*b, Color::White, *w);
    let ghost bsum = color_total(*b, Color::Black, *w);
    let mut acc = pw.psub(pb);
    let ghost s = ssub(psqt_total(*b, Color::White, *w), psqt_total(*b, Color::Black, *w));
    proof {
        lemma_wrap16_sub(psqt_total(*b, Color::White, *w).mg, pb.mg as int);
        lemma_wrap16_sub(psqt_total(*b, Color::White, *w).eg, pb.eg as int);
        lemma_wrap16_subu(psqt_total(*b, Color::White, *w).mg, psqt_total(*b, Color::Black, *w).mg);
        lemma_wrap16_subu(psqt_total(*b, Color::White, *w).eg, psqt_total(*b, Color::Black, *w).eg);
    }
    acc = add_group(acc, Ghost(s), mw, mb, Ghost(mob_total(*b, Color::White, *w)), Ghost(mob_total(*b, Color::Black, *w)));
    let ghost s = sadd(s, ssub(mob_total(*b, Color::White, *w), mob_total(*b, Color::Black, *w)));
    acc = add_group(acc, Ghost(s), vw, vb, Ghost(vqm_total(*b, Color::White, *w)), Ghost(vqm_total(*b, Color::Black, *w)));
    let ghost s = sadd(s, ssub(vqm_total(*b, Color::White, *w), vqm_total(*b, Color::Black, *w)));
    acc = add_group(acc, Ghost(s), qw, qb, Ghost(passed_total(*b, Color::White, *w)), Ghost(passed_total(*b, Color::Black, *w)));
    let ghost s = sadd(s, ssub(passed_total(*b, Color::White, *w), passed_total(*b, Color::Black, *w)));
    acc = add_group(acc, Ghost(s), rw, rb, Ghost(rook_total(*b, Color::White, *w)), Ghost(rook_total(*b, Color::Black, *w)));
    let ghost s = sadd(s, ssub(rook_total(*b, Color::White, *w), rook_total(*b, Color::Black, *w)));
    acc = add_group(acc, Ghost(s), cw, cb, Ghost(bp_total(*b, Color::White, *w)), Ghost(bp_total(*b, Color::Black, *w)));
    let ghost s = sadd(s, ssub(bp_total(*b, Color::White, *w), bp_total(*b, Color::Black, *w)));
    assert(s == raw_total(*b, *w));
    let phase: u32 = game_phase(b);
    let ival: i32 = interpolate(acc.mg, acc.eg, phase);
    let stm = b.side_to_move();
    match stm {
        Color::White => ival,
        Color::Black => -ival,
    }
}

/// Fold one term group's White and Black scores into the accumulator.
fn add_group(
    acc: PhasedEval,
    Ghost(s): Ghost<SPair>,
    gw: PhasedEval,
    gb: PhasedEval,
    Ghost(tw): Ghost<SPair>,
    Ghost(tb): Ghost<SPair>,
) -> (r: PhasedEval)
    requires
        acc.mg as int == wrap16(s.mg),
        acc.eg as int == wrap16(s.eg),
        gw.mg as int == wrap16(tw.mg),
        gw.eg as int == wrap16(tw.eg),
        gb.mg as int == wrap16(tb.mg),
        gb.eg as int == wrap16(tb.eg),
    ensures
        r.mg as int == wrap16(sadd(s, ssub(tw, tb)).mg),
        r.eg as int == wrap16(sadd(s, ssub(tw, tb)).eg),
{
    let r = acc.padd(gw).psub(gb);
    proof {
        lemma_wrap16_add(s.mg, gw.mg as int);
        lemma_wrap16_add(s.eg, gw.eg as int);
        lemma_wrap16_addu(s.mg, tw.mg);
        lemma_wrap16_addu(s.eg, tw.eg);
        lemma_wrap16_sub(s.mg + tw.mg, gb.mg as int);
        lemma_wrap16_sub(s.eg + tw.eg, gb.eg as int);
        lemma_wrap16_subu(s.mg + tw.mg, tb.mg);
        lemma_wrap16_subu(s.eg + tw.eg, tb.eg);
    }
    r
}

// ----- the trace/weight pairing law -----

/// A pair scaled by an integer count.
pub open spec fn smul(k: int, s: SPair) -> SPair {
    SPair { mg: k * s.mg, eg: k * s.eg }
}

/// Dot of one color's piece-square counts against the weights, over slot
/// squares below `n` of slot `(p, kb)`.
pub open spec fn psqt_dot_sq(b: Board, c: Color, w: EvalWeights, p: int, kb: int, n: int) -> SPair
    decreases n,
{
    if n <= 0 {
        szero()
    } else {
        sadd(
            psqt_dot_sq(b, c, w, p, kb, n - 1),
            smul(psqt_ind(b, c, p, kb, n - 1), wcell(w.piece_tables@[psqt_index(p, kb, n - 1)])),
        )
    }
}

/// The same dot, over king buckets below `nkb`.
pub open spec fn psqt_dot_kb(b: Board, c: Color, w: EvalWeights, p: int, nkb: int) -> SPair
    decreases nkb,
{
    if nkb <= 0 {
        szero()
    } else {
        sadd(psqt_dot_kb(b, c, w, p, nkb - 1), psqt_dot_sq(b, c, w, p, nkb - 1, 64))
    }
}

/// The same dot, over piece kinds below `np`.
pub open spec fn psqt_dot_piece(b: Board, c: Color, w: EvalWeights, np: int) -> SPair
    decreases np,
{
    if np <= 0 {
        szero()
    } else {
        sadd(psqt_dot_piece(b, c, w, np - 1), psqt_dot_kb(b, c, w, np - 1, 4))
    }
}

/// A bucket that is not the color's king bucket collects nothing.
proof fn lemma_psqt_dot_sq_zero(b: Board, c: Color, w: EvalWeights, p: int, kb: int, n: int)
    requires
        kb != kb_of(b, c),
        0 <= n,
    ensures
        psqt_dot_sq(b, c, w, p, kb, n) == szero(),
    decreases n,
{
    if n > 0 {
        lemma_psqt_dot_sq_zero(b, c, w, p, kb, n - 1);
    }
}

/// Over the color's own king bucket, the dot is the per-piece score sum.
proof fn lemma_psqt_dot_sq_own(b: Board, c: Color, w: EvalWeights, p: int, n: int)
    requires
        0 <= n,
    ensures
        psqt_dot_sq(b, c, w, p, kb_of(b, c), n) == psqt_sq_sum(b, c, w, p, n),
    decreases n,
{
    if n > 0 {
        lemma_psqt_dot_sq_own(b, c, w, p, n - 1);
    }
}

/// The full piece-square dot of one color is its piece-square term.
proof fn lemma_psqt_collapse(b: Board, c: Color, w: EvalWeights, np: int)
    requires
        0 <= np,
        0 <= kb_of(b, c) < 4,
    ensures
        psqt_dot_piece(b, c, w, np) == psqt_piece_sum(b, c, w, np),
    decreases np,
{
    if np > 0 {
        lemma_psqt_collapse(b, c, w, np - 1);
        let kbc = kb_of(b, c);
        let p = np - 1;
        lemma_psqt_dot_sq_own(b, c, w, p, 64);
        if kbc != 0 {
            lemma_psqt_dot_sq_zero(b, c, w, p, 0, 64);
        }
        if kbc != 1 {
            lemma_psqt_dot_sq_zero(b, c, w, p, 1, 64);
        }
        if kbc != 2 {
            lemma_psqt_dot_sq_zero(b, c, w, p, 2, 64);
        }
        if kbc != 3 {
            lemma_psqt_dot_sq_zero(b, c, w, p, 3, 64);
        }
        assert(psqt_dot_kb(b, c, w, p, 0) == szero());
        assert(psqt_dot_kb(b, c, w, p, 1) == sadd(
            psqt_dot_kb(b, c, w, p, 0),
            psqt_dot_sq(b, c, w, p, 0, 64),
        ));
        assert(psqt_dot_kb(b, c, w, p, 2) == sadd(
            psqt_dot_kb(b, c, w, p, 1),
            psqt_dot_sq(b, c, w, p, 1, 64),
        ));
        assert(psqt_dot_kb(b, c, w, p, 3) == sadd(
            psqt_dot_kb(b, c, w, p, 2),
            psqt_dot_sq(b, c, w, p, 2, 64),
        ));
        assert(psqt_dot_kb(b, c, w, p, 4) == sadd(
            psqt_dot_kb(b, c, w, p, 3),
            psqt_dot_sq(b, c, w, p, 3, 64),
        ));
    }
}

/// A count one higher scales to one more copy.
proof fn lemma_smul_one(k: int, s: SPair)
    ensures
        smul(k + 1, s) == sadd(smul(k, s), s),
{
    assert((k + 1) * s.mg == k * s.mg + s.mg) by (nonlinear_arith);
    assert((k + 1) * s.eg == k * s.eg + s.eg) by (nonlinear_arith);
}

/// Dot of one color's mobility counts of kind `p` against the weights,
/// over entries below `nm`, counting board squares below `nsq`.
pub open spec fn mob_dot_m(b: Board, c: Color, w: EvalWeights, p: int, nm: int, nsq: int) -> SPair
    decreases nm,
{
    if nm <= 0 {
        szero()
    } else {
        sadd(
            mob_dot_m(b, c, w, p, nm - 1, nsq),
            smul(mob_slot_count(b, c, p, nm - 1, nsq), wcell(w.mobility@[mob_flat(p, nm - 1)])),
        )
    }
}

/// The same dot, over piece kinds below `np`, each over its whole run.
pub open spec fn mob_dot_piece(b: Board, c: Color, w: EvalWeights, np: int) -> SPair
    decreases np,
{
    if np <= 0 {
        szero()
    } else {
        sadd(mob_dot_piece(b, c, w, np - 1), mob_dot_m(b, c, w, np - 1, mob_cap(np - 1), 64))
    }
}

proof fn lemma_mob_dot_empty(b: Board, c: Color, w: EvalWeights, p: int, nm: int)
    requires
        0 <= nm,
    ensures
        mob_dot_m(b, c, w, p, nm, 0) == szero(),
    decreases nm,
{
    if nm > 0 {
        lemma_mob_dot_empty(b, c, w, p, nm - 1);
    }
}

/// One more board square adds at most the weight its piece indexes.
proof fn lemma_mob_dot_step(b: Board, c: Color, w: EvalWeights, p: int, nm: int, nsq: int)
    requires
        0 <= nm,
        0 <= nsq < 64,
    ensures
        mob_dot_m(b, c, w, p, nm, nsq + 1) == sadd(
            mob_dot_m(b, c, w, p, nm, nsq),
            if has_at(b, c, crate::board::piece_of(p), nsq) && 0 <= mob_index_spec(
                b,
                c,
                crate::board::piece_of(p),
                nsq as u64,
            ) < nm {
                wcell(w.mobility@[mob_flat(p, mob_index_spec(b, c, crate::board::piece_of(p), nsq as u64))])
            } else {
                szero()
            },
        ),
    decreases nm,
{
    if nm > 0 {
        lemma_mob_dot_step(b, c, w, p, nm - 1, nsq);
        let mi = mob_index_spec(b, c, crate::board::piece_of(p), nsq as u64);
        if has_at(b, c, crate::board::piece_of(p), nsq) && mi == nm - 1 {
            lemma_smul_one(
                mob_slot_count(b, c, p, nm - 1, nsq),
                wcell(w.mobility@[mob_flat(p, nm - 1)]),
            );
        }
    }
}

/// The full mobility dot of one kind is that kind's score sum.
proof fn lemma_mob_collapse_sq(b: Board, c: Color, w: EvalWeights, p: int, nsq: int)
    requires
        0 <= p < 6,
        0 <= nsq <= 64,
    ensures
        mob_dot_m(b, c, w, p, mob_cap(p), nsq) == mob_sq_sum(
            b,
            c,
            w,
            crate::board::piece_of(p),
            nsq,
        ),
    decreases nsq,
{
    if nsq <= 0 {
        lemma_mob_dot_empty(b, c, w, p, mob_cap(p));
    } else {
        lemma_mob_collapse_sq(b, c, w, p, nsq - 1);
        lemma_mob_dot_step(b, c, w, p, mob_cap(p), nsq - 1);
        lemma_mob_index_bounds(b, c, crate::board::piece_of(p), (nsq - 1) as u64);
    }
}

proof fn lemma_mob_collapse(b: Board, c: Color, w: EvalWeights, np: int)
    requires
        0 <= np <= 6,
    ensures
        mob_dot_piece(b, c, w, np) == mob_piece_sum(b, c, w, np),
    decreases np,
{
    if np > 0 {
        lemma_mob_collapse(b, c, w, np - 1);
        lemma_mob_collapse_sq(b, c, w, np - 1, 64);
    }
}

/// Dot of one color's virtual-queen-mobility counts, entries below `nm`.
pub open spec fn vqm_dot(b: Board, c: Color, w: EvalWeights, nm: int) -> SPair
    decreases nm,
{
    if nm <= 0 {
        szero()
    } else {
        sadd(
            vqm_dot(b, c, w, nm - 1),
            smul(
                if nm - 1 == vqm_index_spec(b, c) {
                    1int
                } else {
                    0int
                },
                wcell(w.virtual_queen_mobility@[nm - 1]),
            ),
        )
    }
}

proof fn lemma_vqm_dot_prefix(b: Board, c: Color, w: EvalWeights, nm: int)
    requires
        0 <= nm,
    ensures
        vqm_dot(b, c, w, nm) == if 0 <= vqm_index_spec(b, c) < nm {
            wcell(w.virtual_queen_mobility@[vqm_index_spec(b, c)])
        } else {
            szero()
        },
    decreases nm,
{
    if nm > 0 {
        lemma_vqm_dot_prefix(b, c, w, nm - 1);
    }
}

/// The full virtual-queen-mobility dot of one color is its term.
proof fn lemma_vqm_collapse(b: Board, c: Color, w: EvalWeights)
    ensures
        vqm_dot(b, c, w, 28) == vqm_total(b, c, w),
{
    lemma_vqm_dot_prefix(b, c, w, 28);
    let ours = b.spec_colors(c);
    let occ = b.spec_occupied();
    let ksq = b.spec_king(c) as u64;
    lemma_count_sat_bounds(
        |t: u64|
            (bishop_attack_spec(ksq, occ, t) || rook_attack_spec(ksq, occ, t)) && !bit64(ours, t),
        64,
    );
}

/// Dot of one color's passed-pawn counts over slot squares below `n`.
pub open spec fn passed_dot_sq(b: Board, c: Color, w: EvalWeights, kb: int, n: int) -> SPair
    decreases n,
{
    if n <= 0 {
        szero()
    } else {
        sadd(
            passed_dot_sq(b, c, w, kb, n - 1),
            smul(passed_ind(b, c, kb, n - 1), wcell(w.passed_pawns@[passed_index(kb, n - 1)])),
        )
    }
}

/// The same dot, over king buckets below `nkb`.
pub open spec fn passed_dot_kb(b: Board, c: Color, w: EvalWeights, nkb: int) -> SPair
    decreases nkb,
{
    if nkb <= 0 {
        szero()
    } else {
        sadd(passed_dot_kb(b, c, w, nkb - 1), passed_dot_sq(b, c, w, nkb - 1, 64))
    }
}

proof fn lemma_passed_dot_sq_zero(b: Board, c: Color, w: EvalWeights, kb: int, n: int)
    requires
        kb != kb_of(b, c),
        0 <= n,
    ensures
        passed_dot_sq(b, c, w, kb, n) == szero(),
    decreases n,
{
    if n > 0 {
        lemma_passed_dot_sq_zero(b, c, w, kb, n - 1);
    }
}

proof fn lemma_passed_dot_sq_own(b: Board, c: Color, w: EvalWeights, n: int)
    requires
        0 <= n,
    ensures
        passed_dot_sq(b, c, w, kb_of(b, c), n) == passed_sq_sum(b, c, w, n),
    decreases n,
{
    if n > 0 {
        lemma_passed_dot_sq_own(b, c, w, n - 1);
    }
}

/// The full passed-pawn dot of one color is its passed-pawn term.
proof fn lemma_passed_collapse(b: Board, c: Color, w: EvalWeights)
    requires
        0 <= kb_of(b, c) < 4,
    ensures
        passed_dot_kb(b, c, w, 4) == passed_total(b, c, w),
{
    let kbc = kb_of(b, c);
    lemma_passed_dot_sq_own(b, c, w, 64);
    if kbc != 0 {
        lemma_passed_dot_sq_zero(b, c, w, 0, 64);
    }
    if kbc != 1 {
        lemma_passed_dot_sq_zero(b, c, w, 1, 64);
    }
    if kbc != 2 {
        lemma_passed_dot_sq_zero(b, c, w, 2, 64);
    }
    if kbc != 3 {
        lemma_passed_dot_sq_zero(b, c, w, 3, 64);
    }
    assert(passed_dot_kb(b, c, w, 0) == szero());
    assert(passed_dot_kb(b, c, w, 1) == sadd(
        passed_dot_kb(b, c, w, 0),
        passed_dot_sq(b, c, w, 0, 64),
    ));
    assert(passed_dot_kb(b, c, w, 2) == sadd(
        passed_dot_kb(b, c, w, 1),
        passed_dot_sq(b, c, w, 1, 64),
    ));
    assert(passed_dot_kb(b, c, w, 3) == sadd(
        passed_dot_kb(b, c, w, 2),
        passed_dot_sq(b, c, w, 2, 64),
    ));
    assert(passed_dot_kb(b, c, w, 4) == sadd(
        passed_dot_kb(b, c, w, 3),
        passed_dot_sq(b, c, w, 3, 64),
    ));
}

/// The rook-file counters scaled by their weights give the rook term.
proof fn lemma_rook_collapse(b: Board, c: Color, w: EvalWeights, n: int)
    requires
        0 <= n,
    ensures
        sadd(
            smul(rook_open_count(b, c, n), wcell(w.rook_on_open_file)),
            smul(rook_semi_count(b, c, n), wcell(w.rook_on_semiopen_file)),
        ) == rook_sq_sum(b, c, w, n),
    decreases n,
{
    if n > 0 {
        lemma_rook_collapse(b, c, w, n - 1);
        if has_at(b, c, Piece::Rook, n - 1) && open_file_at(b, file_of(n - 1)) {
            lemma_smul_one(rook_open_count(b, c, n - 1), wcell(w.rook_on_open_file));
        } else if has_at(b, c, Piece::Rook, n - 1) && semiopen_for(b, c, file_of(n - 1)) {
            lemma_smul_one(rook_semi_count(b, c, n - 1), wcell(w.rook_on_semiopen_file));
        }
    }
}

/// One color's whole dot of counts against weights, table by table, in
/// the order of `color_total`.
pub open spec fn color_dot(b: Board, c: Color, w: EvalWeights) -> SPair {
    sadd(
        sadd(
            sadd(
                sadd(sadd(psqt_dot_piece(b, c, w, 6), mob_dot_piece(b, c, w, 6)), vqm_dot(b, c, w, 28)),
                passed_dot_kb(b, c, w, 4),
            ),
            sadd(
                smul(rook_open_count(b, c, 64), wcell(w.rook_on_open_file)),
                smul(rook_semi_count(b, c, 64), wcell(w.rook_on_semiopen_file)),
            ),
        ),
        smul(bp_ind(b, c), wcell(w.bishop_pair)),
    )
}

/// The dot of a recorded trace against the weights: each slot of the
/// trace holds White's count minus Black's count of its feature, so the
/// full dot is White's dot minus Black's.
pub open spec fn trace_dot(b: Board, w: EvalWeights) -> SPair {
    ssub(color_dot(b, Color::White, w), color_dot(b, Color::Black, w))
}

/// Trace/weight pairing: a recorded trace holds, per slot, White's count
/// minus Black's count of that feature (`trace_of`), and summing every
/// count times its weight entry (`trace_dot`) reproduces exactly the
/// un-interpolated score the evaluator computed (`raw_total`). An external
/// tuner may therefore fit weights against traces alone.
pub proof fn lemma_trace_weight_pairing(b: Board, w: EvalWeights)
    requires
        b.wf(),
    ensures
        trace_dot(b, w) == raw_total(b, w),
{
    lemma_color_dot_is_total(b, Color::White, w);
    lemma_color_dot_is_total(b, Color::Black, w);
}

proof fn lemma_color_dot_is_total(b: Board, c: Color, w: EvalWeights)
    requires
        b.wf(),
    ensures
        color_dot(b, c, w) == color_total(b, c, w),
{
    assert(0 <= kb_of(b, c) < 4);
    lemma_psqt_collapse(b, c, w, 6);
    lemma_mob_collapse(b, c, w, 6);
    lemma_vqm_collapse(b, c, w);
    lemma_passed_collapse(b, c, w);
    lemma_rook_collapse(b, c, w, 64);
    if bp_ind(b, c) == 1 {
        assert(smul(1, wcell(w.bishop_pair)) == wcell(w.bishop_pair));
    } else {
        assert(smul(0, wcell(w.bishop_pair)) == szero());
    }
}

/// Two boards that differ at most in whose turn it is.
pub open spec fn same_position(b1: Board, b2: Board) -> bool {
    &&& b1.pawns == b2.pawns
    &&& b1.knights == b2.knights
    &&& b1.bishops == b2.bishops
    &&& b1.rooks == b2.rooks
    &&& b1.queens == b2.queens
    &&& b1.kings == b2.kings
    &&& b1.white == b2.white
    &&& b1.black == b2.black
    &&& b1.white_king == b2.white_king
    &&& b1.black_king == b2.black_king
}

proof fn lemma_psqt_sq_stm(b1: Board, b2: Board, c: Color, w: EvalWeights, p: int, n: int)
    requires
        same_position(b1, b2),
        0 <= n,
    ensures
        psqt_sq_sum(b1, c, w, p, n) == psqt_sq_sum(b2, c, w, p, n),
    decreases n,
{
    if n > 0 {
        lemma_psqt_sq_stm(b1, b2, c, w, p, n - 1);
    }
}

proof fn lemma_psqt_stm(b1: Board, b2: Board, c: Color, w: EvalWeights, n: int)
    requires
        same_position(b1, b2),
        0 <= n,
    ensures
        psqt_piece_sum(b1, c, w, n) == psqt_piece_sum(b2, c, w, n),
    decreases n,
{
    if n > 0 {
        lemma_psqt_stm(b1, b2, c, w, n - 1);
        lemma_psqt_sq_stm(b1, b2, c, w, n - 1, 64);
    }
}

proof fn lemma_mob_count_stm(b1: Board, b2: Board, c: Color, p: Piece, sq: u64)
    requires
        same_position(b1, b2),
    ensures
        mob_count_spec(b1, c, p, sq) == mob_count_spec(b2, c, p, sq),
{
    reveal(mob_count_spec);
}

proof fn lemma_mob_sq_stm(b1: Board, b2: Board, c: Color, w: EvalWeights, p: Piece, n: int)
    requires
        same_position(b1, b2),
        0 <= n,
    ensures
        mob_sq_sum(b1, c, w, p, n) == mob_sq_sum(b2, c, w, p, n),
    decreases n,
{
    if n > 0 {
        lemma_mob_sq_stm(b1, b2, c, w, p, n - 1);
        lemma_mob_count_stm(b1, b2, c, p, (n - 1) as u64);
    }
}

proof fn lemma_mob_stm(b1: Board, b2: Board, c: Color, w: EvalWeights, n: int)
    requires
        same_position(b1, b2),
        0 <= n,
    ensures
        mob_piece_sum(b1, c, w, n) == mob_piece_sum(b2, c, w, n),
    decreases n,
{
    if n > 0 {
        lemma_mob_stm(b1, b2, c, w, n - 1);
        lemma_mob_sq_stm(b1, b2, c, w, crate::board::piece_of(n - 1), 64);
    }
}

proof fn lemma_passed_spec_stm(b1: Board, b2: Board, c: Color, s: u64)
    requires
        same_position(b1, b2),
    ensures
        passed_spec(b1, c, s) == passed_spec(b2, c, s),
{
    assert(b1.spec_colors(c) & b1.pawns == b2.spec_colors(c) & b2.pawns);
    assert(b1.spec_colors(c.other()) & b1.pawns == b2.spec_colors(c.other()) & b2.pawns);
}

proof fn lemma_passed_stm(b1: Board, b2: Board, c: Color, w: EvalWeights, n: int)
    requires
        same_position(b1, b2),
        0 <= n,
    ensures
        passed_sq_sum(b1, c, w, n) == passed_sq_sum(b2, c, w, n),
    decreases n,
{
    if n > 0 {
        lemma_passed_stm(b1, b2, c, w, n - 1);
        lemma_passed_spec_stm(b1, b2, c, orient(c, n - 1) as u64);
    }
}

proof fn lemma_rook_stm(b1: Board, b2: Board, c: Color, w: EvalWeights, n: int)
    requires
        same_position(b1, b2),
        0 <= n,
    ensures
        rook_sq_sum(b1, c, w, n) == rook_sq_sum(b2, c, w, n),
    decreases n,
{
    if n > 0 {
        lemma_rook_stm(b1, b2, c, w, n - 1);
        reveal(open_file_at);
        reveal(semiopen_for);
        assert(b1.pawns == b2.pawns);
        assert(b1.spec_colors(c) & b1.pawns == b2.spec_colors(c) & b2.pawns);
    }
}

proof fn lemma_color_total_stm(b1: Board, b2: Board, c: Color, w: EvalWeights)
    requires
        same_position(b1, b2),
    ensures
        color_total(b1, c, w) == color_total(b2, c, w),
{
    lemma_psqt_stm(b1, b2, c, w, 6);
    lemma_mob_stm(b1, b2, c, w, 6);
    lemma_passed_stm(b1, b2, c, w, 64);
    lemma_rook_stm(b1, b2, c, w, 64);
}

/// Flipping only whose turn it is flips the sign of the evaluation: the
/// terms and the phase read the pieces alone, and the mover's sign is
/// applied last.
pub proof fn lemma_stm_antisymmetry(b: Board, w: EvalWeights)
    ensures
        eval_spec(Board { stm: b.stm.other(), ..b }, w) == -eval_spec(b, w),
{
    let b2 = Board { stm: b.stm.other(), ..b };
    lemma_color_total_stm(b, b2, Color::White, w);
    lemma_color_total_stm(b, b2, Color::Black, w);
    assert(raw_total(b2, w) == raw_total(b, w));
    assert(phase_spec(b2) == phase_spec(b));
    assert(stm_sign(b2.stm) == -stm_sign(b.stm));
}

/// Evaluate a position under the given weights.
pub fn evaluate(b: &Board, w: &EvalWeights) -> (r: i32)
    requires
        b.wf(),
        w.wf(),
    ensures
        r == eval_spec(*b, *w),
{
    let mut tr = EvalTrace::inert();
    eval_core(b, w, false, &mut tr)
}

/// Evaluate a position and record, for every feature, how often each side
/// used it: the trace an external tuner fits weights against.
pub fn evaluate_with_weights_and_trace(b: &Board, w: &EvalWeights) -> (r: (i32, EvalTrace))
    requires
        b.wf(),
        w.wf(),
    ensures
        r.0 == eval_spec(*b, *w),
        trace_of(*b, r.1),
{
    let mut tr = EvalTrace::zeroed();
    let e = eval_core(b, w, true, &mut tr);
    (e, tr)
}

} // verus!
