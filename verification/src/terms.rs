//! The bag of evaluation tables, generic over its scalar: `EvalWeights`
//! holds trained phased scores, `EvalTrace` holds signed feature counts of
//! the same shape, so a trace can be dot-producted against the weights.

use vstd::prelude::*;
use crate::board::Piece;
use crate::phased::PhasedEval;
use crate::attacks::file_of;

verus! {

/// Number of king buckets: piece-square and passed-pawn tables are indexed
/// by the owning side's king file, two files per bucket.
pub open spec fn king_buckets() -> int {
    4
}

/// The king bucket of a king standing on `ksq`.
pub open spec fn king_bucket(ksq: int) -> int {
    file_of(ksq) / 2
}

/// Flat length of the king-relative piece-square table.
pub open spec fn psqt_len() -> int {
    6 * king_buckets() * 64
}

/// Index into the piece-square table: piece kind, king bucket, square as
/// seen from the owner's side (rank-flipped for Black).
pub open spec fn psqt_index(p: int, kb: int, sq: int) -> int {
    (p * king_buckets() + kb) * 64 + sq
}

/// Start of piece kind `p`'s run inside the flat mobility table.
pub open spec fn mob_offset(p: int) -> int {
    if p == 0 {
        0
    } else if p == 1 {
        5
    } else if p == 2 {
        14
    } else if p == 3 {
        28
    } else if p == 4 {
        43
    } else {
        71
    }
}

/// Number of mobility entries of piece kind `p`: one more than the most
/// squares that kind can attack.
pub open spec fn mob_cap(p: int) -> int {
    if p == 0 {
        5
    } else if p == 1 {
        9
    } else if p == 2 {
        14
    } else if p == 3 {
        15
    } else if p == 4 {
        28
    } else {
        9
    }
}

/// Flat index of mobility entry `m` of piece kind `p`.
pub open spec fn mob_flat(p: int, m: int) -> int {
    mob_offset(p) + m
}

/// Flat length of the mobility table.
pub open spec fn mob_len() -> int {
    80
}

/// Length of the virtual-queen-mobility table: the most moves a queen can
/// have from one square, plus one.
pub open spec fn vqm_len() -> int {
    28
}

/// Flat length of the king-relative passed-pawn table.
pub open spec fn passed_len() -> int {
    king_buckets() * 64
}

/// Index into the passed-pawn table.
pub open spec fn passed_index(kb: int, sq: int) -> int {
    kb * 64 + sq
}

/// One bag of evaluation tables over scalar `E`.
#[derive(Clone, Debug)]
pub struct EvalTerms<E> {
    pub piece_tables: Vec<E>,
    pub mobility: Vec<E>,
    pub virtual_queen_mobility: Vec<E>,
    pub passed_pawns: Vec<E>,
    pub bishop_pair: E,
    pub rook_on_open_file: E,
    pub rook_on_semiopen_file: E,
}

/// Feature counts recorded while evaluating, for an external tuner.
pub type EvalTrace = EvalTerms<i16>;

/// The trained weights the evaluator scores with.
pub type EvalWeights = EvalTerms<PhasedEval>;

impl<E> EvalTerms<E> {
    /// All tables have their full shape.
    pub open spec fn wf(&self) -> bool {
        &&& self.piece_tables@.len() == psqt_len()
        &&& self.mobility@.len() == mob_len()
        &&& self.virtual_queen_mobility@.len() == vqm_len()
        &&& self.passed_pawns@.len() == passed_len()
    }
}

fn zero_vec_i16(n: usize) -> (r: Vec<i16>)
    ensures
        r@.len() == n,
        forall|i: int| 0 <= i < n ==> r@[i] == 0i16,
{
    let mut r: Vec<i16> = Vec::new();
    for k in 0..n
        invariant
            r@.len() == k,
            forall|i: int| 0 <= i < k ==> r@[i] == 0i16,
    {
        r.push(0i16);
    }
    r
}

/// Every count of the trace is zero.
pub open spec fn trace_zeroed(t: EvalTrace) -> bool {
    &&& t.wf()
    &&& forall|i: int| 0 <= i < psqt_len() ==> t.piece_tables@[i] == 0i16
    &&& forall|i: int| 0 <= i < mob_len() ==> t.mobility@[i] == 0i16
    &&& forall|i: int| 0 <= i < vqm_len() ==> t.virtual_queen_mobility@[i] == 0i16
    &&& forall|i: int| 0 <= i < passed_len() ==> t.passed_pawns@[i] == 0i16
    &&& t.bishop_pair == 0i16
    &&& t.rook_on_open_file == 0i16
    &&& t.rook_on_semiopen_file == 0i16
}

impl EvalTerms<i16> {
    /// An inert trace for evaluations that do not record: nothing is
    /// allocated and nothing may be written.
    pub fn inert() -> (r: EvalTrace)
        ensures
            r.piece_tables@.len() == 0,
            r.mobility@.len() == 0,
            r.virtual_queen_mobility@.len() == 0,
            r.passed_pawns@.len() == 0,
            r.bishop_pair == 0i16,
            r.rook_on_open_file == 0i16,
            r.rook_on_semiopen_file == 0i16,
    {
        EvalTerms {
            piece_tables: Vec::new(),
            mobility: Vec::new(),
            virtual_queen_mobility: Vec::new(),
            passed_pawns: Vec::new(),
            bishop_pair: 0i16,
            rook_on_open_file: 0i16,
            rook_on_semiopen_file: 0i16,
        }
    }

    /// A trace with every count zero, ready to record.
    pub fn zeroed() -> (r: EvalTrace)
        ensures
            r.wf(),
            forall|i: int| 0 <= i < psqt_len() ==> r.piece_tables@[i] == 0i16,
            forall|i: int| 0 <= i < mob_len() ==> r.mobility@[i] == 0i16,
            forall|i: int| 0 <= i < vqm_len() ==> r.virtual_queen_mobility@[i] == 0i16,
            forall|i: int| 0 <= i < passed_len() ==> r.passed_pawns@[i] == 0i16,
            r.bishop_pair == 0i16,
            r.rook_on_open_file == 0i16,
            r.rook_on_semiopen_file == 0i16,
            trace_zeroed(r),
    {
        EvalTerms {
            piece_tables: zero_vec_i16(1536),
            mobility: zero_vec_i16(80),
            virtual_queen_mobility: zero_vec_i16(28),
            passed_pawns: zero_vec_i16(256),
            bishop_pair: 0i16,
            rook_on_open_file: 0i16,
            rook_on_semiopen_file: 0i16,
        }
    }
}

impl EvalTerms<PhasedEval> {
    /// Assemble a weight bag, refusing tables of the wrong shape.
    pub fn from_tables(
        piece_tables: Vec<PhasedEval>,
        mobility: Vec<PhasedEval>,
        virtual_queen_mobility: Vec<PhasedEval>,
        passed_pawns: Vec<PhasedEval>,
        bishop_pair: PhasedEval,
        rook_on_open_file: PhasedEval,
        rook_on_semiopen_file: PhasedEval,
    ) -> (r: Option<EvalWeights>)
        ensures
            match r {
                Some(w) => w.wf() && w.piece_tables@ == piece_tables@ && w.mobility@ == mobility@
                    && w.virtual_queen_mobility@ == virtual_queen_mobility@ && w.passed_pawns@
                    == passed_pawns@ && w.bishop_pair == bishop_pair && w.rook_on_open_file
                    == rook_on_open_file && w.rook_on_semiopen_file == rook_on_semiopen_file,
                None => !(piece_tables@.len() == psqt_len() && mobility@.len() == mob_len()
                    && virtual_queen_mobility@.len() == vqm_len() && passed_pawns@.len()
                    == passed_len()),
            },
    {
        if piece_tables.len() == 1536 && mobility.len() == 80 && virtual_queen_mobility.len() == 28
            && passed_pawns.len() == 256 {
            Some(
                EvalTerms {
                    piece_tables,
                    mobility,
                    virtual_queen_mobility,
                    passed_pawns,
                    bishop_pair,
                    rook_on_open_file,
                    rook_on_semiopen_file,
                },
            )
        } else {
            None
        }
    }

    /// A weight bag with every entry zero.
    pub fn zeroed() -> (r: EvalWeights)
        ensures
            r.wf(),
            forall|i: int| 0 <= i < psqt_len() ==> r.piece_tables@[i] == crate::phased::pzero(),
            forall|i: int| 0 <= i < mob_len() ==> r.mobility@[i] == crate::phased::pzero(),
            forall|i: int|
                0 <= i < vqm_len() ==> r.virtual_queen_mobility@[i] == crate::phased::pzero(),
            forall|i: int| 0 <= i < passed_len() ==> r.passed_pawns@[i] == crate::phased::pzero(),
            r.bishop_pair == crate::phased::pzero(),
            r.rook_on_open_file == crate::phased::pzero(),
            r.rook_on_semiopen_file == crate::phased::pzero(),
    {
        EvalTerms {
            piece_tables: zero_vec_phased(1536),
            mobility: zero_vec_phased(80),
            virtual_queen_mobility: zero_vec_phased(28),
            passed_pawns: zero_vec_phased(256),
            bishop_pair: PhasedEval::zero(),
            rook_on_open_file: PhasedEval::zero(),
            rook_on_semiopen_file: PhasedEval::zero(),
        }
    }
}

fn zero_vec_phased(n: usize) -> (r: Vec<PhasedEval>)
    ensures
        r@.len() == n,
        forall|i: int| 0 <= i < n ==> r@[i] == crate::phased::pzero(),
{
    let mut r: Vec<PhasedEval> = Vec::new();
    for k in 0..n
        invariant
            r@.len() == k,
            forall|i: int| 0 <= i < k ==> r@[i] == crate::phased::pzero(),
    {
        r.push(PhasedEval::zero());
    }
    r
}

/// The exec counterpart of `mob_offset`.
pub fn mob_offset_of(p: Piece) -> (r: usize)
    ensures
        r == mob_offset(crate::board::piece_index(p)),
{
    match p {
        Piece::Pawn => 0,
        Piece::Knight => 5,
        Piece::Bishop => 14,
        Piece::Rook => 28,
        Piece::Queen => 43,
        Piece::King => 71,
    }
}

/// The exec counterpart of `mob_cap`.
pub fn mob_cap_of(p: Piece) -> (r: usize)
    ensures
        r == mob_cap(crate::board::piece_index(p)),
        1 <= r <= 28,
{
    match p {
        Piece::Pawn => 5,
        Piece::Knight => 9,
        Piece::Bishop => 14,
        Piece::Rook => 15,
        Piece::Queen => 28,
        Piece::King => 9,
    }
}

} // verus!
