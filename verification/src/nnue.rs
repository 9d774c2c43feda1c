//! The quantized neural evaluator: a feature transformer kept up to date
//! incrementally per perspective, and a bucketed linear output layer over
//! the clipped accumulators.

use vstd::prelude::*;
use crate::board::{Color, Piece, piece_index};
use crate::phased::{crop_i16, lemma_wrap16_add};

verus! {

/// Width of the feature transformer's output per perspective.
pub const FT_OUT: usize = 32;

/// Number of (color, piece, square) input features.
pub const FEATURES: usize = 768;

/// Number of output buckets of the linear layer.
pub const L1_OUT: usize = 16;

/// Inputs are clipped to `[0, ACTIVATION_RANGE]` before the output layer.
pub const ACTIVATION_RANGE: i32 = 127;

/// Fixed-point scale the output weights were trained under.
pub const WEIGHT_SCALE: i32 = 64;

/// Scale from network units to the engine's score units.
pub const OUTPUT_SCALE: i32 = 203;

/// The feature-transformer layer: one weight row per input feature, plus
/// the bias row every accumulator starts from.
#[derive(Clone, Debug)]
pub struct BitLinear {
    pub weights: Vec<i16>,
    pub bias: Vec<i16>,
}

/// The bucketed output layer.
#[derive(Clone, Debug)]
pub struct Linear {
    pub weights: Vec<i8>,
    pub bias: Vec<i32>,
}

/// The immutable model: loaded once, shared read-only.
#[derive(Clone, Debug)]
pub struct Nnue {
    pub ft: BitLinear,
    pub l1: Linear,
}

/// The tables have their trained shape and the output biases stay small
/// enough that a forward pass cannot overflow.
pub open spec fn tables_wf(ft_w: Seq<i16>, ft_b: Seq<i16>, l1_w: Seq<i8>, l1_b: Seq<i32>) -> bool {
    &&& ft_w.len() == 768 * 32
    &&& ft_b.len() == 32
    &&& l1_w.len() == 16 * 64
    &&& l1_b.len() == 16
    &&& forall|i: int| 0 <= i < 16 ==> -1000000000 <= #[trigger] l1_b[i] <= 1000000000
}

impl Nnue {
    /// The model's tables are well shaped.
    pub open spec fn wf(&self) -> bool {
        tables_wf(self.ft.weights@, self.ft.bias@, self.l1.weights@, self.l1.bias@)
    }

    /// Assemble a model; exactly the well-shaped blobs are accepted.
    pub fn new(ft_weights: Vec<i16>, ft_bias: Vec<i16>, l1_weights: Vec<i8>, l1_bias: Vec<i32>)
        -> (r: Option<Nnue>)
        ensures
            match r {
                Some(n) => n.wf() && n.ft.weights@ == ft_weights@ && n.ft.bias@ == ft_bias@
                    && n.l1.weights@ == l1_weights@ && n.l1.bias@ == l1_bias@,
                None => !tables_wf(ft_weights@, ft_bias@, l1_weights@, l1_bias@),
            },
    {
        if ft_weights.len() != 768 * 32 || ft_bias.len() != 32 || l1_weights.len() != 16 * 64
            || l1_bias.len() != 16 {
            return None;
        }
        let mut ok = true;
        for i in 0..16usize
            invariant
                l1_bias@.len() == 16,
                ok == forall|k: int|
                    0 <= k < i ==> -1000000000 <= #[trigger] l1_bias@[k] <= 1000000000,
        {
            let v: i32 = l1_bias[i];
            if v < -1000000000 || v > 1000000000 {
                ok = false;
            }
        }
        if !ok {
            return None;
        }
        Some(Nnue { ft: BitLinear { weights: ft_weights, bias: ft_bias }, l1: Linear { weights: l1_weights, bias: l1_bias } })
    }

    /// A fresh accumulator pair over this model: both perspectives start
    /// from the learned bias, with no material counted.
    pub fn new_state(&self) -> (s: NnueState)
        requires
            self.wf(),
        ensures
            s.wf(),
            s.model.ft.weights@ == self.ft.weights@,
            s.model.ft.bias@ == self.ft.bias@,
            s.model.l1.weights@ == self.l1.weights@,
            s.model.l1.bias@ == self.l1.bias@,
            s.material == 0,
            forall|j: int| 0 <= j < 32 ==> s.white_acc@[j] == self.ft.bias@[j],
            forall|j: int| 0 <= j < 32 ==> s.black_acc@[j] == self.ft.bias@[j],
    {
        let mut wa: Vec<i16> = Vec::new();
        let mut ba: Vec<i16> = Vec::new();
        for j in 0..32usize
            invariant
                self.wf(),
                wa@.len() == j,
                ba@.len() == j,
                forall|k: int| 0 <= k < j ==> wa@[k] == self.ft.bias@[k],
                forall|k: int| 0 <= k < j ==> ba@[k] == self.ft.bias@[k],
        {
            wa.push(self.ft.bias[j]);
            ba.push(self.ft.bias[j]);
        }
        let model = Nnue {
            ft: BitLinear {
                weights: copy_vec_i16(&self.ft.weights),
                bias: copy_vec_i16(&self.ft.bias),
            },
            l1: Linear {
                weights: copy_vec_i8(&self.l1.weights),
                bias: copy_vec_i32(&self.l1.bias),
            },
        };
        NnueState { model, white_acc: wa, black_acc: ba, material: 0 }
    }
}

fn copy_vec_i16(v: &Vec<i16>) -> (r: Vec<i16>)
    ensures
        r@ == v@,
{
    let mut r: Vec<i16> = Vec::new();
    for j in 0..v.len()
        invariant
            r@.len() == j,
            forall|k: int| 0 <= k < j ==> r@[k] == v@[k],
    {
        r.push(v[j]);
    }
    proof {
        assert(r@ =~= v@);
    }
    r
}

fn copy_vec_i8(v: &Vec<i8>) -> (r: Vec<i8>)
    ensures
        r@ == v@,
{
    let mut r: Vec<i8> = Vec::new();
    for j in 0..v.len()
        invariant
            r@.len() == j,
            forall|k: int| 0 <= k < j ==> r@[k] == v@[k],
    {
        r.push(v[j]);
    }
    proof {
        assert(r@ =~= v@);
    }
    r
}

fn copy_vec_i32(v: &Vec<i32>) -> (r: Vec<i32>)
    ensures
        r@ == v@,
{
    let mut r: Vec<i32> = Vec::new();
    for j in 0..v.len()
        invariant
            r@.len() == j,
            forall|k: int| 0 <= k < j ==> r@[k] == v@[k],
    {
        r.push(v[j]);
    }
    proof {
        assert(r@ =~= v@);
    }
    r
}

/// Per-search mutable state: one running accumulator per perspective and
/// the material counter that picks the output bucket. Every `add` must be
/// undone by a matching `sub` in exact reverse order when a move is
/// unmade; the state keeps no undo log of its own.
#[derive(Clone, Debug)]
pub struct NnueState {
    pub model: Nnue,
    pub white_acc: Vec<i16>,
    pub black_acc: Vec<i16>,
    pub material: u32,
}

/// The rank-mirrored square.
pub open spec fn flip_sq(sq: int) -> int {
    8 * (7 - sq / 8) + sq % 8
}

pub open spec fn color_index(c: Color) -> int {
    match c {
        Color::White => 0,
        Color::Black => 1,
    }
}

/// The flat input feature of a (color, piece, square) triple as one
/// perspective sees it: Black's perspective swaps the colors and flips
/// the ranks, so one weight set serves both sides.
pub open spec fn feature_spec(perspective: Color, color: Color, piece: Piece, sq: int) -> int {
    let c2 = if perspective == Color::Black {
        color.other()
    } else {
        color
    };
    let s2 = if perspective == Color::Black {
        flip_sq(sq)
    } else {
        sq
    };
    (color_index(c2) * 6 + piece_index(piece)) * 64 + s2
}

/// Compute the flat feature index of a piece as seen by a perspective.
pub fn feature(perspective: Color, color: Color, piece: Piece, square: u8) -> (r: usize)
    requires
        square < 64,
    ensures
        r == feature_spec(perspective, color, piece, square as int),
        r < 768,
{
    let c2 = match perspective {
        Color::Black => color.flip(),
        Color::White => color,
    };
    let s2: u8 = match perspective {
        Color::Black => {
            let rk: u8 = square / 8;
            let fl: u8 = square % 8;
            (7 - rk) * 8 + fl
        },
        Color::White => square,
    };
    let ci: usize = match c2 {
        Color::White => 0,
        Color::Black => 1,
    };
    let pi: usize = match piece {
        Piece::Pawn => 0,
        Piece::Knight => 1,
        Piece::Bishop => 2,
        Piece::Rook => 3,
        Piece::Queen => 4,
        Piece::King => 5,
    };
    (ci * 6 + pi) * 64 + (s2 as usize)
}

/// The two perspectives name the same feature for mirrored coordinates:
/// what White sees of a piece, Black sees of the color-swapped piece on
/// the rank-flipped square.
pub proof fn lemma_feature_perspective(color: Color, piece: Piece, sq: int)
    requires
        0 <= sq < 64,
    ensures
        feature_spec(Color::White, color, piece, sq) == feature_spec(
            Color::Black,
            color.other(),
            piece,
            flip_sq(sq),
        ),
{
    assert(flip_sq(flip_sq(sq)) == sq);
}

/// The fixed material value of each piece kind, king excluded.
pub open spec fn piece_value(p: Piece) -> int {
    match p {
        Piece::Pawn => 1,
        Piece::Knight => 3,
        Piece::Bishop => 3,
        Piece::Rook => 5,
        Piece::Queen => 8,
        Piece::King => 0,
    }
}

/// An accumulator after one feature row has been added, lane by lane.
pub open spec fn acc_add_row(a: Seq<i16>, w: Seq<i16>, base: int) -> Seq<i16> {
    Seq::new(32, |j: int| crop_i16(a[j] + w[base + j]))
}

/// An accumulator after one feature row has been removed, lane by lane.
pub open spec fn acc_sub_row(a: Seq<i16>, w: Seq<i16>, base: int) -> Seq<i16> {
    Seq::new(32, |j: int| crop_i16(a[j] - w[base + j]))
}

/// Removing a row exactly undoes adding it, bit for bit.
pub proof fn lemma_acc_add_sub(a: Seq<i16>, w: Seq<i16>, base: int)
    requires
        a.len() == 32,
    ensures
        acc_sub_row(acc_add_row(a, w, base), w, base) == a,
{
    let mid = acc_add_row(a, w, base);
    assert forall|j: int| 0 <= j < 32 implies acc_sub_row(mid, w, base)[j] == a[j] by {
        crate::phased::lemma_wrap16_sub(a[j] + w[base + j], w[base + j] as int);
    }
    assert(acc_sub_row(acc_add_row(a, w, base), w, base) =~= a);
}

/// Adding a row exactly undoes removing it, bit for bit.
pub proof fn lemma_acc_sub_add(a: Seq<i16>, w: Seq<i16>, base: int)
    requires
        a.len() == 32,
    ensures
        acc_add_row(acc_sub_row(a, w, base), w, base) == a,
{
    let mid = acc_sub_row(a, w, base);
    assert forall|j: int| 0 <= j < 32 implies acc_add_row(mid, w, base)[j] == a[j] by {
        crate::phased::lemma_wrap16_add(a[j] - w[base + j], w[base + j] as int);
    }
    assert(acc_add_row(acc_sub_row(a, w, base), w, base) =~= a);
}

/// Row updates commute: the accumulator depends on which features are in,
/// not on the order they arrived.
pub proof fn lemma_acc_add_comm(a: Seq<i16>, w: Seq<i16>, b1: int, b2: int)
    requires
        a.len() == 32,
    ensures
        acc_add_row(acc_add_row(a, w, b1), w, b2) == acc_add_row(acc_add_row(a, w, b2), w, b1),
{
    assert forall|j: int|
        0 <= j < 32 implies acc_add_row(acc_add_row(a, w, b1), w, b2)[j] == acc_add_row(
        acc_add_row(a, w, b2),
        w,
        b1,
    )[j] by {
        lemma_wrap16_add(a[j] + w[b1 + j], w[b2 + j] as int);
        lemma_wrap16_add(a[j] + w[b2 + j], w[b1 + j] as int);
    }
    assert(acc_add_row(acc_add_row(a, w, b1), w, b2) =~= acc_add_row(
        acc_add_row(a, w, b2),
        w,
        b1,
    ));
}

/// The per-lane contribution of a sequence of row updates: each entry is
/// a direction (`true` adds) and a row base into the weight table.
pub open spec fn net_contrib(w: Seq<i16>, ops: Seq<(bool, int)>, j: int) -> int
    decreases ops.len(),
{
    if ops.len() == 0 {
        0
    } else {
        (if ops[0].0 {
            w[ops[0].1 + j] as int
        } else {
            -(w[ops[0].1 + j] as int)
        }) + net_contrib(w, ops.drop_first(), j)
    }
}

/// An accumulator after a whole sequence of row updates.
pub open spec fn apply_ops(a: Seq<i16>, w: Seq<i16>, ops: Seq<(bool, int)>) -> Seq<i16>
    decreases ops.len(),
{
    if ops.len() == 0 {
        a
    } else {
        apply_ops(
            if ops[0].0 {
                acc_add_row(a, w, ops[0].1)
            } else {
                acc_sub_row(a, w, ops[0].1)
            },
            w,
            ops.drop_first(),
        )
    }
}

/// Each lane of the accumulator is its start plus the sequence's net
/// contribution, wrapped once: the order of the updates never matters,
/// only what they sum to.
pub proof fn lemma_apply_ops_net(a: Seq<i16>, w: Seq<i16>, ops: Seq<(bool, int)>, j: int)
    requires
        a.len() == 32,
        0 <= j < 32,
    ensures
        apply_ops(a, w, ops).len() == 32,
        apply_ops(a, w, ops)[j] as int == crate::phased::wrap16(a[j] + net_contrib(w, ops, j)),
    decreases ops.len(),
{
    if ops.len() == 0 {
    } else {
        let a1 = if ops[0].0 {
            acc_add_row(a, w, ops[0].1)
        } else {
            acc_sub_row(a, w, ops[0].1)
        };
        lemma_apply_ops_net(a1, w, ops.drop_first(), j);
        if ops[0].0 {
            crate::phased::lemma_wrap16_add(a[j] + w[ops[0].1 + j], net_contrib(w, ops.drop_first(), j));
        } else {
            crate::phased::lemma_wrap16_add(a[j] - w[ops[0].1 + j], net_contrib(w, ops.drop_first(), j));
        }
    }
}

/// A sequence of updates whose per-lane contributions cancel leaves the
/// accumulator exactly as it began, bit for bit.
pub proof fn lemma_apply_ops_cancel(a: Seq<i16>, w: Seq<i16>, ops: Seq<(bool, int)>)
    requires
        a.len() == 32,
        forall|j: int| 0 <= j < 32 ==> net_contrib(w, ops, j) == 0,
    ensures
        apply_ops(a, w, ops) == a,
{
    assert forall|j: int| 0 <= j < 32 implies apply_ops(a, w, ops)[j] == a[j] by {
        lemma_apply_ops_net(a, w, ops, j);
    }
    lemma_apply_ops_net(a, w, ops, 0);
    assert(apply_ops(a, w, ops) =~= a);
}

/// The row bases of the updates in `ops` going the given direction
/// (`true` collects the additions, `false` the removals).
pub open spec fn bases_of(ops: Seq<(bool, int)>, dir: bool) -> Seq<int>
    decreases ops.len(),
{
    if ops.len() == 0 {
        Seq::empty()
    } else if ops[0].0 == dir {
        seq![ops[0].1] + bases_of(ops.drop_first(), dir)
    } else {
        bases_of(ops.drop_first(), dir)
    }
}

/// Lane `j` summed over the rows at the given bases.
pub open spec fn row_sum(w: Seq<i16>, bases: Seq<int>, j: int) -> int
    decreases bases.len(),
{
    if bases.len() == 0 {
        0
    } else {
        w[bases[0] + j] + row_sum(w, bases.drop_first(), j)
    }
}

/// A sequence's net contribution is its added rows minus its removed rows.
proof fn lemma_net_is_row_sums(w: Seq<i16>, ops: Seq<(bool, int)>, j: int)
    ensures
        net_contrib(w, ops, j) == row_sum(w, bases_of(ops, true), j) - row_sum(
            w,
            bases_of(ops, false),
            j,
        ),
    decreases ops.len(),
{
    if ops.len() > 0 {
        lemma_net_is_row_sums(w, ops.drop_first(), j);
        if ops[0].0 {
            assert((seq![ops[0].1] + bases_of(ops.drop_first(), true)).drop_first() =~= bases_of(
                ops.drop_first(),
                true,
            ));
        } else {
            assert((seq![ops[0].1] + bases_of(ops.drop_first(), false)).drop_first() =~= bases_of(
                ops.drop_first(),
                false,
            ));
        }
    }
}

/// A row sum splits off any one of its entries.
proof fn lemma_row_sum_remove(w: Seq<i16>, bases: Seq<int>, i: int, j: int)
    requires
        0 <= i < bases.len(),
    ensures
        row_sum(w, bases, j) == w[bases[i] + j] + row_sum(w, bases.remove(i), j),
    decreases i,
{
    if i == 0 {
        assert(bases.remove(0) =~= bases.drop_first());
    } else {
        lemma_row_sum_remove(w, bases.drop_first(), i - 1, j);
        assert(bases.remove(i).drop_first() =~= bases.drop_first().remove(i - 1));
    }
}

/// Row sums see only the multiset of bases, never their order.
proof fn lemma_row_sum_multiset(w: Seq<i16>, b1: Seq<int>, b2: Seq<int>, j: int)
    requires
        b1.to_multiset() == b2.to_multiset(),
    ensures
        row_sum(w, b1, j) == row_sum(w, b2, j),
    decreases b1.len(),
{
    broadcast use vstd::seq_lib::group_to_multiset_ensures;

    if b1.len() == 0 {
        assert(b1.to_multiset().len() == b1.len());
        assert(b2.to_multiset().len() == b2.len());
        assert(b2.len() == 0);
    } else {
        let x = b1[0];
        assert(b1.contains(x));
        assert(b2.to_multiset().count(x) > 0);
        assert(b2.contains(x));
        let i = choose|i: int| 0 <= i < b2.len() && b2[i] == x;
        lemma_row_sum_remove(w, b1, 0, j);
        lemma_row_sum_remove(w, b2, i, j);
        assert(b1.remove(0).to_multiset() =~= b2.remove(i).to_multiset());
        lemma_row_sum_multiset(w, b1.remove(0), b2.remove(i), j);
        assert(b1.remove(0) =~= b1.drop_first());
    }
}

/// Accumulator consistency: any sequence of `add`/`sub` row updates whose
/// added and removed rows match as multisets — every placement undone by
/// one matching removal, in any order — returns the accumulator to its
/// start, bit for bit. Begun at the fresh bias state, it ends there.
pub proof fn lemma_apply_ops_multiset_cancel(a: Seq<i16>, w: Seq<i16>, ops: Seq<(bool, int)>)
    requires
        a.len() == 32,
        bases_of(ops, true).to_multiset() == bases_of(ops, false).to_multiset(),
    ensures
        apply_ops(a, w, ops) == a,
{
    assert forall|j: int| 0 <= j < 32 implies net_contrib(w, ops, j) == 0 by {
        lemma_net_is_row_sums(w, ops, j);
        lemma_row_sum_multiset(w, bases_of(ops, true), bases_of(ops, false), j);
    }
    lemma_apply_ops_cancel(a, w, ops);
}

/// The feature row one perspective updates for a placed or removed
/// (color, piece, square) triple.
pub open spec fn triple_base(persp: Color, t: (Color, Piece, int)) -> int {
    feature_spec(persp, t.0, t.1, t.2) * 32
}

/// The triples of the operations in `ops` going the given direction
/// (`true` collects the placements, `false` the removals).
pub open spec fn triples_of(ops: Seq<(bool, (Color, Piece, int))>, dir: bool) -> Seq<
    (Color, Piece, int),
>
    decreases ops.len(),
{
    if ops.len() == 0 {
        Seq::empty()
    } else if ops[0].0 == dir {
        seq![ops[0].1] + triples_of(ops.drop_first(), dir)
    } else {
        triples_of(ops.drop_first(), dir)
    }
}

/// The row updates one perspective sees for a sequence of piece
/// operations: each `add` or `sub` of a triple touches that triple's
/// feature row, as `add` and `sub` ensure for both perspectives.
pub open spec fn triple_row_ops(persp: Color, ops: Seq<(bool, (Color, Piece, int))>) -> Seq<
    (bool, int),
> {
    Seq::new(ops.len(), |i: int| (ops[i].0, triple_base(persp, ops[i].1)))
}

/// The bases one perspective's row updates collect, directionwise, are
/// the mapped triples of that direction.
proof fn lemma_triple_bases(persp: Color, ops: Seq<(bool, (Color, Piece, int))>, dir: bool)
    ensures
        bases_of(triple_row_ops(persp, ops), dir) == Seq::new(
            triples_of(ops, dir).len(),
            |i: int| triple_base(persp, triples_of(ops, dir)[i]),
        ),
    decreases ops.len(),
{
    let rows = triple_row_ops(persp, ops);
    if ops.len() == 0 {
        assert(bases_of(rows, dir) =~= Seq::new(
            triples_of(ops, dir).len(),
            |i: int| triple_base(persp, triples_of(ops, dir)[i]),
        ));
    } else {
        lemma_triple_bases(persp, ops.drop_first(), dir);
        assert(rows.drop_first() =~= triple_row_ops(persp, ops.drop_first()));
        assert(bases_of(rows, dir) =~= Seq::new(
            triples_of(ops, dir).len(),
            |i: int| triple_base(persp, triples_of(ops, dir)[i]),
        ));
    }
}

/// Mapping triples to their feature rows respects multisets.
proof fn lemma_map_base_multiset(
    persp: Color,
    t1: Seq<(Color, Piece, int)>,
    t2: Seq<(Color, Piece, int)>,
)
    requires
        t1.to_multiset() == t2.to_multiset(),
    ensures
        Seq::new(t1.len(), |i: int| triple_base(persp, t1[i])).to_multiset() == Seq::new(
            t2.len(),
            |i: int| triple_base(persp, t2[i]),
        ).to_multiset(),
    decreases t1.len(),
{
    broadcast use vstd::seq_lib::group_to_multiset_ensures;

    let m1 = Seq::new(t1.len(), |i: int| triple_base(persp, t1[i]));
    let m2 = Seq::new(t2.len(), |i: int| triple_base(persp, t2[i]));
    assert(t1.to_multiset().len() == t1.len());
    assert(t2.to_multiset().len() == t2.len());
    if t1.len() == 0 {
        assert(m1 =~= m2);
    } else {
        let x = t1[0];
        assert(t1.contains(x));
        assert(t2.to_multiset().count(x) > 0);
        assert(t2.contains(x));
        let i = choose|i: int| 0 <= i < t2.len() && t2[i] == x;
        assert(t1.remove(0).to_multiset() =~= t2.remove(i).to_multiset());
        lemma_map_base_multiset(persp, t1.remove(0), t2.remove(i));
        let r1 = Seq::new(t1.remove(0).len(), |k: int| triple_base(persp, t1.remove(0)[k]));
        let r2 = Seq::new(t2.remove(i).len(), |k: int| triple_base(persp, t2.remove(i)[k]));
        assert(r1 =~= m1.remove(0));
        assert(r2 =~= m2.remove(i));
        assert(m1.remove(0).to_multiset() =~= m1.to_multiset().remove(m1[0]));
        assert(m2.remove(i).to_multiset() =~= m2.to_multiset().remove(m2[i]));
        assert(m1[0] == m2[i]);
        assert(m1.to_multiset().count(m1[0]) > 0);
        assert(m2.to_multiset().count(m2[i]) > 0);
        assert(m1.to_multiset() =~= m1.to_multiset().remove(m1[0]).insert(m1[0]));
        assert(m2.to_multiset() =~= m2.to_multiset().remove(m2[i]).insert(m2[i]));
    }
}

/// The material the triples in a sequence carry.
pub open spec fn value_sum(ts: Seq<(Color, Piece, int)>) -> int
    decreases ts.len(),
{
    if ts.len() == 0 {
        0
    } else {
        piece_value(ts[0].1) + value_sum(ts.drop_first())
    }
}

/// A value sum splits off any one of its entries.
proof fn lemma_value_sum_remove(ts: Seq<(Color, Piece, int)>, i: int)
    requires
        0 <= i < ts.len(),
    ensures
        value_sum(ts) == piece_value(ts[i].1) + value_sum(ts.remove(i)),
    decreases i,
{
    if i == 0 {
        assert(ts.remove(0) =~= ts.drop_first());
    } else {
        lemma_value_sum_remove(ts.drop_first(), i - 1);
        assert(ts.remove(i).drop_first() =~= ts.drop_first().remove(i - 1));
    }
}

/// Value sums see only the multiset of triples, never their order.
proof fn lemma_value_sum_multiset(t1: Seq<(Color, Piece, int)>, t2: Seq<(Color, Piece, int)>)
    requires
        t1.to_multiset() == t2.to_multiset(),
    ensures
        value_sum(t1) == value_sum(t2),
    decreases t1.len(),
{
    broadcast use vstd::seq_lib::group_to_multiset_ensures;

    assert(t1.to_multiset().len() == t1.len());
    assert(t2.to_multiset().len() == t2.len());
    if t1.len() > 0 {
        let x = t1[0];
        assert(t1.contains(x));
        assert(t2.to_multiset().count(x) > 0);
        assert(t2.contains(x));
        let i = choose|i: int| 0 <= i < t2.len() && t2[i] == x;
        lemma_value_sum_remove(t1, 0);
        lemma_value_sum_remove(t2, i);
        assert(t1.remove(0).to_multiset() =~= t2.remove(i).to_multiset());
        lemma_value_sum_multiset(t1.remove(0), t2.remove(i));
    }
}

/// Accumulator consistency over whole piece operations: a sequence of
/// placements and removals of (color, piece, square) triples that nets to
/// the empty board — every placed triple matched by one removal, in any
/// order — returns either perspective's accumulator to its start, bit for
/// bit, and counts as much material in as out. Begun at the fresh bias
/// state, it ends at the fresh bias state with zero material.
pub proof fn lemma_triple_ops_cancel(
    a: Seq<i16>,
    w: Seq<i16>,
    ops: Seq<(bool, (Color, Piece, int))>,
    persp: Color,
)
    requires
        a.len() == 32,
        triples_of(ops, true).to_multiset() == triples_of(ops, false).to_multiset(),
    ensures
        apply_ops(a, w, triple_row_ops(persp, ops)) == a,
        value_sum(triples_of(ops, true)) == value_sum(triples_of(ops, false)),
{
    lemma_triple_bases(persp, ops, true);
    lemma_triple_bases(persp, ops, false);
    lemma_map_base_multiset(persp, triples_of(ops, true), triples_of(ops, false));
    lemma_apply_ops_multiset_cancel(a, w, triple_row_ops(persp, ops));
    lemma_value_sum_multiset(triples_of(ops, true), triples_of(ops, false));
}

impl NnueState {
    pub open spec fn wf(&self) -> bool {
        &&& self.model.wf()
        &&& self.white_acc@.len() == 32
        &&& self.black_acc@.len() == 32
    }

    /// The model this state accumulates for.
    pub fn model(&self) -> (r: &Nnue)
        ensures
            *r == self.model,
    {
        &self.model
    }

    /// One perspective's raw accumulator.
    pub fn accumulator(&self, perspective: Color) -> (r: &Vec<i16>)
        ensures
            perspective == Color::White ==> r@ == self.white_acc@,
            perspective == Color::Black ==> r@ == self.black_acc@,
    {
        match perspective {
            Color::White => &self.white_acc,
            Color::Black => &self.black_acc,
        }
    }

    /// Note a piece placed on the board: both perspectives gain its
    /// feature row and its material value is counted.
    pub fn add(&mut self, color: Color, piece: Piece, square: u8)
        requires
            old(self).wf(),
            square < 64,
            old(self).material + piece_value(piece) <= u32::MAX,
        ensures
            final(self).wf(),
            final(self).model == old(self).model,
            final(self).material == old(self).material + piece_value(piece),
            final(self).white_acc@ == acc_add_row(
                old(self).white_acc@,
                old(self).model.ft.weights@,
                feature_spec(Color::White, color, piece, square as int) * 32,
            ),
            final(self).black_acc@ == acc_add_row(
                old(self).black_acc@,
                old(self).model.ft.weights@,
                feature_spec(Color::Black, color, piece, square as int) * 32,
            ),
    {
        let v: u32 = match piece {
            Piece::Pawn => 1,
            Piece::Knight => 3,
            Piece::Bishop => 3,
            Piece::Rook => 5,
            Piece::Queen => 8,
            Piece::King => 0,
        };
        self.material = self.material + v;
        let fw: usize = feature(Color::White, color, piece, square);
        let fb: usize = feature(Color::Black, color, piece, square);
        let ghost wa0 = self.white_acc@;
        let ghost ba0 = self.black_acc@;
        for j in 0..32usize
            invariant
                self.model == old(self).model,
                self.model.wf(),
                self.white_acc@.len() == 32,
                self.black_acc@.len() == 32,
                fw < 768,
                fb < 768,
                forall|k: int|
                    0 <= k < j ==> self.white_acc@[k] == crop_i16(
                        wa0[k] + self.model.ft.weights@[fw * 32 + k],
                    ),
                forall|k: int| j <= k < 32 ==> self.white_acc@[k] == wa0[k],
                forall|k: int|
                    0 <= k < j ==> self.black_acc@[k] == crop_i16(
                        ba0[k] + self.model.ft.weights@[fb * 32 + k],
                    ),
                forall|k: int| j <= k < 32 ==> self.black_acc@[k] == ba0[k],
                self.material == old(self).material + piece_value(piece),
        {
            let wv: i16 = self.model.ft.weights[fw * 32 + j];
            let cur_w: i16 = self.white_acc[j];
            self.white_acc.set(j, cur_w.wrapping_add(wv));
            let bv: i16 = self.model.ft.weights[fb * 32 + j];
            let cur_b: i16 = self.black_acc[j];
            self.black_acc.set(j, cur_b.wrapping_add(bv));
        }
        proof {
            assert(self.white_acc@ =~= acc_add_row(wa0, self.model.ft.weights@, fw as int * 32));
            assert(self.black_acc@ =~= acc_add_row(ba0, self.model.ft.weights@, fb as int * 32));
        }
    }

    /// Note a piece removed from the board: the exact inverse of `add`.
    pub fn sub(&mut self, color: Color, piece: Piece, square: u8)
        requires
            old(self).wf(),
            square < 64,
            old(self).material >= piece_value(piece),
        ensures
            final(self).wf(),
            final(self).model == old(self).model,
            final(self).material == old(self).material - piece_value(piece),
            final(self).white_acc@ == acc_sub_row(
                old(self).white_acc@,
                old(self).model.ft.weights@,
                feature_spec(Color::White, color, piece, square as int) * 32,
            ),
            final(self).black_acc@ == acc_sub_row(
                old(self).black_acc@,
                old(self).model.ft.weights@,
                feature_spec(Color::Black, color, piece, square as int) * 32,
            ),
    {
        let v: u32 = match piece {
            Piece::Pawn => 1,
            Piece::Knight => 3,
            Piece::Bishop => 3,
            Piece::Rook => 5,
            Piece::Queen => 8,
            Piece::King => 0,
        };
        self.material = self.material - v;
        let fw: usize = feature(Color::White, color, piece, square);
        let fb: usize = feature(Color::Black, color, piece, square);
        let ghost wa0 = self.white_acc@;
        let ghost ba0 = self.black_acc@;
        for j in 0..32usize
            invariant
                self.model == old(self).model,
                self.model.wf(),
                self.white_acc@.len() == 32,
                self.black_acc@.len() == 32,
                fw < 768,
                fb < 768,
                forall|k: int|
                    0 <= k < j ==> self.white_acc@[k] == crop_i16(
                        wa0[k] - self.model.ft.weights@[fw * 32 + k],
                    ),
                forall|k: int| j <= k < 32 ==> self.white_acc@[k] == wa0[k],
                forall|k: int|
                    0 <= k < j ==> self.black_acc@[k] == crop_i16(
                        ba0[k] - self.model.ft.weights@[fb * 32 + k],
                    ),
                forall|k: int| j <= k < 32 ==> self.black_acc@[k] == ba0[k],
                self.material == old(self).material - piece_value(piece),
        {
            let wv: i16 = self.model.ft.weights[fw * 32 + j];
            let cur_w: i16 = self.white_acc[j];
            self.white_acc.set(j, cur_w.wrapping_sub(wv));
            let bv: i16 = self.model.ft.weights[fb * 32 + j];
            let cur_b: i16 = self.black_acc[j];
            self.black_acc.set(j, cur_b.wrapping_sub(bv));
        }
        proof {
            assert(self.white_acc@ =~= acc_sub_row(wa0, self.model.ft.weights@, fw as int * 32));
            assert(self.black_acc@ =~= acc_sub_row(ba0, self.model.ft.weights@, fb as int * 32));
        }
    }
}

/// An accumulator lane clipped to the activation range.
pub open spec fn clamp127(x: int) -> int {
    if x < 0 {
        0
    } else if x > 127 {
        127
    } else {
        x
    }
}

/// Dot product of one clipped accumulator half against the bucket's
/// weights, lanes below `n`, at weight offset `bucket * 64 + base`.
pub open spec fn dot_half(wts: Seq<i8>, acc: Seq<i16>, bucket: int, base: int, n: int) -> int
    decreases n,
{
    if n <= 0 {
        0
    } else {
        dot_half(wts, acc, bucket, base, n - 1) + clamp127(acc[n - 1] as int) * wts[bucket * 64 + base + n
            - 1]
    }
}

/// The output bucket the material count selects.
pub open spec fn bucket_spec(material: int) -> int {
    if material * 16 / 76 >= 15 {
        15
    } else {
        material * 16 / 76
    }
}

/// The raw network output for the given inputs.
pub open spec fn out_spec(n: Nnue, stm_acc: Seq<i16>, opp_acc: Seq<i16>, material: int) -> int {
    let bucket = bucket_spec(material);
    dot_half(n.l1.weights@, stm_acc, bucket, 0, 32) + dot_half(n.l1.weights@, opp_acc, bucket, 32, 32)
        + n.l1.bias@[bucket]
}

/// The fixed-point rescale of the raw output, truncating toward zero.
pub open spec fn scale_spec(out: int) -> int {
    if out >= 0 {
        out * 203 / 64 / 127
    } else {
        -((-out) * 203 / 64 / 127)
    }
}

/// The score the network gives the mover: the mover's clipped accumulator
/// first, the opponent's second, through the material-selected bucket.
pub open spec fn state_eval_spec(s: NnueState, side_to_move: Color) -> int {
    let stm_acc = if side_to_move == Color::White {
        s.white_acc@
    } else {
        s.black_acc@
    };
    let opp_acc = if side_to_move == Color::White {
        s.black_acc@
    } else {
        s.white_acc@
    };
    scale_spec(out_spec(s.model, stm_acc, opp_acc, s.material as int))
}

/// Flat index of lane `j` in bucket `b` of the output layer.
pub open spec fn l1_slot(b: int, j: int) -> int {
    b * 64 + j
}

/// The output layer's opponent half negates its mover half and its biases
/// are zero: the weight shape under which the forward pass is
/// antisymmetric in the side to move.
pub open spec fn output_antisymmetric(l1_w: Seq<i8>, l1_b: Seq<i32>) -> bool {
    &&& forall|b: int, j: int|
        0 <= b < 16 && 0 <= j < 32 ==> l1_w[l1_slot(b, 32 + j)] as int == -(#[trigger] l1_w[
            l1_slot(b, j)
        ] as int)
    &&& forall|b: int| 0 <= b < 16 ==> #[trigger] l1_b[b] == 0
}

/// Against an antisymmetric output layer, dotting a half at the opponent
/// offset negates dotting it at the mover offset.
proof fn lemma_dot_half_anti(l1_w: Seq<i8>, l1_b: Seq<i32>, acc: Seq<i16>, bucket: int, n: int)
    requires
        output_antisymmetric(l1_w, l1_b),
        0 <= bucket < 16,
        0 <= n <= 32,
    ensures
        dot_half(l1_w, acc, bucket, 32, n) == -dot_half(l1_w, acc, bucket, 0, n),
    decreases n,
{
    if n > 0 {
        lemma_dot_half_anti(l1_w, l1_b, acc, bucket, n - 1);
        let c = clamp127(acc[n - 1] as int);
        assert(l1_slot(bucket, n - 1) == bucket * 64 + n - 1);
        let wm = l1_w[bucket * 64 + n - 1] as int;
        let wo = l1_w[bucket * 64 + 32 + n - 1] as int;
        assert(wo == -wm);
        assert(c * wo == -(c * wm)) by (nonlinear_arith)
            requires
                wo == -wm,
        ;
    }
}

/// Side-to-move antisymmetry of the network evaluation, under the one
/// hypothesis that supplies it: an output layer whose opponent half
/// negates its mover half, with zero biases. The forward pass itself
/// applies no sign — swapping the mover only swaps which clipped
/// accumulator comes first — so a general model need not score the two
/// movers oppositely (zero output weights with a nonzero bucket bias
/// score that bias for both sides). Whether the evaluation is
/// antisymmetric is therefore decided by the trained weight data, and
/// this lemma states it of exactly the models whose data has the shape
/// that decides it.
pub proof fn lemma_nnue_stm_antisymmetry(s: NnueState)
    requires
        s.wf(),
        output_antisymmetric(s.model.l1.weights@, s.model.l1.bias@),
    ensures
        state_eval_spec(s, Color::White) == -state_eval_spec(s, Color::Black),
{
    let w = s.model.l1.weights@;
    let bias = s.model.l1.bias@;
    let k = bucket_spec(s.material as int);
    assert(0 <= k < 16) by {
        vstd::arithmetic::div_mod::lemma_div_is_ordered(0, s.material as int * 16, 76);
    }
    lemma_dot_half_anti(w, bias, s.white_acc@, k, 32);
    lemma_dot_half_anti(w, bias, s.black_acc@, k, 32);
    assert(bias[k] == 0);
    let ow = out_spec(s.model, s.white_acc@, s.black_acc@, s.material as int);
    let ob = out_spec(s.model, s.black_acc@, s.white_acc@, s.material as int);
    assert(ob == -ow);
    assert(scale_spec(-ow) == -scale_spec(ow));
}

/// Dot products of clipped lanes against byte weights stay small.
proof fn lemma_dot_half_bounds(wts: Seq<i8>, acc: Seq<i16>, bucket: int, base: int, n: int)
    requires
        0 <= n,
    ensures
        -(n * 127 * 128) <= dot_half(wts, acc, bucket, base, n) <= n * 127 * 127,
    decreases n,
{
    if n > 0 {
        lemma_dot_half_bounds(wts, acc, bucket, base, n - 1);
        let c = clamp127(acc[n - 1] as int);
        let w = wts[bucket * 64 + base + n - 1] as int;
        assert(0 <= c <= 127 && -128 <= w <= 127);
        assert(c * w <= 127 * 127 && c * w >= -(127 * 128)) by (nonlinear_arith)
            requires
                0 <= c <= 127,
                -128 <= w <= 127,
        ;
    }
}

impl NnueState {
    /// Run the output layer over the current accumulators: the mover's
    /// clipped half comes first, the opponent's second, with no final
    /// sign — swapping the mover is antisymmetric exactly when the
    /// output weights are (`lemma_nnue_stm_antisymmetry`).
    #[verifier::rlimit(100)]
    pub fn evaluate(&self, side_to_move: Color) -> (r: i32)
        requires
            self.wf(),
        ensures
            r == state_eval_spec(*self, side_to_move),
    {
        let stm_acc: &Vec<i16> = match side_to_move {
            Color::White => &self.white_acc,
            Color::Black => &self.black_acc,
        };
        let opp_acc: &Vec<i16> = match side_to_move {
            Color::White => &self.black_acc,
            Color::Black => &self.white_acc,
        };
        let b64: u64 = (self.material as u64) * 16 / 76;
        let bucket: usize = if b64 >= 15 {
            15
        } else {
            b64 as usize
        };
        assert(bucket == bucket_spec(self.material as int));
        let mut out: i32 = 0;
        for j in 0..32usize
            invariant
                self.wf(),
                bucket < 16,
                stm_acc@ == (if side_to_move == Color::White {
                    self.white_acc@
                } else {
                    self.black_acc@
                }),
                stm_acc@.len() == 32,
                out == dot_half(self.model.l1.weights@, stm_acc@, bucket as int, 0, j as int),
                -(j * 127 * 128) <= out <= j * 127 * 127,
        {
            let v: i16 = stm_acc[j];
            let c: i32 = if v < 0 {
                0
            } else if v > 127 {
                127
            } else {
                v as i32
            };
            let w: i32 = self.model.l1.weights[bucket * 64 + j] as i32;
            proof {
                assert(c * w <= 127 * 127 && c * w >= -(127 * 128)) by (nonlinear_arith)
                    requires
                        0 <= c <= 127,
                        -128 <= w <= 127,
                ;
            }
            out = out + c * w;
        }
        for j in 0..32usize
            invariant
                self.wf(),
                bucket < 16,
                stm_acc@ == (if side_to_move == Color::White {
                    self.white_acc@
                } else {
                    self.black_acc@
                }),
                opp_acc@ == (if side_to_move == Color::White {
                    self.black_acc@
                } else {
                    self.white_acc@
                }),
                opp_acc@.len() == 32,
                out == dot_half(self.model.l1.weights@, stm_acc@, bucket as int, 0, 32) + dot_half(
                    self.model.l1.weights@,
                    opp_acc@,
                    bucket as int,
                    32,
                    j as int,
                ),
                -(64 * 127 * 128) <= out <= 64 * 127 * 127,
        {
            let v: i16 = opp_acc[j];
            let c: i32 = if v < 0 {
                0
            } else if v > 127 {
                127
            } else {
                v as i32
            };
            let w: i32 = self.model.l1.weights[bucket * 64 + 32 + j] as i32;
            proof {
                lemma_dot_half_bounds(self.model.l1.weights@, stm_acc@, bucket as int, 0, 32);
                lemma_dot_half_bounds(self.model.l1.weights@, opp_acc@, bucket as int, 32, j as int);
                assert(c * w <= 127 * 127 && c * w >= -(127 * 128)) by (nonlinear_arith)
                    requires
                        0 <= c <= 127,
                        -128 <= w <= 127,
                ;
            }
            out = out + c * w;
        }
        let out_b: i32 = out + self.model.l1.bias[bucket];
        let scaled: i32 = if out_b >= 0 {
            let m: u64 = (out_b as u64) * 203;
            ((m / 64) / 127) as i32
        } else {
            let m: u64 = ((-out_b) as u64) * 203;
            -(((m / 64) / 127) as i32)
        };
        proof {
            vstd::arithmetic::div_mod::lemma_div_is_ordered(
                0,
                if out_b as int >= 0 {
                    out_b as int
                } else {
                    -(out_b as int)
                } * 203 / 64,
                127,
            );
        }
        scaled
    }
}

} // verus!
