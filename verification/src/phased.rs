//! A score as a (midgame, endgame) pair of 16-bit values, combined by
//! phase interpolation. All pair arithmetic wraps at 16 bits, uniformly.

use vstd::prelude::*;
use vstd::wrapping::i16_specs;

verus! {

/// Reduce a mathematical integer to the 16-bit two's-complement range.
pub open spec fn wrap16(x: int) -> int {
    i16_specs::signed_crop(x) as int
}

/// The 16-bit value an integer wraps to.
pub open spec fn crop_i16(x: int) -> i16 {
    i16_specs::signed_crop(x)
}

/// The zero score pair.
pub open spec fn pzero() -> PhasedEval {
    PhasedEval { mg: 0i16, eg: 0i16 }
}

/// A midgame/endgame score pair.
#[derive(Clone, Copy, PartialEq, Eq, Structural, Debug)]
pub struct PhasedEval {
    pub mg: i16,
    pub eg: i16,
}

impl PhasedEval {
    pub fn new(mg: i16, eg: i16) -> (r: PhasedEval)
        ensures
            r.mg == mg,
            r.eg == eg,
    {
        PhasedEval { mg, eg }
    }

    pub fn zero() -> (r: PhasedEval)
        ensures
            r.mg == 0,
            r.eg == 0,
    {
        PhasedEval { mg: 0, eg: 0 }
    }

    /// Componentwise wrapping sum.
    pub fn padd(self, o: PhasedEval) -> (r: PhasedEval)
        ensures
            r.mg == wrap16(self.mg + o.mg),
            r.eg == wrap16(self.eg + o.eg),
    {
        PhasedEval { mg: self.mg.wrapping_add(o.mg), eg: self.eg.wrapping_add(o.eg) }
    }

    /// Componentwise wrapping difference.
    pub fn psub(self, o: PhasedEval) -> (r: PhasedEval)
        ensures
            r.mg == wrap16(self.mg - o.mg),
            r.eg == wrap16(self.eg - o.eg),
    {
        PhasedEval { mg: self.mg.wrapping_sub(o.mg), eg: self.eg.wrapping_sub(o.eg) }
    }
}

/// A wrapped summand may be unwrapped under an outer wrap.
pub proof fn lemma_wrap16_add(x: int, y: int)
    ensures
        wrap16(wrap16(x) + y) == wrap16(x + y),
{
}

/// A wrapped minuend may be unwrapped under an outer wrap.
pub proof fn lemma_wrap16_sub(x: int, y: int)
    ensures
        wrap16(wrap16(x) - y) == wrap16(x - y),
{
}

/// A wrapped addend may be unwrapped under an outer wrap.
pub proof fn lemma_wrap16_addu(x: int, y: int)
    ensures
        wrap16(x + wrap16(y)) == wrap16(x + y),
{
}

/// A wrapped subtrahend may be unwrapped under an outer wrap.
pub proof fn lemma_wrap16_subu(x: int, y: int)
    ensures
        wrap16(x - wrap16(y)) == wrap16(x - y),
{
}

} // verus!
