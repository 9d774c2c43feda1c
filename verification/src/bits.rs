//! Bitboard primitives: single-bit tests, population count, and the
//! few bit-level lemmas the evaluator needs.

use vstd::prelude::*;

verus! {

/// Whether bit `i` of `b` is set. Bits at index 64 and above do not exist.
pub open spec fn bit64(b: u64, i: u64) -> bool {
    i < 64 && (b >> i) & 1u64 == 1u64
}

/// Number of set bits of `b` among bit positions below `n`.
pub open spec fn popcnt_to(b: u64, n: int) -> int
    decreases n,
{
    if n <= 0 {
        0
    } else {
        popcnt_to(b, n - 1) + if bit64(b, (n - 1) as u64) {
            1int
        } else {
            0int
        }
    }
}

/// Number of set bits of `b`.
pub open spec fn popcnt(b: u64) -> int {
    popcnt_to(b, 64)
}

pub proof fn lemma_popcnt_to_bounds(b: u64, n: int)
    requires
        0 <= n,
    ensures
        0 <= popcnt_to(b, n) <= n,
    decreases n,
{
    if n > 0 {
        lemma_popcnt_to_bounds(b, n - 1);
    }
}

/// Bits of a union.
pub proof fn lemma_bit_or(a: u64, b: u64, i: u64)
    ensures
        bit64(a | b, i) == (bit64(a, i) || bit64(b, i)),
{
    assert(i < 64 ==> (((a | b) >> i) & 1u64 == 1u64) == (((a >> i) & 1u64 == 1u64) || ((b >> i)
        & 1u64 == 1u64))) by (bit_vector);
}

/// Bits of an intersection.
pub proof fn lemma_bit_and(a: u64, b: u64, i: u64)
    ensures
        bit64(a & b, i) == (bit64(a, i) && bit64(b, i)),
{
    assert(i < 64 ==> (((a & b) >> i) & 1u64 == 1u64) == (((a >> i) & 1u64 == 1u64) && ((b >> i)
        & 1u64 == 1u64))) by (bit_vector);
}

/// Bits of a complement.
pub proof fn lemma_bit_not(a: u64, i: u64)
    ensures
        i < 64 ==> bit64(!a, i) == !bit64(a, i),
{
    assert(i < 64 ==> (((!a) >> i) & 1u64 == 1u64) == !((a >> i) & 1u64 == 1u64))
        by (bit_vector);
}

/// Bits of a single-bit word.
pub proof fn lemma_bit_single(s: u64, i: u64)
    requires
        s < 64,
    ensures
        bit64(1u64 << s, i) == (i == s),
{
    assert(s < 64 && i < 64 ==> (((1u64 << s) >> i) & 1u64 == 1u64) == (i == s))
        by (bit_vector);
    assert(s < 64 && i >= 64 ==> (i != s)) by (bit_vector);
}

/// The word with no bits set has no bits set.
pub proof fn lemma_bit_zero(i: u64)
    ensures
        !bit64(0u64, i),
{
    assert((0u64 >> i) & 1u64 == 0u64) by (bit_vector);
}

/// A nonzero word has a set bit.
pub proof fn lemma_nonzero_has_bit(a: u64)
    requires
        a != 0,
    ensures
        exists|i: u64| bit64(a, i),
{
    vstd::std_specs::bits::axiom_u64_trailing_zeros(a);
    let tz = vstd::std_specs::bits::u64_trailing_zeros(a) as u64;
    assert(bit64(a, tz));
}

/// An intersection is empty exactly when the two words share no bit.
pub proof fn lemma_empty_and(a: u64, b: u64)
    ensures
        (a & b == 0) <==> (forall|i: u64| !(bit64(a, i) && bit64(b, i))),
{
    if a & b != 0 {
        lemma_nonzero_has_bit(a & b);
        let i = choose|i: u64| bit64(a & b, i);
        lemma_bit_and(a, b, i);
    } else {
        assert forall|i: u64| !(bit64(a, i) && bit64(b, i)) by {
            lemma_bit_and(a, b, i);
            lemma_bit_zero(i);
        }
    }
}

/// Clearing a set bit lowers the population count by one.
pub proof fn lemma_popcnt_remove(x: u64, s: u64)
    requires
        s < 64,
        bit64(x, s),
    ensures
        popcnt(x & !(1u64 << s)) == popcnt(x) - 1,
{
    let y = x & !(1u64 << s);
    assert forall|i: u64| i < 64 implies bit64(y, i) == (bit64(x, i) && i != s) by {
        lemma_bit_and(x, !(1u64 << s), i);
        lemma_bit_not(1u64 << s, i);
        lemma_bit_single(s, i);
    }
    lemma_popcnt_remove_to(x, y, s, 64);
}

proof fn lemma_popcnt_remove_to(x: u64, y: u64, s: u64, n: int)
    requires
        s < 64,
        bit64(x, s),
        forall|i: u64| i < 64 ==> bit64(y, i) == (bit64(x, i) && i != s),
        0 <= n <= 64,
    ensures
        popcnt_to(y, n) == popcnt_to(x, n) - if s < n {
            1int
        } else {
            0int
        },
    decreases n,
{
    if n > 0 {
        lemma_popcnt_remove_to(x, y, s, n - 1);
    }
}

/// Number of square indices below `n` satisfying `f`.
pub open spec fn count_sat(f: spec_fn(u64) -> bool, n: int) -> int
    decreases n,
{
    if n <= 0 {
        0
    } else {
        count_sat(f, n - 1) + if f((n - 1) as u64) {
            1int
        } else {
            0int
        }
    }
}

pub proof fn lemma_count_sat_bounds(f: spec_fn(u64) -> bool, n: int)
    requires
        0 <= n,
    ensures
        0 <= count_sat(f, n) <= n,
    decreases n,
{
    if n > 0 {
        lemma_count_sat_bounds(f, n - 1);
    }
}

/// A word whose bits realize a predicate has the predicate's count.
pub proof fn lemma_popcnt_matches(m: u64, f: spec_fn(u64) -> bool, n: int)
    requires
        forall|j: u64| j < 64 ==> bit64(m, j) == f(j),
        0 <= n <= 64,
    ensures
        popcnt_to(m, n) == count_sat(f, n),
    decreases n,
{
    if n > 0 {
        lemma_popcnt_matches(m, f, n - 1);
    }
}

/// Count the set bits of a word.
pub fn count_bits(b: u64) -> (r: u32)
    ensures
        r == popcnt(b),
        r <= 64,
{
    let mut r: u32 = 0;
    for i in 0..64u64
        invariant
            r == popcnt_to(b, i as int),
            r <= i,
    {
        if (b >> i) & 1u64 == 1u64 {
            r = r + 1;
        }
    }
    r
}

} // verus!
