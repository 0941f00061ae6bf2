//! Arithmetic on a ring of anchors: indices that wrap round at the number
//! of points.

use vstd::prelude::*;
use vstd::arithmetic::div_mod::{
    lemma_add_mod_noop_right,
    lemma_fundamental_div_mod,
    lemma_mod_bound,
    lemma_mod_equivalence,
};

verus! {

/// The index that lies `offset` places after `current` on a ring of `len`
/// anchors. A negative offset goes backwards.
pub open spec fn ring_add(current: int, offset: int, len: int) -> int {
    (current + offset) % len
}

/// Indices on a ring are below its length.
pub proof fn lemma_ring_add_bound(current: int, offset: int, len: int)
    requires
        len > 0,
    ensures
        0 <= ring_add(current, offset, len) < len,
{
    lemma_mod_bound(current + offset, len);
}

/// An offset counts only by its remainder.
pub proof fn lemma_ring_add_wraps(current: int, offset: int, len: int)
    requires
        len > 0,
    ensures
        ring_add(current, offset % len, len) == ring_add(current, offset, len),
{
    lemma_add_mod_noop_right(current, offset, len);
}

/// Two offsets below the length lead to the same index only if they are the
/// same.
pub proof fn lemma_ring_add_injective(current: int, a: int, b: int, len: int)
    requires
        len > 0,
        0 <= a < len,
        0 <= b < len,
        ring_add(current, a, len) == ring_add(current, b, len),
    ensures
        a == b,
{
    lemma_mod_equivalence(current + a, current + b, len);
    let d = (current + a) - (current + b);
    assert(d % len == 0);
    lemma_fundamental_div_mod(d, len);
    let q = d / len;
    assert(d == len * q);
    if q >= 1 {
        assert(len * q >= len) by (nonlinear_arith)
            requires
                q >= 1,
                len > 0,
        ;
    }
    if q <= -1 {
        assert(len * q <= -len) by (nonlinear_arith)
            requires
                q <= -1,
                len > 0,
        ;
    }
    if q == 0 {
        assert(len * q == 0) by (nonlinear_arith)
            requires
                q == 0,
        ;
    }
}

/// Computes `ring_add` for an index and an offset of machine size.
pub(crate) fn ring_step(current: usize, offset: i128, len: usize) -> (index: usize)
    requires
        len >= 1,
        -0x1_0000_0000_0000_0000 <= offset <= 0x1_0000_0000_0000_0000,
    ensures
        index == ring_add(current as int, offset as int, len as int),
        index < len,
{
    let sum: i128 = current as i128 + offset;
    proof {
        lemma_ring_add_bound(current as int, offset as int, len as int);
    }
    match sum.checked_rem_euclid(len as i128) {
        Some(index) => index as usize,
        None => 0,
    }
}

} // verus!
