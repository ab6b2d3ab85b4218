//! Packing two numbers below 2^64 into one `u128` lookup key.

use vstd::prelude::*;

verus! {

pub const KEY_SHIFT: u128 = 0x1_0000_0000_0000_0000;

/// The key of the pair `(x, y)`: `x` in the high half, `y` in the low half.
pub open spec fn pair_key(x: int, y: int) -> u128 {
    (x * KEY_SHIFT + y) as u128
}

/// Pairs of numbers below 2^64 have distinct keys.
pub proof fn lemma_pair_key_injective(x: int, y: int, z: int, w: int)
    requires
        0 <= x < KEY_SHIFT,
        0 <= y < KEY_SHIFT,
        0 <= z < KEY_SHIFT,
        0 <= w < KEY_SHIFT,
        pair_key(x, y) == pair_key(z, w),
    ensures
        x == z && y == w,
{
    let m = KEY_SHIFT as int;
    assert(x * m + y == z * m + w) by {
        assert(x * m + y < m * m) by (nonlinear_arith)
            requires
                0 <= x < m,
                0 <= y < m,
        ;
        assert(z * m + w < m * m) by (nonlinear_arith)
            requires
                0 <= z < m,
                0 <= w < m,
        ;
    }
    assert(x == z) by (nonlinear_arith)
        requires
            x * m + y == z * m + w,
            0 <= y < m,
            0 <= w < m,
            0 <= x,
            0 <= z,
    ;
}

pub fn pair_key_of(x: u64, y: u64) -> (k: u128)
    ensures
        k == pair_key(x as int, y as int),
{
    assert(x as int * KEY_SHIFT + y as int <= u128::MAX) by (nonlinear_arith)
        requires
            0 <= x < KEY_SHIFT,
            0 <= y < KEY_SHIFT,
    ;
    (x as u128) * KEY_SHIFT + (y as u128)
}

} // verus!
