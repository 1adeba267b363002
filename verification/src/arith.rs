//! Integer arithmetic shared by the geometry: division with a stated
//! rounding, and saturation to 32 bits.

use vstd::prelude::*;
use vstd::arithmetic::div_mod::{lemma_fundamental_div_mod, lemma_mod_bound};

verus! {

/// For a positive divisor the quotient is the floor: `m <= n / q` exactly
/// when `m * q <= n`.
pub proof fn lemma_floor_div(n: int, q: int, m: int)
    requires
        q > 0,
    ensures
        m <= n / q <==> m * q <= n,
{
    let k = n / q;
    let r = n % q;
    lemma_fundamental_div_mod(n, q);
    lemma_mod_bound(n, q);
    assert(m <= k <==> m * q <= n) by (nonlinear_arith)
        requires
            n == q * k + r,
            0 <= r < q,
    ;
}

/// The floor of a quotient by a positive divisor is no larger in magnitude
/// than the dividend.
pub proof fn lemma_floor_div_bounds(n: int, q: int)
    requires
        q > 0,
    ensures
        n >= 0 ==> 0 <= n / q <= n,
        n < 0 ==> n <= n / q < 0,
{
    lemma_floor_div(n, q, 0);
    lemma_floor_div(n, q, 1);
    lemma_floor_div(n, q, n);
    lemma_floor_div(n, q, n + 1);
    assert(n >= 0 ==> n * q >= n && (n + 1) * q > n) by (nonlinear_arith)
        requires
            q > 0,
    ;
    assert(n < 0 ==> n * q <= n) by (nonlinear_arith)
        requires
            q > 0,
    ;
    assert(0 * q == 0 && 1 * q == q);
}

/// Divides by a positive number, rounding toward negative infinity.
pub fn floor_div(n: i128, q: i128) -> (r: i128)
    requires
        q > 0,
    ensures
        r == n as int / q as int,
{
    proof {
        lemma_floor_div_bounds(n as int, q as int);
    }
    match n.checked_div_euclid(q) {
        Some(v) => v,
        None => 0,
    }
}

/// The quotient of `n` by a positive `q`, rounded toward zero.
pub open spec fn toward_zero(n: int, q: int) -> int {
    if n >= 0 {
        n / q
    } else {
        -((-n) / q)
    }
}

/// Rounded toward zero, a quotient by a positive divisor is no larger in
/// magnitude than the dividend.
pub proof fn lemma_toward_zero_bounds(n: int, q: int)
    requires
        q > 0,
    ensures
        n >= 0 ==> 0 <= toward_zero(n, q) <= n,
        n < 0 ==> n <= toward_zero(n, q) <= 0,
{
    lemma_floor_div_bounds(n, q);
    lemma_floor_div_bounds(-n, q);
}

/// Divides by a positive number, rounding toward zero.
pub fn trunc_div(n: i128, q: i128) -> (r: i128)
    requires
        q > 0,
        n > i128::MIN,
    ensures
        r == toward_zero(n as int, q as int),
{
    proof {
        lemma_floor_div_bounds(-n, q as int);
    }
    if n >= 0 {
        floor_div(n, q)
    } else {
        -floor_div(-n, q)
    }
}

/// The value nearest to `v` that a signed 32-bit integer holds.
pub open spec fn saturated(v: int) -> int {
    if v < i32::MIN {
        i32::MIN as int
    } else if v > i32::MAX {
        i32::MAX as int
    } else {
        v
    }
}

/// Narrows to 32 bits, saturating at the ends of the range.
pub fn saturate(v: i128) -> (r: i32)
    ensures
        r == saturated(v as int),
{
    if v < i32::MIN as i128 {
        i32::MIN
    } else if v > i32::MAX as i128 {
        i32::MAX
    } else {
        v as i32
    }
}

} // verus!
