//! Exact integer division: floor, ceiling and round-to-nearest quotients,
//! with the lemmas the projection round-trip laws rest on.
//!
//! Throughout, divisors are positive, and `/` in specifications is the
//! Euclidean division of the verifier, which coincides with floor division
//! for a positive divisor.

use vstd::prelude::*;

verus! {

/// `a / b` rounded up, for a positive divisor and a non-negative dividend.
pub open spec fn ceil_div(a: int, b: int) -> int {
    (a + b - 1) / b
}

/// `a / b` rounded to the nearest integer, ties toward positive infinity,
/// for a positive divisor.
pub open spec fn round_div(a: int, b: int) -> int {
    (2 * a + b) / (2 * b)
}

/// The quotient is pinned by any bracketing pair of multiples.
pub proof fn lemma_div_range(a: int, q: int, b: int)
    by (nonlinear_arith)
    requires
        b > 0,
        q * b <= a < (q + 1) * b,
    ensures
        a / b == q,
{
}

/// Division by a positive divisor is monotone in the dividend.
pub proof fn lemma_div_ordered(x: int, y: int, b: int)
    by (nonlinear_arith)
    requires
        b > 0,
        x <= y,
    ensures
        x / b <= y / b,
{
}

/// The fundamental bracketing of Euclidean division.
pub proof fn lemma_div_bounds(a: int, b: int)
    by (nonlinear_arith)
    requires
        b > 0,
    ensures
        b * (a / b) <= a < b * (a / b) + b,
{
}

/// A dividend strictly below `q * b` has quotient strictly below `q`.
pub proof fn lemma_div_below(a: int, q: int, b: int)
    by (nonlinear_arith)
    requires
        b > 0,
        0 <= a < q * b,
    ensures
        a / b < q,
{
}

/// A rounded quotient stays within any bound on the exact quotient.
pub proof fn lemma_round_div_bound(a: int, b: int, c: int)
    requires
        b > 0,
        c >= 0,
        -c * b <= a <= c * b,
    ensures
        -c <= round_div(a, b) <= c,
{
    assert(2 * a + b <= 2 * (c * b) + b) by (nonlinear_arith)
        requires a <= c * b;
    assert(2 * a + b >= 2 * (-c * b) + b) by (nonlinear_arith)
        requires a >= -c * b;
    assert((2 * (c * b) + b) / (2 * b) == c) by {
        assert(c * (2 * b) <= 2 * (c * b) + b < (c + 1) * (2 * b)) by (nonlinear_arith)
            requires b > 0;
        lemma_div_range(2 * (c * b) + b, c, 2 * b);
    }
    assert((2 * (-c * b) + b) / (2 * b) == -c) by {
        assert((-c) * (2 * b) <= 2 * (-c * b) + b < (-c + 1) * (2 * b)) by (nonlinear_arith)
            requires b > 0;
        lemma_div_range(2 * (-c * b) + b, -c, 2 * b);
    }
    lemma_div_ordered(2 * a + b, 2 * (c * b) + b, 2 * b);
    lemma_div_ordered(2 * (-c * b) + b, 2 * a + b, 2 * b);
}

/// Rounding is monotone in the dividend.
pub proof fn lemma_round_div_ordered(a1: int, a2: int, b: int)
    requires
        b > 0,
        a1 <= a2,
    ensures
        round_div(a1, b) <= round_div(a2, b),
{
    lemma_div_ordered(2 * a1 + b, 2 * a2 + b, 2 * b);
}

/// Scaling up by `n / d` with rounding and back down again is the identity
/// whenever the scale is strictly greater than one.
pub proof fn lemma_round_div_round_trip(w: int, n: int, d: int)
    requires
        0 < d < n,
    ensures
        round_div(round_div(w * n, d) * d, n) == w,
{
    let m = round_div(w * n, d);
    // m is the rounded quotient of w*n by d: 2*d*m is within d of 2*w*n.
    lemma_div_bounds(2 * (w * n) + d, 2 * d);
    assert((2 * d) * m <= 2 * (w * n) + d < (2 * d) * m + 2 * d);
    assert(2 * (m * d) == (2 * d) * m) by (nonlinear_arith);
    // Hence 2*(m*d) + n lies strictly between 2*w*n and 2*w*n + 2*n.
    assert(w * (2 * n) <= 2 * (m * d) + n < (w + 1) * (2 * n)) by (nonlinear_arith)
        requires
            0 < d < n,
            2 * (m * d) <= 2 * (w * n) + d,
            2 * (w * n) + d < 2 * (m * d) + 2 * d,
    ;
    lemma_div_range(2 * (m * d) + n, w, 2 * n);
}

/// Floor division of a signed 128-bit value by a positive divisor.
fn floor_div_i128(a: i128, b: i128) -> (r: i128)
    requires
        0 < b < 0x4000_0000_0000_0000_0000_0000_0000_0000,
        -0x4000_0000_0000_0000_0000_0000_0000_0000 < a
            < 0x4000_0000_0000_0000_0000_0000_0000_0000,
    ensures
        r == a as int / b as int,
{
    if a >= 0 {
        let q = (a as u128) / (b as u128);
        proof {
            assert(q == a as int / b as int);
        }
        q as i128
    } else {
        let na = (-a) as u128;
        let bu = b as u128;
        let q = (na + bu - 1) / bu;
        proof {
            assert(-(((-(a as int)) + b - 1) / (b as int)) == a as int / b as int)
                by (nonlinear_arith)
                requires
                    b > 0,
                    a < 0,
            ;
            assert(q <= na) by {
                lemma_div_bounds((na + bu - 1) as int, bu as int);
                assert(bu * q <= na + bu - 1);
                assert(bu >= 1 && q >= 0 && na >= 1);
                assert((bu * q <= na + bu - 1 && bu >= 1 && q >= 0 && na >= 1) ==> q <= na)
                    by (nonlinear_arith);
            }
        }
        -(q as i128)
    }
}

/// `round_div(a1 * a2, b)`, computed without overflow in 128-bit arithmetic.
pub fn round_div_prod(a1: i64, a2: i64, b: i64) -> (r: i64)
    requires
        0 < b,
        -0x2000_0000_0000_0000 * (b as int) <= a1 as int * a2 as int
            <= 0x2000_0000_0000_0000 * (b as int),
    ensures
        r == round_div(a1 as int * a2 as int, b as int),
        -0x2000_0000_0000_0000 <= r <= 0x2000_0000_0000_0000,
{
    proof {
        lemma_round_div_bound(a1 as int * a2 as int, b as int, 0x2000_0000_0000_0000);
    }
    let p = (a1 as i128) * (a2 as i128);
    let num = 2 * p + (b as i128);
    let q = floor_div_i128(num, 2 * (b as i128));
    q as i64
}

} // verus!
