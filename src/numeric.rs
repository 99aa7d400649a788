//! Integer arithmetic shared by the simulation: truncating division, range
//! limits, and the vector helpers of the `graphics` crate.
use vstd::prelude::*;
use vstd::arithmetic::div_mod::{lemma_div_is_ordered, lemma_div_by_multiple, lemma_div_pos_is_pos};

verus! {

/// Largest magnitude of a coordinate, a velocity component, a radius or an
/// enclosure extent.
pub const LIMIT: i64 = 1073741824;

/// Largest mass of a body.
pub const MASS_LIMIT: i64 = 1048576;

/// Damping coefficients are given in thousandths: this value is perfectly elastic.
pub const DAMPING_SCALE: i64 = 1000;

/// Time steps are given in milliseconds, velocities in units per second.
pub const TIME_SCALE: i64 = 1000;

/// `v` lies within `[-LIMIT, LIMIT]`.
pub open spec fn in_range(v: int) -> bool {
    -LIMIT <= v <= LIMIT
}

/// Division rounding toward zero (the quotient of Rust's `/`), for `b > 0`.
pub open spec fn tdiv(a: int, b: int) -> int {
    if a >= 0 {
        a / b
    } else {
        -((-a) / b)
    }
}

pub open spec fn abs(a: int) -> int {
    if a >= 0 {
        a
    } else {
        -a
    }
}

/// `r` is the square root of `n` rounded down.
pub open spec fn is_floor_sqrt(r: int, n: int) -> bool {
    0 <= r && r * r <= n < (r + 1) * (r + 1)
}

/// The square root of `n` rounded down.
pub open spec fn floor_sqrt(n: int) -> int {
    choose|r: int| is_floor_sqrt(r, n)
}

/// Truncating division is odd in its numerator.
pub proof fn lemma_tdiv_neg(a: int, b: int)
    requires
        b > 0,
    ensures
        tdiv(-a, b) == -tdiv(a, b),
{
    if a == 0 {
        assert(0int / b == 0) by (nonlinear_arith)
            requires
                b > 0,
        ;
    }
}

/// The quotient has the sign of the numerator.
pub proof fn lemma_tdiv_sign(a: int, b: int)
    requires
        b > 0,
    ensures
        a >= 0 ==> tdiv(a, b) >= 0,
        a <= 0 ==> tdiv(a, b) <= 0,
{
    if a >= 0 {
        lemma_div_pos_is_pos(a, b);
    } else {
        lemma_div_pos_is_pos(-a, b);
    }
}

/// A numerator of at most `c` times the divisor gives a quotient of at most `c`.
pub proof fn lemma_tdiv_bound(a: int, b: int, c: int)
    requires
        b > 0,
        c >= 0,
        abs(a) <= c * b,
    ensures
        abs(tdiv(a, b)) <= c,
{
    assert(c * b >= 0) by (nonlinear_arith)
        requires
            b > 0,
            c >= 0,
    ;
    lemma_div_is_ordered(abs(a), c * b, b);
    lemma_div_by_multiple(c, b);
    lemma_div_pos_is_pos(abs(a), b);
}

/// Scaling numerator and divisor by the same positive factor keeps the quotient.
pub proof fn lemma_tdiv_cancel(a: int, b: int, k: int)
    requires
        b > 0,
        k > 0,
    ensures
        tdiv(k * a, k * b) == tdiv(a, b),
{
    vstd::arithmetic::div_mod::lemma_div_multiples_vanish_quotient(k, abs(a), b);
    if a < 0 {
        assert(-(k * a) == k * (-a)) by (nonlinear_arith);
        assert(k * a < 0) by (nonlinear_arith)
            requires
                k > 0,
                a < 0,
        ;
    } else {
        assert(k * a >= 0) by (nonlinear_arith)
            requires
                k > 0,
                a >= 0,
        ;
    }
}

/// Every natural number has a floor square root.
pub proof fn lemma_floor_sqrt_exists(n: int)
    requires
        n >= 0,
    ensures
        is_floor_sqrt(floor_sqrt(n), n),
    decreases n,
{
    if n == 0 {
        assert(is_floor_sqrt(0, 0));
    } else {
        lemma_floor_sqrt_exists(n - 1);
        let r = floor_sqrt(n - 1);
        if (r + 1) * (r + 1) <= n {
            assert((r + 1) * (r + 1) >= n) by (nonlinear_arith)
                requires
                    n - 1 < (r + 1) * (r + 1),
            ;
            assert(n < (r + 2) * (r + 2)) by (nonlinear_arith)
                requires
                    (r + 1) * (r + 1) == n,
                    r >= 0,
            ;
            assert(is_floor_sqrt(r + 1, n));
        } else {
            assert(is_floor_sqrt(r, n));
        }
    }
}

/// The floor square root is unique.
pub proof fn lemma_floor_sqrt_unique(r: int, n: int)
    requires
        is_floor_sqrt(r, n),
    ensures
        floor_sqrt(n) == r,
{
    let q = floor_sqrt(n);
    assert(is_floor_sqrt(q, n));
    if q < r {
        assert((q + 1) * (q + 1) <= r * r) by (nonlinear_arith)
            requires
                0 <= q < r,
        ;
    } else if q > r {
        assert((r + 1) * (r + 1) <= q * q) by (nonlinear_arith)
            requires
                0 <= r < q,
        ;
    }
}

/// Quotient of `a` by `b > 0`, rounded toward zero.
pub fn trunc_div(a: i128, b: i128) -> (r: i128)
    requires
        b > 0,
        a > i128::MIN,
    ensures
        r == tdiv(a as int, b as int),
        abs(r as int) <= abs(a as int),
{
    if a >= 0 {
        proof {
            assert(a * 1 <= a * b) by (nonlinear_arith)
                requires
                    a >= 0,
                    b >= 1,
            ;
            lemma_tdiv_bound(a as int, b as int, a as int);
        }
        a / b
    } else {
        let n: i128 = -a;
        proof {
            assert(n * 1 <= n * b) by (nonlinear_arith)
                requires
                    n >= 0,
                    b >= 1,
            ;
            lemma_tdiv_bound(n as int, b as int, n as int);
        }
        -(n / b)
    }
}

/// Relies on `u64::isqrt`: the square root rounded down.
#[verifier::external_body]
pub(crate) fn isqrt(n: u64) -> (r: u64)
    ensures
        is_floor_sqrt(r as int, n as int),
{
    n.isqrt()
}

/// Relies on `graphics::math::sub` (vecmath's `vec2_sub`): the componentwise
/// difference `[a[0] - b[0], a[1] - b[1]]`.
#[verifier::external_body]
pub(crate) fn vec_sub(a: [i64; 2], b: [i64; 2]) -> (r: [i64; 2])
    requires
        i64::MIN <= a[0] - b[0] <= i64::MAX,
        i64::MIN <= a[1] - b[1] <= i64::MAX,
    ensures
        r[0] == a[0] - b[0],
        r[1] == a[1] - b[1],
{
    graphics::math::sub(a, b)
}

/// Relies on `graphics::math::dot` (vecmath's `vec2_dot`): the dot product
/// `a[0] * b[0] + a[1] * b[1]`.
#[verifier::external_body]
pub(crate) fn vec_dot(a: [i128; 2], b: [i128; 2]) -> (r: i128)
    requires
        i128::MIN <= a[0] * b[0] <= i128::MAX,
        i128::MIN <= a[1] * b[1] <= i128::MAX,
        i128::MIN <= a[0] * b[0] + a[1] * b[1] <= i128::MAX,
    ensures
        r == a[0] * b[0] + a[1] * b[1],
{
    graphics::math::dot(a, b)
}

/// Relies on `graphics::math::square_len` (vecmath's `vec2_square_len`): the
/// squared length `a[0] * a[0] + a[1] * a[1]`.
#[verifier::external_body]
pub(crate) fn vec_square_len(a: [i128; 2]) -> (r: i128)
    requires
        a[0] * a[0] + a[1] * a[1] <= i128::MAX,
    ensures
        r == a[0] * a[0] + a[1] * a[1],
{
    graphics::math::square_len(a)
}

} // verus!
