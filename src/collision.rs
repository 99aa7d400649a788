//! Pairwise collision resolution: positional separation along the contact
//! normal and a one-dimensional elastic exchange of normal velocity.
use vstd::prelude::*;
use crate::ball::{Ball, SimError};
use crate::numeric::{
    abs, floor_sqrt, in_range, is_floor_sqrt, isqrt, lemma_floor_sqrt_exists, lemma_floor_sqrt_unique, lemma_tdiv_bound, lemma_tdiv_cancel, lemma_tdiv_neg, lemma_tdiv_sign,
    tdiv, trunc_div, vec_dot, vec_square_len, vec_sub, DAMPING_SCALE, LIMIT, MASS_LIMIT,
};

verus! {

/// Largest magnitude of the positional correction one contact applies on an axis.
pub const SHIFT_LIMIT: i128 = 2147483648;

/// Largest magnitude of the velocity change one contact applies on an axis.
pub const KICK_LIMIT: i128 = 17179869184;

/// The change one contact makes to a body: position and velocity deltas.
pub struct Push {
    pub dp: Seq<int>,
    pub dv: Seq<int>,
}

/// Coordinate `axis` of `a.position - b.position`.
pub open spec fn offset(a: Ball, b: Ball, axis: int) -> int {
    a.position[axis] - b.position[axis]
}

/// The squared distance between the centres.
pub open spec fn sq_dist(a: Ball, b: Ball) -> int {
    offset(a, b, 0) * offset(a, b, 0) + offset(a, b, 1) * offset(a, b, 1)
}

/// The circles touch or overlap, and the centres are distinct.
pub open spec fn in_contact(a: Ball, b: Ball) -> bool {
    sq_dist(a, b) != 0 && sq_dist(a, b) <= (a.radius + b.radius) * (a.radius + b.radius)
}

/// The distance between the centres, rounded down.
pub open spec fn dist(a: Ball, b: Ball) -> int {
    floor_sqrt(sq_dist(a, b))
}

/// How far `a` moves on `axis` away from `b`: half the penetration, along the
/// contact normal `offset / dist`.
pub open spec fn shift(a: Ball, b: Ball, axis: int) -> int {
    tdiv(offset(a, b, axis) * (a.radius + b.radius - dist(a, b)), 2 * dist(a, b))
}

/// The relative velocity `b.velocity - a.velocity` dotted with the offset
/// `a.position - b.position`; positive when the bodies approach.
pub open spec fn approach(a: Ball, b: Ball) -> int {
    let u0 = b.velocity[0] - a.velocity[0];
    let u1 = b.velocity[1] - a.velocity[1];
    u0 * offset(a, b, 0) + u1 * offset(a, b, 1)
}

/// The change of `a`'s velocity on `axis`: the elastic formula's change of normal
/// velocity, `m_b (1 + damping) (v_b - v_a) / (m_a + m_b)`, along the contact normal.
pub open spec fn kick(a: Ball, b: Ball, damping: int, axis: int) -> int {
    tdiv(
        b.mass * (DAMPING_SCALE + damping) * approach(a, b) * offset(a, b, axis),
        DAMPING_SCALE * (a.mass + b.mass) * sq_dist(a, b),
    )
}

/// What `b` does to `a` in a collision: nothing without contact.
pub open spec fn push_on(a: Ball, b: Ball, damping: int) -> Push {
    if in_contact(a, b) {
        Push {
            dp: seq![shift(a, b, 0), shift(a, b, 1)],
            dv: seq![kick(a, b, damping, 0), kick(a, b, damping, 1)],
        }
    } else {
        Push { dp: seq![0, 0], dv: seq![0, 0] }
    }
}

/// `a` with the push applied stays in range.
pub open spec fn push_fits(a: Ball, p: Push) -> bool {
    &&& in_range(a.position[0] + p.dp[0])
    &&& in_range(a.position[1] + p.dp[1])
    &&& in_range(a.velocity[0] + p.dv[0])
    &&& in_range(a.velocity[1] + p.dv[1])
}

/// `a` with the push applied.
pub open spec fn pushed(a: Ball, p: Push) -> Ball {
    Ball {
        position: [(a.position[0] + p.dp[0]) as i64, (a.position[1] + p.dp[1]) as i64],
        velocity: [(a.velocity[0] + p.dv[0]) as i64, (a.velocity[1] + p.dv[1]) as i64],
        ..a
    }
}

/// The outcome of resolving `a` against `b`: no contact, the new pair, or a
/// result out of range.
pub open spec fn collision(a: Ball, b: Ball, damping: int) -> Result<Option<(Ball, Ball)>, SimError> {
    if !in_contact(a, b) {
        Ok(None)
    } else if push_fits(a, push_on(a, b, damping)) && push_fits(b, push_on(b, a, damping)) {
        Ok(Some((pushed(a, push_on(a, b, damping)), pushed(b, push_on(b, a, damping)))))
    } else {
        Err(SimError::OutOfRange)
    }
}

/// Bounds on the pieces of a contact between well-formed balls.
proof fn lemma_contact_bounds(a: Ball, b: Ball, damping: int)
    requires
        a.wf(),
        b.wf(),
        0 <= damping <= DAMPING_SCALE,
        in_contact(a, b),
    ensures
        1 <= dist(a, b) <= a.radius + b.radius,
        abs(shift(a, b, 0)) <= SHIFT_LIMIT,
        abs(shift(a, b, 1)) <= SHIFT_LIMIT,
        abs(kick(a, b, damping, 0)) <= KICK_LIMIT,
        abs(kick(a, b, damping, 1)) <= KICK_LIMIT,
{
    let dx = offset(a, b, 0);
    let dy = offset(a, b, 1);
    let s = sq_dist(a, b);
    let rs = a.radius + b.radius;
    let d = dist(a, b);
    assert(dx * dx >= 0 && dy * dy >= 0) by (nonlinear_arith);
    lemma_floor_sqrt_exists(s);
    assert(d >= 1) by (nonlinear_arith)
        requires
            is_floor_sqrt(d, s),
            s >= 1,
    ;
    assert(d <= rs) by (nonlinear_arith)
        requires
            d * d <= s,
            s <= rs * rs,
            rs > 0,
            d >= 0,
    ;
    lemma_offset_below_dist(dx, s, d);
    lemma_offset_below_dist(dy, s, d);
    let k = rs - d;
    lemma_shift_bound(dx, k, d);
    lemma_shift_bound(dy, k, d);
    lemma_kick_bound(a, b, damping, 0);
    lemma_kick_bound(a, b, damping, 1);
}

/// A coordinate of the offset is at most the rounded-down distance.
proof fn lemma_offset_below_dist(x: int, s: int, d: int)
    requires
        is_floor_sqrt(d, s),
        x * x <= s,
    ensures
        abs(x) <= d,
{
    let ax = abs(x);
    assert(ax * ax == x * x) by (nonlinear_arith)
        requires
            ax == x || ax == -x,
    ;
    if ax > d {
        assert(ax * ax >= (d + 1) * (d + 1)) by (nonlinear_arith)
            requires
                ax >= d + 1,
                d >= 0,
        ;
    }
}

/// The positional correction on one axis is at most the penetration.
proof fn lemma_shift_bound(x: int, k: int, d: int)
    requires
        abs(x) <= d,
        d >= 1,
        0 <= k,
    ensures
        abs(tdiv(x * k, 2 * d)) <= k,
{
    assert(abs(x * k) <= k * (2 * d)) by (nonlinear_arith)
        requires
            abs(x) <= d,
            d >= 1,
            0 <= k,
            abs(x) == x || abs(x) == -x,
            abs(x * k) == x * k || abs(x * k) == -(x * k),
    ;
    lemma_tdiv_bound(x * k, 2 * d, k);
}

/// The velocity change on one axis is at most twice the relative speed, in the
/// sum of its components.
proof fn lemma_kick_bound(a: Ball, b: Ball, damping: int, axis: int)
    requires
        a.wf(),
        b.wf(),
        0 <= damping <= DAMPING_SCALE,
        in_contact(a, b),
        axis == 0 || axis == 1,
    ensures
        abs(kick(a, b, damping, axis)) <= KICK_LIMIT,
{
    let dx = offset(a, b, 0);
    let dy = offset(a, b, 1);
    let s = sq_dist(a, b);
    let ux = abs(b.velocity[0] - a.velocity[0]);
    let uy = abs(b.velocity[1] - a.velocity[1]);
    let ax = abs(dx);
    let ay = abs(dy);
    let az = abs(offset(a, b, axis));
    let m = a.mass + b.mass;
    let f = b.mass * (DAMPING_SCALE + damping);
    let ap = approach(a, b);
    assert(ax * ax == dx * dx && ay * ay == dy * dy) by (nonlinear_arith)
        requires
            ax == dx || ax == -dx,
            ay == dy || ay == -dy,
    ;
    assert(abs(ap) <= ux * ax + uy * ay) by (nonlinear_arith)
        requires
            ap == (b.velocity[0] - a.velocity[0]) * dx + (b.velocity[1] - a.velocity[1]) * dy,
            ux == b.velocity[0] - a.velocity[0] || ux == -(b.velocity[0] - a.velocity[0]),
            uy == b.velocity[1] - a.velocity[1] || uy == -(b.velocity[1] - a.velocity[1]),
            ux >= 0,
            uy >= 0,
            ax == dx || ax == -dx,
            ay == dy || ay == -dy,
            ax >= 0,
            ay >= 0,
            abs(ap) == ap || abs(ap) == -ap,
    ;
    assert(ax * ay <= s && ax * ax <= s && ay * ay <= s) by (nonlinear_arith)
        requires
            s == ax * ax + ay * ay,
            ax >= 0,
            ay >= 0,
    ;
    assert(az == ax || az == ay);
    assert((ux * ax + uy * ay) * az <= (ux + uy) * s) by (nonlinear_arith)
        requires
            ax * ay <= s,
            ax * ax <= s,
            ay * ay <= s,
            az == ax || az == ay,
            ux >= 0,
            uy >= 0,
            ax >= 0,
            ay >= 0,
    ;
    assert(abs(ap) * az <= (ux * ax + uy * ay) * az) by (nonlinear_arith)
        requires
            abs(ap) <= ux * ax + uy * ay,
            az >= 0,
    ;
    let c = 2 * (ux + uy);
    let den = DAMPING_SCALE * m * s;
    let num = f * ap * offset(a, b, axis);
    assert(0 <= f <= 2 * DAMPING_SCALE * m) by (nonlinear_arith)
        requires
            f == b.mass * (DAMPING_SCALE + damping),
            0 < b.mass,
            0 < a.mass,
            m == a.mass + b.mass,
            0 <= damping <= DAMPING_SCALE,
    ;
    assert(abs(num) <= c * den) by (nonlinear_arith)
        requires
            num == f * ap * offset(a, b, axis),
            den == DAMPING_SCALE * m * s,
            c == 2 * (ux + uy),
            0 <= f <= 2 * DAMPING_SCALE * m,
            abs(ap) * az <= (ux * ax + uy * ay) * az,
            (ux * ax + uy * ay) * az <= (ux + uy) * s,
            az == offset(a, b, axis) || az == -offset(a, b, axis),
            az >= 0,
            abs(ap) == ap || abs(ap) == -ap,
            abs(num) == num || abs(num) == -num,
    ;
    assert(den > 0) by (nonlinear_arith)
        requires
            den == DAMPING_SCALE * m * s,
            m > 0,
            s > 0,
    ;
    lemma_tdiv_bound(num, den, c);
}

/// What `b` does to `a` in a collision with damping `damping` (in thousandths):
/// the position change and the velocity change of `a`, both zero without contact.
pub fn push_from(a: &Ball, b: &Ball, damping: i64) -> (r: ([i128; 2], [i128; 2]))
    requires
        a.wf(),
        b.wf(),
        0 <= damping <= DAMPING_SCALE,
    ensures
        r.0[0] == push_on(*a, *b, damping as int).dp[0],
        r.0[1] == push_on(*a, *b, damping as int).dp[1],
        r.1[0] == push_on(*a, *b, damping as int).dv[0],
        r.1[1] == push_on(*a, *b, damping as int).dv[1],
        -SHIFT_LIMIT <= r.0[0] <= SHIFT_LIMIT,
        -SHIFT_LIMIT <= r.0[1] <= SHIFT_LIMIT,
        -KICK_LIMIT <= r.1[0] <= KICK_LIMIT,
        -KICK_LIMIT <= r.1[1] <= KICK_LIMIT,
{
    let diff = vec_sub(a.position, b.position);
    let d: [i128; 2] = [diff[0] as i128, diff[1] as i128];
    proof {
        assert(d[0] * d[0] <= 0x4000000000000000 && d[1] * d[1] <= 0x4000000000000000)
            by (nonlinear_arith)
            requires
                -0x80000000 <= d[0] <= 0x80000000,
                -0x80000000 <= d[1] <= 0x80000000,
        ;
    }
    let s = vec_square_len(d);
    let rs = (a.radius + b.radius) as i128;
    proof {
        assert(d[0] * d[0] >= 0 && d[1] * d[1] >= 0) by (nonlinear_arith);
        assert(s == sq_dist(*a, *b));
        assert(rs * rs <= 0x4000000000000000) by (nonlinear_arith)
            requires
                0 < rs <= 0x80000000,
        ;
    }
    if s == 0 || s > rs * rs {
        return ([0, 0], [0, 0]);
    }
    let dist = isqrt(s as u64) as i128;
    proof {
        lemma_contact_bounds(*a, *b, damping as int);
        lemma_floor_sqrt_unique(dist as int, s as int);
    }
    let k = rs - dist;
    proof {
        assert(-0x4000000000000000 <= d[0] * k <= 0x4000000000000000 && -0x4000000000000000
            <= d[1] * k <= 0x4000000000000000) by (nonlinear_arith)
            requires
                -0x80000000 <= d[0] <= 0x80000000,
                -0x80000000 <= d[1] <= 0x80000000,
                0 <= k <= 0x80000000,
        ;
    }
    let shift_x = trunc_div(d[0] * k, 2 * dist);
    let shift_y = trunc_div(d[1] * k, 2 * dist);

    let rel = vec_sub(b.velocity, a.velocity);
    let u: [i128; 2] = [rel[0] as i128, rel[1] as i128];
    proof {
        assert(-0x4000000000000000 <= u[0] * d[0] <= 0x4000000000000000 && -0x4000000000000000
            <= u[1] * d[1] <= 0x4000000000000000) by (nonlinear_arith)
            requires
                -0x80000000 <= d[0] <= 0x80000000,
                -0x80000000 <= d[1] <= 0x80000000,
                -0x80000000 <= u[0] <= 0x80000000,
                -0x80000000 <= u[1] <= 0x80000000,
        ;
    }
    let ap = vec_dot(u, d);
    proof {
        assert(0 <= b.mass * (DAMPING_SCALE + damping) <= 0x80000000) by (nonlinear_arith)
            requires
                0 < b.mass <= MASS_LIMIT,
                0 <= damping <= DAMPING_SCALE,
        ;
    }
    let f = b.mass as i128 * (DAMPING_SCALE as i128 + damping as i128);
    let m = (a.mass + b.mass) as i128;
    proof {
        assert(0 <= f <= 0x80000000) by (nonlinear_arith)
            requires
                0 < b.mass <= MASS_LIMIT,
                0 <= damping <= DAMPING_SCALE,
                f == b.mass * (DAMPING_SCALE + damping),
        ;
        assert(-0x400000000000000000000000 <= f * ap <= 0x400000000000000000000000)
            by (nonlinear_arith)
            requires
                0 <= f <= 0x80000000,
                -0x8000000000000000 <= ap <= 0x8000000000000000,
        ;
        assert(-0x20000000000000000000000000000000 <= f * ap * d[0] <= 0x20000000000000000000000000000000
            && -0x20000000000000000000000000000000 <= f * ap * d[1]
            <= 0x20000000000000000000000000000000) by (nonlinear_arith)
            requires
                -0x400000000000000000000000 <= f * ap <= 0x400000000000000000000000,
                -0x80000000 <= d[0] <= 0x80000000,
                -0x80000000 <= d[1] <= 0x80000000,
        ;
        assert(0 < DAMPING_SCALE * m <= 0x80000000) by (nonlinear_arith)
            requires
                0 < m <= 2 * MASS_LIMIT,
        ;
        assert(0 < DAMPING_SCALE * m * s <= 0x20000000000000000000000000)
            by (nonlinear_arith)
            requires
                0 < DAMPING_SCALE * m <= 0x80000000,
                0 < s <= 0x8000000000000000,
        ;
    }
    let den = DAMPING_SCALE as i128 * m * s;
    let kick_x = trunc_div(f * ap * d[0], den);
    let kick_y = trunc_div(f * ap * d[1], den);
    ([shift_x, shift_y], [kick_x, kick_y])
}

/// The push with the given deltas.
pub open spec fn push_of(dp: [i128; 2], dv: [i128; 2]) -> Push {
    Push { dp: seq![dp[0] as int, dp[1] as int], dv: seq![dv[0] as int, dv[1] as int] }
}

/// `a` moved by `dp` and accelerated by `dv`, or `None` when a coordinate or a
/// velocity component would leave the range.
pub(crate) fn apply_push(a: &Ball, dp: [i128; 2], dv: [i128; 2]) -> (r: Option<Ball>)
    requires
        a.wf(),
        -0x10000000000000000000000000000000 <= dp[0] <= 0x10000000000000000000000000000000,
        -0x10000000000000000000000000000000 <= dp[1] <= 0x10000000000000000000000000000000,
        -0x10000000000000000000000000000000 <= dv[0] <= 0x10000000000000000000000000000000,
        -0x10000000000000000000000000000000 <= dv[1] <= 0x10000000000000000000000000000000,
    ensures
        r is Some <==> push_fits(*a, push_of(dp, dv)),
        r matches Some(x) ==> x == pushed(*a, push_of(dp, dv)) && x.wf(),
{
    let px = a.position[0] as i128 + dp[0];
    let py = a.position[1] as i128 + dp[1];
    let vx = a.velocity[0] as i128 + dv[0];
    let vy = a.velocity[1] as i128 + dv[1];
    let lim = LIMIT as i128;
    if -lim <= px && px <= lim && -lim <= py && py <= lim && -lim <= vx && vx <= lim && -lim <= vy
        && vy <= lim {
        Some(
            Ball {
                position: [px as i64, py as i64],
                velocity: [vx as i64, vy as i64],
                radius: a.radius,
                mass: a.mass,
            },
        )
    } else {
        None
    }
}

impl Ball {
    /// Resolves a collision between `self` and `other` with damping coefficient
    /// `damping` in thousandths (`DAMPING_SCALE` is perfectly elastic): `None`
    /// when the circles do not touch or the centres coincide, otherwise both
    /// bodies pushed apart along the contact normal with their normal velocities
    /// exchanged by the elastic formula.
    pub fn handle_ball_colisions(&self, other: &Ball, damping: i64) -> (r: Result<
        Option<(Ball, Ball)>,
        SimError,
    >)
        requires
            self.wf(),
            other.wf(),
            0 <= damping <= DAMPING_SCALE,
        ensures
            r == collision(*self, *other, damping as int),
            r matches Ok(Some((x, y))) ==> x.wf() && y.wf(),
    {
        if !in_contact_exec(self, other) {
            return Ok(None);
        }
        let (dp_a, dv_a) = push_from(self, other, damping);
        let (dp_b, dv_b) = push_from(other, self, damping);
        proof {
            lemma_contact_symmetric(*self, *other);
            assert(push_of(dp_a, dv_a) =~= push_on(*self, *other, damping as int));
            assert(push_of(dp_b, dv_b) =~= push_on(*other, *self, damping as int));
        }
        match (apply_push(self, dp_a, dv_a), apply_push(other, dp_b, dv_b)) {
            (Some(x), Some(y)) => Ok(Some((x, y))),
            _ => Err(SimError::OutOfRange),
        }
    }
}

/// Whether the two balls are in contact.
fn in_contact_exec(a: &Ball, b: &Ball) -> (r: bool)
    requires
        a.wf(),
        b.wf(),
    ensures
        r == in_contact(*a, *b),
{
    let diff = vec_sub(a.position, b.position);
    let d: [i128; 2] = [diff[0] as i128, diff[1] as i128];
    proof {
        assert(d[0] * d[0] <= 0x4000000000000000 && d[1] * d[1] <= 0x4000000000000000)
            by (nonlinear_arith)
            requires
                -0x80000000 <= d[0] <= 0x80000000,
                -0x80000000 <= d[1] <= 0x80000000,
        ;
    }
    let s = vec_square_len(d);
    let rs = (a.radius + b.radius) as i128;
    proof {
        assert(rs * rs <= 0x4000000000000000) by (nonlinear_arith)
            requires
                0 < rs <= 0x80000000,
        ;
    }
    s != 0 && s <= rs * rs
}

/// Contact does not depend on the order of the two balls.
pub proof fn lemma_contact_symmetric(a: Ball, b: Ball)
    ensures
        sq_dist(a, b) == sq_dist(b, a),
        in_contact(a, b) == in_contact(b, a),
        dist(a, b) == dist(b, a),
{
    assert(offset(a, b, 0) * offset(a, b, 0) == offset(b, a, 0) * offset(b, a, 0))
        by (nonlinear_arith)
        requires
            offset(a, b, 0) == -offset(b, a, 0),
    ;
    assert(offset(a, b, 1) * offset(a, b, 1) == offset(b, a, 1) * offset(b, a, 1))
        by (nonlinear_arith)
        requires
            offset(a, b, 1) == -offset(b, a, 1),
    ;
}

/// Resolving `(b, a)` gives the same outcome as resolving `(a, b)`, with the two
/// bodies swapped; and the two position corrections are equal and opposite.
pub proof fn lemma_collision_symmetric(a: Ball, b: Ball, damping: int)
    requires
        a.wf(),
        b.wf(),
        0 <= damping <= DAMPING_SCALE,
    ensures
        collision(b, a, damping) == match collision(a, b, damping) {
            Ok(Some((x, y))) => Ok(Some((y, x))),
            other => other,
        },
        push_on(b, a, damping).dp[0] == -push_on(a, b, damping).dp[0],
        push_on(b, a, damping).dp[1] == -push_on(a, b, damping).dp[1],
{
    lemma_contact_symmetric(a, b);
    if in_contact(a, b) {
        let k = a.radius + b.radius - dist(a, b);
        lemma_contact_bounds(a, b, damping);
        assert(offset(b, a, 0) * k == -(offset(a, b, 0) * k)) by (nonlinear_arith)
            requires
                offset(b, a, 0) == -offset(a, b, 0),
        ;
        assert(offset(b, a, 1) * k == -(offset(a, b, 1) * k)) by (nonlinear_arith)
            requires
                offset(b, a, 1) == -offset(a, b, 1),
        ;
        lemma_tdiv_neg(offset(a, b, 0) * k, 2 * dist(a, b));
        lemma_tdiv_neg(offset(a, b, 1) * k, 2 * dist(a, b));
    }
}

/// For equal masses and a perfectly elastic contact, each body's velocity
/// changes by the projection of the relative velocity on the contact normal, in
/// opposite directions: the normal velocity components are exchanged, rounded
/// toward zero, and the tangential components are kept.
pub proof fn lemma_equal_mass_exchange(a: Ball, b: Ball)
    requires
        a.wf(),
        b.wf(),
        a.mass == b.mass,
        in_contact(a, b),
    ensures
        push_on(a, b, DAMPING_SCALE as int).dv[0] == tdiv(
            approach(a, b) * offset(a, b, 0),
            sq_dist(a, b),
        ),
        push_on(a, b, DAMPING_SCALE as int).dv[1] == tdiv(
            approach(a, b) * offset(a, b, 1),
            sq_dist(a, b),
        ),
        push_on(b, a, DAMPING_SCALE as int).dv[0] == -push_on(a, b, DAMPING_SCALE as int).dv[0],
        push_on(b, a, DAMPING_SCALE as int).dv[1] == -push_on(a, b, DAMPING_SCALE as int).dv[1],
{
    lemma_contact_symmetric(a, b);
    let s = sq_dist(a, b);
    let ap = approach(a, b);
    let k = 2 * DAMPING_SCALE * a.mass;
    assert(k > 0) by (nonlinear_arith)
        requires
            k == 2 * DAMPING_SCALE * a.mass,
            a.mass > 0,
    ;
    assert(s > 0) by (nonlinear_arith)
        requires
            s == offset(a, b, 0) * offset(a, b, 0) + offset(a, b, 1) * offset(a, b, 1),
            s != 0,
    ;
    assert(approach(b, a) == ap) by (nonlinear_arith)
        requires
            ap == (b.velocity[0] - a.velocity[0]) * offset(a, b, 0) + (b.velocity[1]
                - a.velocity[1]) * offset(a, b, 1),
            approach(b, a) == (a.velocity[0] - b.velocity[0]) * offset(b, a, 0) + (a.velocity[1]
                - b.velocity[1]) * offset(b, a, 1),
            offset(b, a, 0) == -offset(a, b, 0),
            offset(b, a, 1) == -offset(a, b, 1),
    ;
    assert forall|i: int| i == 0 || i == 1 implies {
        &&& kick(a, b, DAMPING_SCALE as int, i) == tdiv(ap * offset(a, b, i), s)
        &&& kick(b, a, DAMPING_SCALE as int, i) == -tdiv(ap * offset(a, b, i), s)
    } by {
        let x = ap * offset(a, b, i);
        assert(b.mass * (DAMPING_SCALE + DAMPING_SCALE) * ap * offset(a, b, i) == k * x)
            by (nonlinear_arith)
            requires
                a.mass == b.mass,
                k == 2 * DAMPING_SCALE * a.mass,
                x == ap * offset(a, b, i),
        ;
        assert(DAMPING_SCALE * (a.mass + b.mass) * s == k * s) by (nonlinear_arith)
            requires
                a.mass == b.mass,
                k == 2 * DAMPING_SCALE * a.mass,
        ;
        assert(a.mass * (DAMPING_SCALE + DAMPING_SCALE) * approach(b, a) * offset(b, a, i) == k
            * (-x)) by (nonlinear_arith)
            requires
                a.mass == b.mass,
                k == 2 * DAMPING_SCALE * a.mass,
                x == ap * offset(a, b, i),
                approach(b, a) == ap,
                offset(b, a, i) == -offset(a, b, i),
        ;
        assert(DAMPING_SCALE * (b.mass + a.mass) * sq_dist(b, a) == k * s) by (nonlinear_arith)
            requires
                a.mass == b.mass,
                k == 2 * DAMPING_SCALE * a.mass,
                sq_dist(b, a) == s,
        ;
        lemma_tdiv_cancel(x, s, k);
        lemma_tdiv_cancel(-x, s, k);
        lemma_tdiv_neg(x, s);
    }
}

/// Resolving a collision never brings the two centres closer.
pub proof fn lemma_separation_non_decreasing(a: Ball, b: Ball, damping: int)
    requires
        a.wf(),
        b.wf(),
        0 <= damping <= DAMPING_SCALE,
    ensures
        collision(a, b, damping) matches Ok(Some((x, y))) ==> sq_dist(x, y) >= sq_dist(a, b),
{
    if let Ok(Some((x, y))) = collision(a, b, damping) {
        lemma_collision_symmetric(a, b, damping);
        lemma_contact_bounds(a, b, damping);
        let k = a.radius + b.radius - dist(a, b);
        assert forall|i: int| i == 0 || i == 1 implies offset(x, y, i) * offset(x, y, i)
            >= offset(a, b, i) * offset(a, b, i) by {
            let dx = offset(a, b, i);
            let sh = shift(a, b, i);
            assert(offset(x, y, i) == dx + 2 * sh);
            if dx >= 0 {
                assert(dx * k >= 0) by (nonlinear_arith)
                    requires
                        dx >= 0,
                        k >= 0,
                ;
            } else {
                assert(dx * k <= 0) by (nonlinear_arith)
                    requires
                        dx < 0,
                        k >= 0,
                ;
            }
            lemma_tdiv_sign(dx * k, 2 * dist(a, b));
            assert((dx + 2 * sh) * (dx + 2 * sh) >= dx * dx) by (nonlinear_arith)
                requires
                    dx >= 0 ==> sh >= 0,
                    dx < 0 ==> sh <= 0,
            ;
        }
    }
}

} // verus!
