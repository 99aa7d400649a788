//! A circular body, the integrator and the boundary resolver.
use vstd::prelude::*;
use crate::numeric::{in_range, tdiv, trunc_div, LIMIT, MASS_LIMIT, TIME_SCALE};

verus! {

/// Why a configuration or a step was rejected.
#[derive(Clone, Copy, Debug, PartialEq, Eq)]
pub enum SimError {
    /// A radius, mass, extent or damping coefficient out of its allowed range.
    InvalidConfig,
    /// A negative time step.
    InvalidTimestep,
    /// A position or velocity that the step would produce lies outside `[-LIMIT, LIMIT]`.
    OutOfRange,
}

/// The physical state of one circular body.
#[derive(Clone, Copy, Debug, PartialEq, Eq)]
pub struct Ball {
    pub position: [i64; 2],
    pub velocity: [i64; 2],
    pub radius: i64,
    pub mass: i64,
}

/// An enclosure `[0, extents[0]] x [0, extents[1]]` is valid when both extents are
/// positive and within range.
pub open spec fn enclosure_wf(extents: [i64; 2]) -> bool {
    0 < extents[0] <= LIMIT && 0 < extents[1] <= LIMIT
}

/// A coordinate touches or crosses a wall of the enclosure on its axis.
pub open spec fn touches_wall(position: int, radius: int, extent: int) -> bool {
    position >= extent - radius || position <= radius
}

/// A coordinate after moving at `velocity` units per second for `dt` milliseconds.
pub open spec fn advance(position: int, velocity: int, dt: int) -> int {
    position + tdiv(velocity * dt, TIME_SCALE as int)
}

impl Ball {
    /// Coordinates and velocities lie in range; radius and mass are positive and bounded.
    pub open spec fn wf(self) -> bool {
        &&& in_range(self.position[0] as int)
        &&& in_range(self.position[1] as int)
        &&& in_range(self.velocity[0] as int)
        &&& in_range(self.velocity[1] as int)
        &&& 0 < self.radius <= LIMIT
        &&& 0 < self.mass <= MASS_LIMIT
    }

    /// The ball with one velocity component negated.
    pub open spec fn reflected(self, axis: int) -> Ball {
        if axis == 0 {
            Ball { velocity: [-self.velocity[0] as i64, self.velocity[1]], ..self }
        } else {
            Ball { velocity: [self.velocity[0], -self.velocity[1] as i64], ..self }
        }
    }

    /// The boundary rule: the first axis (0, then 1) on which the ball touches a
    /// wall has its velocity component negated; at most one axis per call.
    pub open spec fn bounced(self, extents: [i64; 2]) -> Ball {
        if touches_wall(self.position[0] as int, self.radius as int, extents[0] as int) {
            self.reflected(0)
        } else if touches_wall(self.position[1] as int, self.radius as int, extents[1] as int) {
            self.reflected(1)
        } else {
            self
        }
    }

    /// Both coordinates stay in range after moving for `dt` milliseconds.
    pub open spec fn can_advance(self, dt: int) -> bool {
        &&& in_range(advance(self.position[0] as int, self.velocity[0] as int, dt))
        &&& in_range(advance(self.position[1] as int, self.velocity[1] as int, dt))
    }

    /// The ball moved for `dt` milliseconds (meaningful when `can_advance(dt)`).
    pub open spec fn advanced(self, dt: int) -> Ball {
        Ball {
            position: [
                advance(self.position[0] as int, self.velocity[0] as int, dt) as i64,
                advance(self.position[1] as int, self.velocity[1] as int, dt) as i64,
            ],
            ..self
        }
    }

    /// A ball with the given state, or `InvalidConfig` when it is not well formed.
    pub fn new(position: [i64; 2], velocity: [i64; 2], radius: i64, mass: i64) -> (r: Result<
        Ball,
        SimError,
    >)
        ensures
            r is Ok <==> (Ball { position, velocity, radius, mass }).wf(),
            r matches Ok(b) ==> b == (Ball { position, velocity, radius, mass }),
            r matches Err(e) ==> e == SimError::InvalidConfig,
    {
        let b = Ball { position, velocity, radius, mass };
        if b.is_valid() {
            Ok(b)
        } else {
            Err(SimError::InvalidConfig)
        }
    }

    /// Whether the ball is well formed.
    pub fn is_valid(&self) -> (r: bool)
        ensures
            r == self.wf(),
    {
        -LIMIT <= self.position[0] && self.position[0] <= LIMIT && -LIMIT <= self.position[1]
            && self.position[1] <= LIMIT && -LIMIT <= self.velocity[0] && self.velocity[0] <= LIMIT
            && -LIMIT <= self.velocity[1] && self.velocity[1] <= LIMIT && 0 < self.radius
            && self.radius <= LIMIT && 0 < self.mass && self.mass <= MASS_LIMIT
    }

    /// The top-left corner of the square that bounds the ball, where a renderer
    /// draws it.
    pub fn render_coordinates(&self) -> (r: [i64; 2])
        requires
            self.wf(),
        ensures
            r[0] == self.position[0] - self.radius,
            r[1] == self.position[1] - self.radius,
    {
        [self.position[0] - self.radius, self.position[1] - self.radius]
    }

    /// The ball after one boundary check against the enclosure `extents`.
    pub fn handle_boundary_colision(&self, boundries: [i64; 2]) -> (r: Ball)
        requires
            self.wf(),
            enclosure_wf(boundries),
        ensures
            r == self.bounced(boundries),
            r.wf(),
    {
        if self.position[0] >= boundries[0] - self.radius || self.position[0] <= self.radius {
            Ball { velocity: [-self.velocity[0], self.velocity[1]], ..*self }
        } else if self.position[1] >= boundries[1] - self.radius || self.position[1] <= self.radius {
            Ball { velocity: [self.velocity[0], -self.velocity[1]], ..*self }
        } else {
            *self
        }
    }
}

/// The position of `b` after `dt` milliseconds, or `None` when a coordinate
/// would leave the range `[-LIMIT, LIMIT]`.
pub fn next_position(b: &Ball, dt: i64) -> (r: Option<[i64; 2]>)
    requires
        b.wf(),
        dt >= 0,
    ensures
        r is Some <==> b.can_advance(dt as int),
        r matches Some(p) ==> p == b.advanced(dt as int).position,
        dt == 0 ==> r == Some(b.position),
{
    match (advance_coord(b.position[0], b.velocity[0], dt), advance_coord(b.position[1], b.velocity[1], dt)) {
        (Some(x), Some(y)) => Some([x, y]),
        _ => None,
    }
}

/// One coordinate after `dt` milliseconds, when it stays in range.
fn advance_coord(position: i64, velocity: i64, dt: i64) -> (r: Option<i64>)
    requires
        in_range(position as int),
        in_range(velocity as int),
        dt >= 0,
    ensures
        r is Some <==> in_range(advance(position as int, velocity as int, dt as int)),
        r matches Some(p) ==> p == advance(position as int, velocity as int, dt as int),
        dt == 0 ==> r == Some(position),
{
    let v = velocity as i128;
    proof {
        assert(-LIMIT * dt <= v * dt <= LIMIT * dt) by (nonlinear_arith)
            requires
                -LIMIT <= v <= LIMIT,
                dt >= 0,
        ;
    }
    let moved = trunc_div(v * (dt as i128), TIME_SCALE as i128);
    let next = position as i128 + moved;
    if next < -(LIMIT as i128) || next > LIMIT as i128 {
        None
    } else {
        Some(next as i64)
    }
}

/// A ball at the near wall of an axis (its coordinate equals its radius) has
/// that velocity component negated by one boundary check, unless an earlier
/// axis already reflected; the other component, the position, the radius and
/// the mass are kept. A ball that touches no wall is unchanged.
pub proof fn lemma_near_wall_reflection(b: Ball, extents: [i64; 2])
    requires
        b.wf(),
        enclosure_wf(extents),
    ensures
        b.bounced(extents).position == b.position,
        b.bounced(extents).radius == b.radius,
        b.bounced(extents).mass == b.mass,
        b.position[0] == b.radius ==> b.bounced(extents).velocity[0] == -b.velocity[0]
            && b.bounced(extents).velocity[1] == b.velocity[1],
        b.position[1] == b.radius && !touches_wall(
            b.position[0] as int,
            b.radius as int,
            extents[0] as int,
        ) ==> b.bounced(extents).velocity[1] == -b.velocity[1] && b.bounced(extents).velocity[0]
            == b.velocity[0],
        !touches_wall(b.position[0] as int, b.radius as int, extents[0] as int) && !touches_wall(
            b.position[1] as int,
            b.radius as int,
            extents[1] as int,
        ) ==> b.bounced(extents) == b,
{
}

} // verus!
