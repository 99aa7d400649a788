//! Discrete-time simulation of circular bodies bouncing inside a rectangular
//! enclosure, over exact integer arithmetic.
//!
//! Lengths are integers in a unit of the caller's choosing, velocities are in
//! length units per second, time steps are in milliseconds, and the damping
//! coefficient is given in thousandths. Every division truncates toward zero,
//! which keeps the collision rules symmetric in the order of the two bodies.
use vstd::prelude::*;

pub mod ball;
pub mod collision;
pub mod numeric;
pub mod world;

pub use ball::{next_position, Ball, SimError};
pub use numeric::{DAMPING_SCALE, LIMIT, MASS_LIMIT, TIME_SCALE};
pub use world::{step, App};
