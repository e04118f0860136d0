//! The tuning of a world.
use vstd::prelude::*;
use crate::collision_detection::COLLISION_MARGIN;
use crate::collisions::{ALLOWED_PENETRATION, BAUMGARTE_FACTOR, FRICTION, NUM_ITERATIONS};
use crate::fixed::LIMIT;
use crate::point::Point;
use crate::simulation::{DT, GRAVITY};

verus! {

/// Parameters of the simulation, all in fixed point but the iteration count.
#[derive(Clone, Copy, Debug, PartialEq, Eq, Structural)]
pub struct Config {
    /// Length of one step.
    pub dt: i64,
    /// Acceleration of gravity; every dynamic body feels `mass · gravity`.
    pub gravity: Point,
    /// Sweeps of the impulse solver over the contacts in one step.
    pub solver_iterations: usize,
    /// Gain of the positional correction folded into the velocity solve.
    pub baumgarte: i64,
    /// Penetration that is tolerated before it is corrected.
    pub slop: i64,
    /// Coulomb friction coefficient.
    pub friction: i64,
    /// Distances closer than this count as equal when contact features are classified.
    pub collision_margin: i64,
}

/// The standard tuning: a hundredth of a second per step, gravity 10 along +y,
/// one solver sweep.
pub open spec fn standard_config() -> Config {
    Config {
        dt: DT,
        gravity: Point { x: 0, y: GRAVITY },
        solver_iterations: NUM_ITERATIONS,
        baumgarte: BAUMGARTE_FACTOR,
        slop: ALLOWED_PENETRATION,
        friction: FRICTION,
        collision_margin: COLLISION_MARGIN,
    }
}

impl Config {
    pub open spec fn wf(&self) -> bool {
        0 <= self.collision_margin <= LIMIT
    }

    pub fn standard() -> (r: Config)
        ensures
            r == standard_config(),
            r.wf(),
    {
        Config {
            dt: DT,
            gravity: Point { x: 0, y: GRAVITY },
            solver_iterations: NUM_ITERATIONS,
            baumgarte: BAUMGARTE_FACTOR,
            slop: ALLOWED_PENETRATION,
            friction: FRICTION,
            collision_margin: COLLISION_MARGIN,
        }
    }
}

} // verus!
