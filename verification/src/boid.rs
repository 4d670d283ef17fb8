//! The simulated agent: a boid always carries all of its state together —
//! identifier, position, velocity, acceleration and the per-tick influence
//! buffer — so no partial agent can be constructed.

use vstd::prelude::*;
use crate::vec2::{Vec2Fix, in_lim};
use crate::settings::{SPEED_LIMIT, ACCEL_LIMIT};

verus! {

/// Positions of simulated agents stay within this bound (the wrapped play
/// area is much smaller; the slack covers one tick of travel before the
/// boundary pass runs).
pub const POS_LIMIT: i64 = 1_000_000;

/// Influence vectors and mid-tick positions stay within this bound.
pub const INFLUENCE_LIMIT: i64 = 1_000_000_000;

/// Per-tick influence buffer: the separation, alignment and cohesion
/// vectors gathered from visible neighbors, before weighting.
#[derive(Clone, Copy, PartialEq, Eq, Structural, Debug)]
pub struct BoidData {
    /// Repulsion away from a close neighbor.
    pub separation: Vec2Fix,
    /// A visible neighbor's raw velocity.
    pub alignment: Vec2Fix,
    /// A visible neighbor's raw position.
    pub cohesion: Vec2Fix,
}

impl View for BoidData {
    type V = ((int, int), (int, int), (int, int));

    open spec fn view(&self) -> ((int, int), (int, int), (int, int)) {
        (self.separation@, self.alignment@, self.cohesion@)
    }
}

impl Default for BoidData {
    /// A fresh influence buffer holds zero vectors.
    fn default() -> (r: Self)
        ensures
            r@ == (((0int, 0int), (0int, 0int), (0int, 0int))),
    {
        BoidData {
            separation: Vec2Fix { x: 0, y: 0 },
            alignment: Vec2Fix { x: 0, y: 0 },
            cohesion: Vec2Fix { x: 0, y: 0 },
        }
    }
}

/// One simulated agent.
#[derive(Clone, Copy, PartialEq, Eq, Structural, Debug)]
pub struct Boid {
    /// Stable identifier, assigned monotonically at spawn, never reused.
    pub id: u32,
    /// Position in fixed-point world coordinates.
    pub position: Vec2Fix,
    /// Velocity in fixed-point world units per second.
    pub velocity: Vec2Fix,
    /// Acceleration written by the steering controller this tick.
    pub acceleration: Vec2Fix,
    /// Influence vectors recomputed by the neighbor force model.
    pub data: BoidData,
}

/// All three influence vectors are within the library's limits.
pub open spec fn data_bounded(d: BoidData) -> bool {
    &&& in_lim(d.separation@, INFLUENCE_LIMIT as int)
    &&& in_lim(d.alignment@, INFLUENCE_LIMIT as int)
    &&& in_lim(d.cohesion@, INFLUENCE_LIMIT as int)
}

/// All of a boid's magnitudes are within the library's limits; every
/// public pass preserves this.
pub open spec fn boid_bounded(b: Boid) -> bool {
    &&& in_lim(b.position@, POS_LIMIT as int)
    &&& in_lim(b.velocity@, SPEED_LIMIT as int)
    &&& in_lim(b.acceleration@, ACCEL_LIMIT as int)
    &&& data_bounded(b.data)
}

/// Every boid in the flock is bounded.
pub open spec fn flock_bounded(bs: Seq<Boid>) -> bool {
    forall|i: int| 0 <= i < bs.len() ==> boid_bounded(#[trigger] bs[i])
}

/// What the force pass needs of every agent: position and influence
/// vectors within `INFLUENCE_LIMIT` (positions may exceed `POS_LIMIT`
/// mid-tick, before the boundary pass runs) and velocity within
/// `SPEED_LIMIT`.
pub open spec fn boid_force_ready(b: Boid) -> bool {
    &&& in_lim(b.position@, INFLUENCE_LIMIT as int)
    &&& in_lim(b.velocity@, SPEED_LIMIT as int)
    &&& data_bounded(b.data)
}

/// Every boid in the flock is ready for a force pass; boundedness
/// implies it.
pub open spec fn flock_force_ready(bs: Seq<Boid>) -> bool {
    forall|i: int| 0 <= i < bs.len() ==> boid_force_ready(#[trigger] bs[i])
}

impl Boid {
    /// Create an agent with a fresh influence buffer and no acceleration.
    pub fn new(id: u32, position: Vec2Fix, velocity: Vec2Fix) -> (r: Boid)
        ensures
            r.id == id,
            r.position == position,
            r.velocity == velocity,
            r.acceleration@ == (0int, 0int),
            r.data@ == (((0int, 0int), (0int, 0int), (0int, 0int))),
    {
        Boid {
            id,
            position,
            velocity,
            acceleration: Vec2Fix { x: 0, y: 0 },
            data: BoidData::default(),
        }
    }
}

} // verus!
