//! Process-wide flocking parameters: speed bounds, steering-force cap,
//! vision parameters, behavior weights and enable flags.
//!
//! Settings are an explicitly passed value, immutable during a tick; the
//! host may replace them between ticks.  All magnitudes are fixed-point
//! (thousandths of a world unit, see [`crate::fixed::FIX_ONE`]).

use vstd::prelude::*;
use crate::fixed::FIX_ONE;

verus! {

/// Largest speed or steering-force magnitude the library accepts: one
/// thousand world units per second, the play area's whole side.
pub const SPEED_LIMIT: i64 = 1_000_000;

/// Largest behavior weight (a weight of `FIX_ONE` is a factor of one).
pub const WEIGHT_LIMIT: i64 = 1_000_000;

/// Guaranteed bound on an agent's acceleration magnitude per component:
/// valid settings keep the summed, weighted steering forces below it.
pub const ACCEL_LIMIT: i64 = 100_000_000;

/// Tunable flocking parameters.
#[derive(Clone, Copy, PartialEq, Eq, Structural, Debug)]
pub struct BoidSettings {
    /// Lower speed bound enforced after integration.
    pub min_speed: i64,
    /// Upper speed bound enforced after integration.
    pub max_speed: i64,
    /// Cap on the length of one steering-force contribution.
    pub max_steer_force: i64,
    /// How far an agent can see (reserved: visibility is currently a stub).
    pub vision_radius: i64,
    /// Field-of-view angle in thousandths of a degree (reserved, as above).
    pub vision_angle: i64,
    /// Weight of the separation contribution.
    pub separation_weight: i64,
    /// Weight of the alignment contribution.
    pub alignment_weight: i64,
    /// Weight of the cohesion contribution.
    pub cohesion_weight: i64,
    /// Whether separation steering is applied.
    pub separation: bool,
    /// Whether alignment steering is applied.
    pub alignment: bool,
    /// Whether cohesion steering is applied.
    pub cohesion: bool,
}

impl BoidSettings {
    /// Well-formed settings: ordered speed bounds, every magnitude within
    /// the library's limits, and weighted steering forces that cannot push
    /// an acceleration component past `ACCEL_LIMIT`.
    pub open spec fn valid(self) -> bool {
        &&& 0 <= self.min_speed <= self.max_speed <= SPEED_LIMIT
        &&& 0 <= self.max_steer_force <= SPEED_LIMIT
        &&& 0 <= self.separation_weight <= WEIGHT_LIMIT
        &&& 0 <= self.alignment_weight <= WEIGHT_LIMIT
        &&& 0 <= self.cohesion_weight <= WEIGHT_LIMIT
        &&& self.max_steer_force * (self.separation_weight + self.alignment_weight
            + self.cohesion_weight) <= ACCEL_LIMIT * FIX_ONE
        &&& 0 <= self.vision_radius
        &&& 0 <= self.vision_angle
    }
}

impl Default for BoidSettings {
    /// The documented default configuration: speeds 70 and 200, steering
    /// cap 10, vision radius 1 with a full 360-degree angle, all weights
    /// 1, and only separation enabled.
    fn default() -> (r: Self)
        ensures
            r == (BoidSettings {
                min_speed: 70_000,
                max_speed: 200_000,
                max_steer_force: 10_000,
                vision_radius: 1000,
                vision_angle: 360_000,
                separation_weight: 1000,
                alignment_weight: 1000,
                cohesion_weight: 1000,
                separation: true,
                alignment: false,
                cohesion: false,
            }),
            r.valid(),
    {
        BoidSettings {
            min_speed: 70_000,
            max_speed: 200_000,
            max_steer_force: 10_000,
            vision_radius: 1000,
            vision_angle: 360_000,
            separation_weight: 1000,
            alignment_weight: 1000,
            cohesion_weight: 1000,
            separation: true,
            alignment: false,
            cohesion: false,
        }
    }
}

} // verus!
