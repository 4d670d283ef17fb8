//! A verified core for a 2D flocking ("boid") simulation.
//!
//! A population of point agents moves in a square plane centered at the
//! origin.  Every tick, each agent gathers influence vectors (separation,
//! alignment, cohesion) from the agents it can see, turns them into a
//! bounded steering acceleration, integrates velocity and position over the
//! elapsed time, and wraps around the area's edges toroidally.
//!
//! All quantities are fixed-point: an `i64` coordinate counts thousandths of
//! a world unit (see [`fixed::FIX_ONE`]), so every computation is exact
//! integer arithmetic with truncating division, and every contract states
//! the result precisely over mathematical integers.

pub mod boid;
pub mod fixed;
pub mod forces;
pub mod motion;
pub mod settings;
pub mod sim;
pub mod vec2;
