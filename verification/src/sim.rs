//! Spawning and the simulation tick.
//!
//! A tick is a pure function of (pre-tick flock, settings, elapsed time):
//! the passes run in one of two explicit orders and each agent's post-tick
//! state is pinned down exactly by the spec functions below.
//!
//! The chosen default order is forces-first: influences and accelerations
//! are computed from the pre-tick snapshot, then velocity and position
//! integrate, then positions wrap — so a force takes effect in the same
//! tick it was computed.  The integrate-first variant reproduces the
//! alternative scheduling in which forces are computed from the freshly
//! integrated (not yet wrapped) positions and take effect one tick later.

use vstd::prelude::*;
use crate::fixed::FIX_ONE;
use crate::vec2::{Vec2Fix, in_lim, nsq2, sub2, lemma_scale_div_norm, lemma_nsq_comp_bound};
use crate::boid::{
    Boid, boid_bounded, flock_bounded, boid_force_ready, flock_force_ready, data_bounded,
    POS_LIMIT, INFLUENCE_LIMIT,
};
use crate::settings::{BoidSettings, SPEED_LIMIT};
use crate::forces::{
    InfluencePolicy, influence_after, kin_of, accel2, simulate_boids, MAX_AGENTS,
};
use crate::motion::{
    vel_next2, pos_next2, wrap2, update_velocity, update_position, bound, DT_LIMIT, HALF_AREA,
};

verus! {

/// Which pass ordering a tick uses; see the module documentation.
#[derive(Clone, Copy, PartialEq, Eq, Structural, Debug)]
pub enum TickOrder {
    /// Forces and steering from the pre-tick snapshot, then integration,
    /// then wrap (the default: forces act the tick they are computed).
    ForcesFirst,
    /// Integration with the previous tick's accelerations, then forces
    /// from the integrated, unwrapped positions, then wrap.
    IntegrateFirst,
}

/// The mid-tick kinematic snapshot of the integrate-first order: each
/// agent's integrated velocity and advanced, not yet wrapped position.
pub open spec fn kin_mid2(bs: Seq<Boid>, s: BoidSettings, dt: int) -> Seq<
    ((int, int), (int, int)),
> {
    Seq::new(
        bs.len(),
        |i: int|
            {
                let vel = vel_next2(bs[i].velocity@, bs[i].acceleration@, s, dt);
                (pos_next2(bs[i].position@, vel, dt), vel)
            },
    )
}

/// Agent `k`'s influence buffer after one tick.
pub open spec fn tick_infl(
    bs: Seq<Boid>,
    k: int,
    s: BoidSettings,
    dt: int,
    order: TickOrder,
    policy: InfluencePolicy,
) -> ((int, int), (int, int), (int, int)) {
    match order {
        TickOrder::ForcesFirst => influence_after(kin_of(bs), k, bs[k].data@, policy),
        TickOrder::IntegrateFirst => influence_after(kin_mid2(bs, s, dt), k, bs[k].data@, policy),
    }
}

/// Agent `k`'s velocity after one tick.
pub open spec fn tick_vel(
    bs: Seq<Boid>,
    k: int,
    s: BoidSettings,
    dt: int,
    order: TickOrder,
    policy: InfluencePolicy,
) -> (int, int) {
    match order {
        TickOrder::ForcesFirst => vel_next2(
            bs[k].velocity@,
            accel2(tick_infl(bs, k, s, dt, order, policy), bs[k].velocity@, s),
            s,
            dt,
        ),
        TickOrder::IntegrateFirst => vel_next2(bs[k].velocity@, bs[k].acceleration@, s, dt),
    }
}

/// Agent `k`'s acceleration after one tick.
pub open spec fn tick_acc(
    bs: Seq<Boid>,
    k: int,
    s: BoidSettings,
    dt: int,
    order: TickOrder,
    policy: InfluencePolicy,
) -> (int, int) {
    match order {
        TickOrder::ForcesFirst => accel2(tick_infl(bs, k, s, dt, order, policy), bs[k].velocity@, s),
        TickOrder::IntegrateFirst => accel2(
            tick_infl(bs, k, s, dt, order, policy),
            tick_vel(bs, k, s, dt, order, policy),
            s,
        ),
    }
}

/// Agent `k`'s position after one tick: advanced by the new velocity and
/// wrapped back into the play area.
pub open spec fn tick_pos(
    bs: Seq<Boid>,
    k: int,
    s: BoidSettings,
    dt: int,
    order: TickOrder,
    policy: InfluencePolicy,
) -> (int, int) {
    wrap2(pos_next2(bs[k].position@, tick_vel(bs, k, s, dt, order, policy), dt))
}

/// A bounded agent's advanced position stays within the force model's
/// range: one tick of travel at any admissible speed covers at most ten
/// thousand world units.
proof fn lemma_travel_bound(p: (int, int), v: (int, int), s: BoidSettings, dt: int)
    requires
        s.valid(),
        0 <= dt <= DT_LIMIT as int,
        in_lim(p, POS_LIMIT as int),
        in_lim(v, s.max_speed as int),
    ensures
        in_lim(pos_next2(p, v, dt), INFLUENCE_LIMIT as int),
{
    assert(-(1_000_000int * 10_000int) <= v.0 * dt <= 1_000_000int * 10_000int && -(1_000_000int
        * 10_000int) <= v.1 * dt <= 1_000_000int * 10_000int) by (nonlinear_arith)
        requires
            -1_000_000 <= v.0 <= 1_000_000,
            -1_000_000 <= v.1 <= 1_000_000,
            0 <= dt <= 10_000,
    ;
    crate::fixed::lemma_tdiv_le(v.0 * dt, FIX_ONE as int, 10_000_000);
    crate::fixed::lemma_tdiv_le(v.1 * dt, FIX_ONE as int, 10_000_000);
}

/// One simulation tick for the whole flock, in the given pass order and
/// influence policy.  Every agent's post-tick state is exactly the spec
/// value of `tick_infl` / `tick_acc` / `tick_vel` / `tick_pos`; the flock
/// stays bounded, every position ends inside the play area, and every
/// speed ends at most `max_speed`.
pub fn tick(
    boids: &mut Vec<Boid>,
    settings: &BoidSettings,
    dt: i64,
    order: TickOrder,
    policy: InfluencePolicy,
)
    requires
        flock_bounded(old(boids)@),
        old(boids)@.len() <= MAX_AGENTS,
        settings.valid(),
        0 <= dt <= DT_LIMIT,
    ensures
        final(boids)@.len() == old(boids)@.len(),
        forall|k: int|
            0 <= k < final(boids)@.len() ==> {
                let ob = old(boids)@[k];
                let nb = #[trigger] final(boids)@[k];
                &&& nb.id == ob.id
                &&& nb.data@ == tick_infl(old(boids)@, k, *settings, dt as int, order, policy)
                &&& nb.acceleration@ == tick_acc(old(boids)@, k, *settings, dt as int, order,
                    policy)
                &&& nb.velocity@ == tick_vel(old(boids)@, k, *settings, dt as int, order, policy)
                &&& nb.position@ == tick_pos(old(boids)@, k, *settings, dt as int, order, policy)
                &&& in_lim(nb.position@, HALF_AREA as int)
                &&& nsq2(nb.velocity@) <= settings.max_speed * settings.max_speed
            },
        flock_bounded(final(boids)@),
{
    let ghost orig = boids@;
    let ghost n = boids@.len() as int;
    proof {
        assert(flock_force_ready(orig));
    }
    match order {
        TickOrder::ForcesFirst => {
            simulate_boids(boids, settings, policy);
            let ghost s1 = boids@;
            update_velocity(boids, settings, dt);
            let ghost s2 = boids@;
            proof {
                assert(forall|i: int|
                    0 <= i < n ==> in_lim((#[trigger] s2[i]).velocity@, SPEED_LIMIT as int)
                        && in_lim(s2[i].position@, crate::vec2::COORD_LIMIT as int));
            }
            update_position(boids, dt);
            bound(boids);
        },
        TickOrder::IntegrateFirst => {
            update_velocity(boids, settings, dt);
            let ghost s1 = boids@;
            proof {
                assert(forall|i: int|
                    0 <= i < n ==> in_lim((#[trigger] s1[i]).velocity@, SPEED_LIMIT as int)
                        && in_lim(s1[i].position@, crate::vec2::COORD_LIMIT as int));
            }
            update_position(boids, dt);
            let ghost s2 = boids@;
            proof {
                assert forall|i: int| 0 <= i < n implies boid_force_ready(#[trigger] s2[i]) by {
                    assert(in_lim(s1[i].velocity@, settings.max_speed as int));
                    lemma_travel_bound(
                        orig[i].position@,
                        s1[i].velocity@,
                        *settings,
                        dt as int,
                    );
                }
                assert(kin_of(s2) =~= kin_mid2(orig, *settings, dt as int));
            }
            simulate_boids(boids, settings, policy);
            bound(boids);
        },
    }
    proof {
        assert(forall|k: int|
            0 <= k < n ==> nsq2((#[trigger] final(boids)@[k]).velocity@) <= settings.max_speed
                * settings.max_speed);
        assert forall|k: int| 0 <= k < n implies boid_bounded(#[trigger] final(boids)@[k]) by {
            lemma_nsq_comp_bound(final(boids)@[k].velocity@, settings.max_speed as int);
        }
    }
}

/// Relies on `rand::Rng::gen_range` (through `rand::thread_rng`) over an
/// inclusive integer range: its documentation promises a value within the
/// range, and panics only for an empty range, which the precondition
/// rules out.  Nothing else is assumed of the sample.
#[verifier::external_body]
fn random_in_range(lo: i64, hi: i64) -> (r: i64)
    requires
        lo <= hi,
    ensures
        lo <= r <= hi,
{
    rand::Rng::gen_range(&mut rand::thread_rng(), lo..=hi)
}

/// Spawn `count` agents around `centroid`: each gets a fresh, monotonic
/// identifier, the shared starting velocity, and a position jittered
/// within Euclidean distance `radius` of the centroid (a random direction
/// scaled by a random signed radius, as drawn by the range sampler).
pub fn spawn_boid_group(
    boids: &mut Vec<Boid>,
    next_id: &mut u32,
    count: usize,
    centroid: Vec2Fix,
    radius: i64,
    velocity0: Vec2Fix,
)
    requires
        0 <= radius,
        -(POS_LIMIT as int) <= centroid.x - radius,
        centroid.x + radius <= POS_LIMIT as int,
        -(POS_LIMIT as int) <= centroid.y - radius,
        centroid.y + radius <= POS_LIMIT as int,
        in_lim(velocity0@, SPEED_LIMIT as int),
        *old(next_id) + count <= u32::MAX,
    ensures
        final(boids)@.len() == old(boids)@.len() + count,
        forall|i: int| 0 <= i < old(boids)@.len() ==> #[trigger] final(boids)@[i] == old(boids)@[i],
        forall|i: int|
            old(boids)@.len() <= i < final(boids)@.len() ==> {
                let nb = #[trigger] final(boids)@[i];
                &&& nb.id == *old(next_id) + (i - old(boids)@.len())
                &&& nb.velocity == velocity0
                &&& nb.acceleration@ == (0int, 0int)
                &&& nb.data@ == (((0int, 0int), (0int, 0int), (0int, 0int)))
                &&& nsq2(sub2(nb.position@, centroid@)) <= radius * radius
                &&& in_lim(nb.position@, POS_LIMIT as int)
                &&& boid_bounded(nb)
            },
        *final(next_id) == *old(next_id) + count,
{
    let base: usize = boids.len();
    let mut c: usize = 0;
    while c < count
        invariant
            c <= count,
            0 <= radius,
            -(POS_LIMIT as int) <= centroid.x - radius,
            centroid.x + radius <= POS_LIMIT as int,
            -(POS_LIMIT as int) <= centroid.y - radius,
            centroid.y + radius <= POS_LIMIT as int,
            in_lim(velocity0@, SPEED_LIMIT as int),
            *old(next_id) + count <= u32::MAX,
            base == old(boids)@.len(),
            boids@.len() == base + c,
            *next_id == *old(next_id) + c,
            forall|i: int| 0 <= i < base ==> #[trigger] boids@[i] == old(boids)@[i],
            forall|i: int|
                base <= i < base + c ==> {
                    let nb = #[trigger] boids@[i];
                    &&& nb.id == *old(next_id) + (i - base)
                    &&& nb.velocity == velocity0
                    &&& nb.acceleration@ == (0int, 0int)
                    &&& nb.data@ == (((0int, 0int), (0int, 0int), (0int, 0int)))
                    &&& nsq2(sub2(nb.position@, centroid@)) <= radius * radius
                    &&& in_lim(nb.position@, POS_LIMIT as int)
                    &&& boid_bounded(nb)
                },
        decreases count - c,
    {
        let ux: i64 = random_in_range(-FIX_ONE, FIX_ONE);
        let uy: i64 = random_in_range(-FIX_ONE, FIX_ONE);
        let u: Vec2Fix = Vec2Fix { x: ux, y: uy }.normalize_or_zero();
        let rr: i64 = random_in_range(-radius, radius);
        proof {
            assert(-(1000 * radius) <= u.x * rr <= 1000 * radius && -(1000 * radius) <= u.y * rr
                <= 1000 * radius) by (nonlinear_arith)
                requires
                    -1000 <= u.x <= 1000,
                    -1000 <= u.y <= 1000,
                    -radius <= rr <= radius,
                    0 <= radius,
            ;
            crate::fixed::lemma_tdiv_le(u.x * rr, FIX_ONE as int, radius as int);
            crate::fixed::lemma_tdiv_le(u.y * rr, FIX_ONE as int, radius as int);
            lemma_scale_div_norm(u@, rr as int, FIX_ONE as int);
            assert(rr * rr <= radius * radius) by (nonlinear_arith)
                requires
                    -radius <= rr <= radius,
            ;
        }
        let ox: i64 = crate::fixed::div_fix(u.x * rr, FIX_ONE);
        let oy: i64 = crate::fixed::div_fix(u.y * rr, FIX_ONE);
        let pos: Vec2Fix = Vec2Fix { x: centroid.x + ox, y: centroid.y + oy };
        let b: Boid = Boid::new(*next_id, pos, velocity0);
        boids.push(b);
        *next_id = *next_id + 1;
        c = c + 1;
    }
}

} // verus!
