//! The integrator and the boundary policy.
//!
//! Each tick, every agent's velocity gains `acceleration * dt` —
//! integrated exactly, in thousandths of a fixed-point unit, so even a
//! sub-unit kick moves a stationary agent — and its speed is clamped
//! into `[min_speed, max_speed]` by direction-preserving rescaling
//! through a high-precision unit direction (a velocity that integrates
//! to exactly zero stays zero).  Then its position advances by
//! `velocity * dt`; finally each coordinate that leaves the square play
//! area of side `AREA_SIDE` centered at the origin is teleported to the
//! opposite edge.

use vstd::prelude::*;
use crate::fixed::{
    tdiv, div_fix, clamp_fix, clamp_spec, sqrt_floor, lemma_tdiv_le, isqrt128, FIX_ONE,
};
use crate::vec2::{
    Vec2Fix, in_lim, nsq2, add2, scale_div2, rescale_fine2, lemma_rescale_fine,
    lemma_nsq_comp_bound, lemma_nsq_nonneg, COORD_LIMIT,
};
use crate::boid::Boid;
use crate::settings::{BoidSettings, SPEED_LIMIT, ACCEL_LIMIT};

verus! {

/// Largest elapsed time one integration step accepts: ten seconds, in
/// thousandths of a second.
pub const DT_LIMIT: i64 = 10_000;

/// Side of the square simulation area: 1000 world units, fixed-point.
pub const AREA_SIDE: i64 = 1_000_000;

/// Half the side of the simulation area; coordinates wrap outside
/// `[-HALF_AREA, HALF_AREA]`.
pub const HALF_AREA: i64 = 500_000;

/// The velocity integrated over `dt`, in fine units (thousandths of a
/// fixed-point unit): `velocity * FIX_ONE + acceleration * dt`, exact —
/// so any nonzero acceleration moves a stationary agent off zero.
pub open spec fn integ2(v: (int, int), a: (int, int), dt: int) -> (int, int) {
    (v.0 * FIX_ONE as int + a.0 * dt, v.1 * FIX_ONE as int + a.1 * dt)
}

/// The speed the clamp aims for: the integrated velocity's rounded-down
/// length in fixed-point units, clamped into `[min_speed, max_speed]`.
pub open spec fn speed_target2(v: (int, int), a: (int, int), s: BoidSettings, dt: int) -> int {
    clamp_spec(
        tdiv(sqrt_floor(nsq2(integ2(v, a, dt))), FIX_ONE as int),
        s.min_speed as int,
        s.max_speed as int,
    )
}

/// Velocity after one integration step: accelerate over `dt` (exactly, in
/// fine units), then clamp the speed into `[min_speed, max_speed]` by
/// rescaling through the fine unit direction.  A velocity that integrates
/// to exactly zero stays zero.
pub open spec fn vel_next2(v: (int, int), a: (int, int), s: BoidSettings, dt: int) -> (int, int) {
    rescale_fine2(integ2(v, a, dt), speed_target2(v, a, s, dt))
}

/// Position after one integration step: advance by `velocity * dt`.
pub open spec fn pos_next2(p: (int, int), v: (int, int), dt: int) -> (int, int) {
    add2(p, scale_div2(v, dt, FIX_ONE as int))
}

/// One coordinate after the boundary policy: a coordinate beyond an edge
/// is teleported to the opposite edge; anything inside is untouched.
pub open spec fn wrap1(x: int) -> int {
    if x > HALF_AREA as int {
        -(HALF_AREA as int)
    } else if x < -(HALF_AREA as int) {
        HALF_AREA as int
    } else {
        x
    }
}

/// A position after the boundary policy, each axis independently.
pub open spec fn wrap2(p: (int, int)) -> (int, int) {
    (wrap1(p.0), wrap1(p.1))
}

/// The boundary policy never moves an in-area position, always yields an
/// in-area position, and is idempotent.
pub proof fn lemma_wrap_props(p: (int, int))
    ensures
        in_lim(p, HALF_AREA as int) ==> wrap2(p) == p,
        in_lim(wrap2(p), HALF_AREA as int),
        wrap2(wrap2(p)) == wrap2(p),
{
}

/// Velocity integration for the whole flock, exactly [`vel_next2`] per
/// agent.  After the step every speed is at most `max_speed`; and unless
/// the velocity integrated to exactly zero, its squared norm also reaches
/// the clamped target speed up to 10 fixed-point units (one hundredth of
/// a world unit) — in particular at least `(min_speed - 10)^2`.
pub fn update_velocity(boids: &mut Vec<Boid>, settings: &BoidSettings, dt: i64)
    requires
        forall|i: int|
            0 <= i < old(boids)@.len() ==> in_lim(#[trigger] old(boids)@[i].velocity@,
                SPEED_LIMIT as int) && in_lim(old(boids)@[i].acceleration@, ACCEL_LIMIT as int),
        settings.valid(),
        0 <= dt <= DT_LIMIT,
    ensures
        final(boids)@.len() == old(boids)@.len(),
        forall|i: int|
            0 <= i < final(boids)@.len() ==> {
                let ob = old(boids)@[i];
                let nb = #[trigger] final(boids)@[i];
                let spd = speed_target2(ob.velocity@, ob.acceleration@, *settings, dt as int);
                &&& nb.id == ob.id
                &&& nb.position == ob.position
                &&& nb.acceleration == ob.acceleration
                &&& nb.data == ob.data
                &&& nb.velocity@ == vel_next2(ob.velocity@, ob.acceleration@, *settings, dt as int)
                &&& nsq2(nb.velocity@) <= settings.max_speed * settings.max_speed
                &&& in_lim(nb.velocity@, settings.max_speed as int)
                &&& nsq2(integ2(ob.velocity@, ob.acceleration@, dt as int)) != 0 ==> {
                    &&& settings.min_speed <= spd <= settings.max_speed
                    &&& nsq2(nb.velocity@) >= spd * spd - 10 * spd
                    &&& settings.min_speed >= 10 ==> nsq2(nb.velocity@) >= (settings.min_speed
                        - 10) * (settings.min_speed - 10)
                }
            },
{
    let ghost orig = boids@;
    let n: usize = boids.len();
    let mut k: usize = 0;
    while k < n
        invariant
            n == orig.len(),
            boids@.len() == n,
            settings.valid(),
            0 <= dt <= DT_LIMIT,
            k <= n,
            forall|i: int|
                0 <= i < n ==> in_lim(#[trigger] orig[i].velocity@, SPEED_LIMIT as int) && in_lim(
                    orig[i].acceleration@, ACCEL_LIMIT as int),
            forall|i: int| k <= i < n ==> #[trigger] boids@[i] == orig[i],
            forall|i: int|
                0 <= i < k ==> {
                    let ob = orig[i];
                    let nb = #[trigger] boids@[i];
                    let spd = speed_target2(ob.velocity@, ob.acceleration@, *settings, dt as int);
                    &&& nb.id == ob.id
                    &&& nb.position == ob.position
                    &&& nb.acceleration == ob.acceleration
                    &&& nb.data == ob.data
                    &&& nb.velocity@ == vel_next2(ob.velocity@, ob.acceleration@, *settings,
                        dt as int)
                    &&& nsq2(nb.velocity@) <= settings.max_speed * settings.max_speed
                    &&& in_lim(nb.velocity@, settings.max_speed as int)
                    &&& nsq2(integ2(ob.velocity@, ob.acceleration@, dt as int)) != 0 ==> {
                        &&& settings.min_speed <= spd <= settings.max_speed
                        &&& nsq2(nb.velocity@) >= spd * spd - 10 * spd
                        &&& settings.min_speed >= 10 ==> nsq2(nb.velocity@) >= (settings.min_speed
                            - 10) * (settings.min_speed - 10)
                    }
                },
        decreases n - k,
    {
        let mut b: Boid = boids[k];
        proof {
            assert(b == orig[k as int]);
            assert(in_lim(orig[k as int].velocity@, SPEED_LIMIT as int) && in_lim(
                orig[k as int].acceleration@, ACCEL_LIMIT as int));
            assert(-(ACCEL_LIMIT as int * DT_LIMIT as int) <= b.acceleration.x * dt
                <= ACCEL_LIMIT as int * DT_LIMIT as int && -(ACCEL_LIMIT as int * DT_LIMIT as int)
                <= b.acceleration.y * dt <= ACCEL_LIMIT as int * DT_LIMIT as int)
                by (nonlinear_arith)
                requires
                    -100_000_000 <= b.acceleration.x <= 100_000_000,
                    -100_000_000 <= b.acceleration.y <= 100_000_000,
                    0 <= dt <= 10_000,
            ;
        }
        let wx: i64 = b.velocity.x * FIX_ONE + b.acceleration.x * dt;
        let wy: i64 = b.velocity.y * FIX_ONE + b.acceleration.y * dt;
        let w: Vec2Fix = Vec2Fix { x: wx, y: wy };
        proof {
            assert(w@ == integ2(b.velocity@, b.acceleration@, dt as int));
            assert((wx as i128) * (wx as i128) + (wy as i128) * (wy as i128) <= 2 * (
            1_001_000_000_000int * 1_001_000_000_000int) && (wx as i128) * (wx as i128) >= 0 && (
            wy as i128) * (wy as i128) >= 0) by (nonlinear_arith)
                requires
                    -1_001_000_000_000 <= wx <= 1_001_000_000_000,
                    -1_001_000_000_000 <= wy <= 1_001_000_000_000,
            ;
        }
        let nn: i128 = (wx as i128) * (wx as i128) + (wy as i128) * (wy as i128);
        let fl: u128 = isqrt128(nn as u128);
        let q: u128 = fl / 1000;
        let qi: i64 = q as i64;
        proof {
            assert(qi as int == tdiv(sqrt_floor(nsq2(w@)), FIX_ONE as int));
        }
        let spd: i64 = clamp_fix(qi, settings.min_speed, settings.max_speed);
        let v2: Vec2Fix = w.rescale_fine(spd);
        proof {
            assert(spd as int == speed_target2(b.velocity@, b.acceleration@, *settings,
                dt as int));
            assert(spd * spd <= settings.max_speed * settings.max_speed && settings.max_speed
                * settings.max_speed >= 0) by (nonlinear_arith)
                requires
                    0 <= spd <= settings.max_speed,
            ;
            if nsq2(w@) != 0 {
                lemma_nsq_nonneg(w@);
                lemma_rescale_fine(w@, spd as int);
                lemma_nsq_comp_bound(v2@, settings.max_speed as int);
                assert(spd >= 10 && settings.min_speed >= 10 && spd >= settings.min_speed ==> (spd
                    - 10) * (spd - 10) >= (settings.min_speed - 10) * (settings.min_speed - 10))
                    by (nonlinear_arith);
            }
        }
        b.velocity = v2;
        boids[k] = b;
        k = k + 1;
    }
}

/// A stationary agent that receives any nonzero acceleration integrates
/// to a nonzero velocity (the integration is exact in fine units), so the
/// speed clamp then raises it toward `min_speed`; the rescale keeps the
/// acceleration's direction, componentwise.
pub proof fn lemma_accel_wakes_zero_velocity(a: (int, int), dt: int)
    requires
        !(a.0 == 0 && a.1 == 0),
        dt >= 1,
    ensures
        nsq2(integ2((0, 0), a, dt)) != 0,
{
    let w: (int, int) = integ2((0, 0), a, dt);
    assert((a.0 != 0 ==> w.0 != 0) && (a.1 != 0 ==> w.1 != 0)) by (nonlinear_arith)
        requires
            w.0 == a.0 * dt,
            w.1 == a.1 * dt,
            dt >= 1,
    ;
    lemma_nsq_nonneg(w);
    assert((w.0 != 0 || w.1 != 0) ==> nsq2(w) != 0) by (nonlinear_arith);
}


/// The speed clamp, both sides: unless the velocity integrated to exactly
/// zero, the new speed's square is at most the clamped target's square
/// and reaches it up to 10 fixed-point units (a hundredth of a world
/// unit) — in particular at least `(min_speed - 10)^2`.  Together with
/// the zero case of [`vel_next2`] this is the speed-bound law of the
/// integrator, stated for any caller that knows a tick's velocity equals
/// [`vel_next2`].
pub proof fn lemma_speed_floor(v: (int, int), a: (int, int), s: BoidSettings, dt: int)
    requires
        s.valid(),
        nsq2(integ2(v, a, dt)) != 0,
    ensures
        ({
            let spd = speed_target2(v, a, s, dt);
            let w = vel_next2(v, a, s, dt);
            &&& s.min_speed <= spd <= s.max_speed
            &&& nsq2(w) <= spd * spd
            &&& nsq2(w) >= spd * spd - 10 * spd
            &&& s.min_speed >= 10 ==> nsq2(w) >= (s.min_speed - 10) * (s.min_speed - 10)
        }),
{
    let w: (int, int) = integ2(v, a, dt);
    lemma_nsq_nonneg(w);
    let spd: int = speed_target2(v, a, s, dt);
    lemma_rescale_fine(w, spd);
    assert(spd >= 10 && s.min_speed >= 10 && spd >= s.min_speed ==> (spd - 10) * (spd - 10) >= (
    s.min_speed - 10) * (s.min_speed - 10)) by (nonlinear_arith);
}

/// Position integration for the whole flock, exactly [`pos_next2`] per
/// agent.  A position can leave the play area here; the boundary pass
/// brings it back.
pub fn update_position(boids: &mut Vec<Boid>, dt: i64)
    requires
        forall|i: int|
            0 <= i < old(boids)@.len() ==> in_lim(#[trigger] old(boids)@[i].velocity@,
                SPEED_LIMIT as int) && in_lim(old(boids)@[i].position@, COORD_LIMIT as int),
        0 <= dt <= DT_LIMIT,
    ensures
        final(boids)@.len() == old(boids)@.len(),
        forall|i: int|
            0 <= i < final(boids)@.len() ==> {
                let ob = old(boids)@[i];
                let nb = #[trigger] final(boids)@[i];
                &&& nb.id == ob.id
                &&& nb.velocity == ob.velocity
                &&& nb.acceleration == ob.acceleration
                &&& nb.data == ob.data
                &&& nb.position@ == pos_next2(ob.position@, ob.velocity@, dt as int)
            },
{
    let ghost orig = boids@;
    let n: usize = boids.len();
    let mut k: usize = 0;
    while k < n
        invariant
            n == orig.len(),
            boids@.len() == n,
            0 <= dt <= DT_LIMIT,
            k <= n,
            forall|i: int|
                0 <= i < n ==> in_lim(#[trigger] orig[i].velocity@, SPEED_LIMIT as int) && in_lim(
                    orig[i].position@, COORD_LIMIT as int),
            forall|i: int| k <= i < n ==> #[trigger] boids@[i] == orig[i],
            forall|i: int|
                0 <= i < k ==> {
                    let ob = orig[i];
                    let nb = #[trigger] boids@[i];
                    &&& nb.id == ob.id
                    &&& nb.velocity == ob.velocity
                    &&& nb.acceleration == ob.acceleration
                    &&& nb.data == ob.data
                    &&& nb.position@ == pos_next2(ob.position@, ob.velocity@, dt as int)
                },
        decreases n - k,
    {
        let mut b: Boid = boids[k];
        proof {
            assert(b == orig[k as int]);
            assert(in_lim(orig[k as int].velocity@, SPEED_LIMIT as int) && in_lim(
                orig[k as int].position@, COORD_LIMIT as int));
            assert(-(SPEED_LIMIT as int * DT_LIMIT as int) <= b.velocity.x * dt
                <= SPEED_LIMIT as int * DT_LIMIT as int && -(SPEED_LIMIT as int * DT_LIMIT as int)
                <= b.velocity.y * dt <= SPEED_LIMIT as int * DT_LIMIT as int) by (nonlinear_arith)
                requires
                    -1_000_000 <= b.velocity.x <= 1_000_000,
                    -1_000_000 <= b.velocity.y <= 1_000_000,
                    0 <= dt <= 10_000,
            ;
            lemma_tdiv_le(b.velocity.x * dt, FIX_ONE as int, 10_000_000);
            lemma_tdiv_le(b.velocity.y * dt, FIX_ONE as int, 10_000_000);
        }
        let dpx: i64 = div_fix(b.velocity.x * dt, FIX_ONE);
        let dpy: i64 = div_fix(b.velocity.y * dt, FIX_ONE);
        b.position = Vec2Fix { x: b.position.x + dpx, y: b.position.y + dpy };
        boids[k] = b;
        k = k + 1;
    }
}

/// The boundary policy for one position.
pub fn wrap_position(p: Vec2Fix) -> (r: Vec2Fix)
    ensures
        r@ == wrap2(p@),
        in_lim(r@, HALF_AREA as int),
        in_lim(p@, HALF_AREA as int) ==> r == p,
{
    let mut x: i64 = p.x;
    let mut y: i64 = p.y;
    if x > HALF_AREA {
        x = -HALF_AREA;
    } else if x < -HALF_AREA {
        x = HALF_AREA;
    }
    if y > HALF_AREA {
        y = -HALF_AREA;
    } else if y < -HALF_AREA {
        y = HALF_AREA;
    }
    Vec2Fix { x, y }
}

/// The boundary pass: wrap every agent's position back into the play
/// area, leaving everything else untouched.
pub fn bound(boids: &mut Vec<Boid>)
    ensures
        final(boids)@.len() == old(boids)@.len(),
        forall|i: int|
            0 <= i < final(boids)@.len() ==> {
                let ob = old(boids)@[i];
                let nb = #[trigger] final(boids)@[i];
                &&& nb.id == ob.id
                &&& nb.velocity == ob.velocity
                &&& nb.acceleration == ob.acceleration
                &&& nb.data == ob.data
                &&& nb.position@ == wrap2(ob.position@)
                &&& in_lim(nb.position@, HALF_AREA as int)
            },
{
    let ghost orig = boids@;
    let n: usize = boids.len();
    let mut k: usize = 0;
    while k < n
        invariant
            n == orig.len(),
            boids@.len() == n,
            k <= n,
            forall|i: int| k <= i < n ==> #[trigger] boids@[i] == orig[i],
            forall|i: int|
                0 <= i < k ==> {
                    let ob = orig[i];
                    let nb = #[trigger] boids@[i];
                    &&& nb.id == ob.id
                    &&& nb.velocity == ob.velocity
                    &&& nb.acceleration == ob.acceleration
                    &&& nb.data == ob.data
                    &&& nb.position@ == wrap2(ob.position@)
                    &&& in_lim(nb.position@, HALF_AREA as int)
                },
        decreases n - k,
    {
        let mut b: Boid = boids[k];
        b.position = wrap_position(b.position);
        boids[k] = b;
        k = k + 1;
    }
}


} // verus!
