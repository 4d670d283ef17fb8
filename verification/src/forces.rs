//! The neighbor force model and the steering controller.
//!
//! For every pair of distinct agents that can see each other, the force
//! model derives three influence vectors: separation (repulsion scaled by
//! inverse squared distance), alignment (the neighbor's raw velocity) and
//! cohesion (the neighbor's raw position).  How an agent combines the
//! contributions of several visible neighbors is an explicit policy: the
//! default averages them; a compatibility variant keeps only the last
//! neighbor visited, in index order.  An agent that sees nobody keeps its
//! previous influence buffer.
//!
//! The steering controller turns each influence vector into a force — the
//! difference between the desired velocity (the influence's direction at
//! `max_speed`) and the current velocity, clamped to `max_steer_force` —
//! and sums the enabled, weighted contributions into the acceleration.
//!
//! Both passes read only pre-pass state: influences are computed for all
//! agents from one snapshot before any acceleration is written.

use vstd::prelude::*;
use crate::fixed::{tdiv, div_fix, lemma_tdiv_mag, lemma_tdiv_le, FIX_ONE};
use crate::vec2::{
    Vec2Fix, in_lim, nsq2, add2, sub2, scale_div2, norm2, clamp_len2, lemma_nsq_comp_bound,
    COORD_LIMIT,
};
use crate::boid::{Boid, BoidData, data_bounded, flock_force_ready, INFLUENCE_LIMIT};
use crate::settings::{BoidSettings, SPEED_LIMIT, ACCEL_LIMIT, WEIGHT_LIMIT};

verus! {

/// Most agents the passes accept in one flock; keeps every influence sum
/// within `i64` range.
pub const MAX_AGENTS: usize = 1000;

/// How the force model aggregates the contributions of several visible
/// neighbors into one influence buffer.
#[derive(Clone, Copy, PartialEq, Eq, Structural, Debug)]
pub enum InfluencePolicy {
    /// Average the contributions of all visible neighbors (the default).
    Averaged,
    /// Keep only the contribution of the last neighbor visited in index
    /// order, replicating the overwrite behavior of a naive pairwise loop.
    LastWriterWins,
}

/// The kinematic snapshot a force pass reads: each agent's (position,
/// velocity) as integer pairs.
pub open spec fn kin_of(bs: Seq<Boid>) -> Seq<((int, int), (int, int))> {
    Seq::new(bs.len(), |i: int| (bs[i].position@, bs[i].velocity@))
}

/// Separation influence of a neighbor at `b` on an agent at `a`: the unit
/// vector pointing away from the neighbor, divided by the squared world
/// distance (strongest at close range).  Two agents at the same position
/// contribute zero.
pub open spec fn sep2(a: (int, int), b: (int, int)) -> (int, int) {
    let d = sub2(a, b);
    if nsq2(d) == 0 {
        (0, 0)
    } else {
        scale_div2(norm2(d), FIX_ONE as int * FIX_ONE as int, nsq2(d))
    }
}

/// Sum of separation contributions to agent `k` from agents `0..j`
/// (skipping `k` itself).
pub open spec fn sep_sum(kin: Seq<((int, int), (int, int))>, k: int, j: int) -> (int, int)
    decreases j,
{
    if j <= 0 {
        (0, 0)
    } else if j - 1 == k {
        sep_sum(kin, k, j - 1)
    } else {
        add2(sep_sum(kin, k, j - 1), sep2(kin[k].0, kin[j - 1].0))
    }
}

/// Sum of alignment contributions (neighbors' velocities) to agent `k`
/// from agents `0..j`.
pub open spec fn ali_sum(kin: Seq<((int, int), (int, int))>, k: int, j: int) -> (int, int)
    decreases j,
{
    if j <= 0 {
        (0, 0)
    } else if j - 1 == k {
        ali_sum(kin, k, j - 1)
    } else {
        add2(ali_sum(kin, k, j - 1), kin[j - 1].1)
    }
}

/// Sum of cohesion contributions (neighbors' positions) to agent `k` from
/// agents `0..j`.
pub open spec fn coh_sum(kin: Seq<((int, int), (int, int))>, k: int, j: int) -> (int, int)
    decreases j,
{
    if j <= 0 {
        (0, 0)
    } else if j - 1 == k {
        coh_sum(kin, k, j - 1)
    } else {
        add2(coh_sum(kin, k, j - 1), kin[j - 1].0)
    }
}

/// Index of the last agent before `j` that is not `k`, or `-1` if there is
/// none: the neighbor whose contribution survives under
/// [`InfluencePolicy::LastWriterWins`].
pub open spec fn last_other(k: int, j: int) -> int {
    if j >= 1 && j - 1 != k {
        j - 1
    } else if j >= 2 {
        j - 2
    } else {
        -1
    }
}

/// The influence buffer of agent `k` after one force pass over the
/// snapshot `kin`: unchanged if no other agent is visible, otherwise the
/// aggregate that the policy selects.
pub open spec fn influence_after(
    kin: Seq<((int, int), (int, int))>,
    k: int,
    cur: ((int, int), (int, int), (int, int)),
    policy: InfluencePolicy,
) -> ((int, int), (int, int), (int, int)) {
    let n = kin.len() as int;
    let lj = last_other(k, n);
    if lj < 0 {
        cur
    } else {
        match policy {
            InfluencePolicy::Averaged => (
                scale_div2(sep_sum(kin, k, n), 1, n - 1),
                scale_div2(ali_sum(kin, k, n), 1, n - 1),
                scale_div2(coh_sum(kin, k, n), 1, n - 1),
            ),
            InfluencePolicy::LastWriterWins => (
                sep2(kin[k].0, kin[lj].0),
                kin[lj].1,
                kin[lj].0,
            ),
        }
    }
}

/// One steering contribution: zero for a zero influence, otherwise the
/// difference between the desired velocity (the influence's direction at
/// `max_speed`) and the current velocity, clamped to length `max_steer`.
pub open spec fn steer2(t: (int, int), vel: (int, int), max_speed: int, max_steer: int) -> (
    int,
    int,
) {
    if nsq2(t) == 0 {
        (0, 0)
    } else {
        clamp_len2(sub2(scale_div2(norm2(t), max_speed, FIX_ONE as int), vel), max_steer)
    }
}

/// A weighted steering contribution: the steering force scaled by the
/// behavior's weight (a weight of `FIX_ONE` is a factor of one).
pub open spec fn contrib2(t: (int, int), vel: (int, int), s: BoidSettings, w: int) -> (int, int) {
    scale_div2(steer2(t, vel, s.max_speed as int, s.max_steer_force as int), w, FIX_ONE as int)
}

/// The acceleration the steering controller writes: the sum of the
/// enabled, weighted contributions of the three behaviors.
pub open spec fn accel2(
    data: ((int, int), (int, int), (int, int)),
    vel: (int, int),
    s: BoidSettings,
) -> (int, int) {
    let c0 = if s.separation {
        contrib2(data.0, vel, s, s.separation_weight as int)
    } else {
        (0, 0)
    };
    let c1 = if s.alignment {
        contrib2(data.1, vel, s, s.alignment_weight as int)
    } else {
        (0, 0)
    };
    let c2 = if s.cohesion {
        contrib2(data.2, vel, s, s.cohesion_weight as int)
    } else {
        (0, 0)
    };
    add2(add2(c0, c1), c2)
}

/// Visibility predicate over two agents' kinematic state.  Deliberately a
/// stub that sees everything; `vision_radius` and `vision_angle` are
/// reserved for a future gate, and contracts downstream assume every pair
/// is visible.
pub fn can_see(a: &Boid, b: &Boid, settings: &BoidSettings) -> (r: bool)
    ensures
        r,
{
    let _ = a.id;
    let _ = b.id;
    let _ = settings.vision_radius;
    true
}

/// The separation force a neighbor at `p2` exerts on an agent at `p1`:
/// points from `p2` toward `p1` and falls off with the squared distance.
pub fn get_separation_force(p1: Vec2Fix, p2: Vec2Fix) -> (r: Vec2Fix)
    requires
        in_lim(p1@, INFLUENCE_LIMIT as int),
        in_lim(p2@, INFLUENCE_LIMIT as int),
    ensures
        r@ == sep2(p1@, p2@),
        in_lim(r@, INFLUENCE_LIMIT as int),
{
    let d: Vec2Fix = p1.minus(p2);
    let ns: i64 = d.norm_sq();
    if ns == 0 {
        Vec2Fix::zero()
    } else {
        let u: Vec2Fix = d.normalize_or_zero();
        proof {
            assert(ns * INFLUENCE_LIMIT as int >= 1_000_000_000) by (nonlinear_arith)
                requires
                    ns >= 1,
            ;
            lemma_tdiv_le(u.x * (FIX_ONE as int * FIX_ONE as int), ns as int,
                INFLUENCE_LIMIT as int);
            lemma_tdiv_le(u.y * (FIX_ONE as int * FIX_ONE as int), ns as int,
                INFLUENCE_LIMIT as int);
        }
        Vec2Fix { x: div_fix(u.x * (FIX_ONE * FIX_ONE), ns), y: div_fix(u.y * (FIX_ONE * FIX_ONE), ns) }
    }
}

/// The alignment influence of a neighbor: its raw velocity.
pub fn get_alignment_force(velocity: Vec2Fix) -> (r: Vec2Fix)
    ensures
        r == velocity,
{
    velocity
}

/// The cohesion influence of a neighbor: its raw position.
pub fn get_cohesion_force(position: Vec2Fix) -> (r: Vec2Fix)
    ensures
        r == position,
{
    position
}

/// One steering contribution, exactly [`steer2`]: its length never
/// exceeds `max_steer_force`, whatever the influence vector.
pub fn steer_towards(target: Vec2Fix, settings: &BoidSettings, velocity: Vec2Fix) -> (r: Vec2Fix)
    requires
        in_lim(target@, COORD_LIMIT as int),
        in_lim(velocity@, SPEED_LIMIT as int),
        settings.valid(),
    ensures
        r@ == steer2(target@, velocity@, settings.max_speed as int,
            settings.max_steer_force as int),
        nsq2(r@) <= settings.max_steer_force * settings.max_steer_force,
        in_lim(r@, settings.max_steer_force as int),
{
    let ns: i64 = target.norm_sq();
    if ns == 0 {
        proof {
            assert(settings.max_steer_force * settings.max_steer_force >= 0) by (nonlinear_arith)
                requires
                    settings.max_steer_force >= 0,
            ;
        }
        Vec2Fix::zero()
    } else {
        let u: Vec2Fix = target.normalize_or_zero();
        proof {
            assert(-(1000 * settings.max_speed) <= u.x * settings.max_speed <= 1000
                * settings.max_speed && -(1000 * settings.max_speed) <= u.y * settings.max_speed
                <= 1000 * settings.max_speed) by (nonlinear_arith)
                requires
                    -1000 <= u.x <= 1000,
                    -1000 <= u.y <= 1000,
                    settings.max_speed >= 0,
            ;
            lemma_tdiv_le(u.x * settings.max_speed, FIX_ONE as int, settings.max_speed as int);
            lemma_tdiv_le(u.y * settings.max_speed, FIX_ONE as int, settings.max_speed as int);
        }
        let desired: Vec2Fix = Vec2Fix {
            x: div_fix(u.x * settings.max_speed, FIX_ONE),
            y: div_fix(u.y * settings.max_speed, FIX_ONE),
        };
        let diff: Vec2Fix = desired.minus(velocity);
        diff.clamp_len(settings.max_steer_force)
    }
}

/// `tdiv(v * w, FIX_ONE) * FIX_ONE` stays within `msf * w` when
/// `|v| <= msf` and the weight is nonnegative.
proof fn lemma_contrib_bound(v: int, w: int, msf: int)
    requires
        -msf <= v <= msf,
        0 <= w <= WEIGHT_LIMIT,
        0 <= msf <= SPEED_LIMIT,
    ensures
        -(msf * w) <= v * w <= msf * w,
        0 <= msf * w <= 1_000_000_000_000_000,
        -(msf * w) <= tdiv(v * w, FIX_ONE as int) * (FIX_ONE as int) <= msf * w,
{
    lemma_tdiv_mag(v * w, FIX_ONE as int);
    assert(-(msf * w) <= v * w <= msf * w && msf * w <= 1_000_000_000int * 1_000_000int)
        by (nonlinear_arith)
        requires
            -msf <= v <= msf,
            0 <= w <= 1_000_000,
            0 <= msf <= 1_000_000_000,
    ;
    assert(0 <= msf * w) by (nonlinear_arith)
        requires
            0 <= w,
            0 <= msf,
    ;
}

/// The acceleration for one agent, exactly [`accel2`]; each component is
/// bounded by `ACCEL_LIMIT` whenever the settings are valid.
pub fn steering_accel(data: &BoidData, velocity: Vec2Fix, settings: &BoidSettings) -> (a: Vec2Fix)
    requires
        in_lim(data.separation@, INFLUENCE_LIMIT as int),
        in_lim(data.alignment@, INFLUENCE_LIMIT as int),
        in_lim(data.cohesion@, INFLUENCE_LIMIT as int),
        in_lim(velocity@, SPEED_LIMIT as int),
        settings.valid(),
    ensures
        a@ == accel2(data@, velocity@, *settings),
        in_lim(a@, ACCEL_LIMIT as int),
{
    let sf: Vec2Fix = steer_towards(data.separation, settings, velocity);
    let af: Vec2Fix = steer_towards(data.alignment, settings, velocity);
    let cf: Vec2Fix = steer_towards(data.cohesion, settings, velocity);
    let msf: i64 = settings.max_steer_force;
    proof {
        lemma_contrib_bound(sf.x as int, settings.separation_weight as int, msf as int);
        lemma_contrib_bound(sf.y as int, settings.separation_weight as int, msf as int);
        lemma_contrib_bound(af.x as int, settings.alignment_weight as int, msf as int);
        lemma_contrib_bound(af.y as int, settings.alignment_weight as int, msf as int);
        lemma_contrib_bound(cf.x as int, settings.cohesion_weight as int, msf as int);
        lemma_contrib_bound(cf.y as int, settings.cohesion_weight as int, msf as int);
    }
    let c0x: i64 = if settings.separation {
        div_fix(sf.x * settings.separation_weight, FIX_ONE)
    } else {
        0
    };
    let c0y: i64 = if settings.separation {
        div_fix(sf.y * settings.separation_weight, FIX_ONE)
    } else {
        0
    };
    let c1x: i64 = if settings.alignment {
        div_fix(af.x * settings.alignment_weight, FIX_ONE)
    } else {
        0
    };
    let c1y: i64 = if settings.alignment {
        div_fix(af.y * settings.alignment_weight, FIX_ONE)
    } else {
        0
    };
    let c2x: i64 = if settings.cohesion {
        div_fix(cf.x * settings.cohesion_weight, FIX_ONE)
    } else {
        0
    };
    let c2y: i64 = if settings.cohesion {
        div_fix(cf.y * settings.cohesion_weight, FIX_ONE)
    } else {
        0
    };
    proof {
        let msfi: int = msf as int;
        let ws: int = settings.separation_weight as int;
        let wa: int = settings.alignment_weight as int;
        let wc: int = settings.cohesion_weight as int;
        assert(msfi * ws + msfi * wa + msfi * wc == msfi * (ws + wa + wc)) by (nonlinear_arith);
        assert((c0x + c1x + c2x) * 1000 == c0x * 1000 + c1x * 1000 + c2x * 1000);
        assert((c0y + c1y + c2y) * 1000 == c0y * 1000 + c1y * 1000 + c2y * 1000);
    }
    Vec2Fix { x: c0x + c1x + c2x, y: c0y + c1y + c2y }
}


/// The influence buffer one force pass assigns to agent `k`, computed
/// from a read-only snapshot of the flock.
fn influence_for(
    boids: &Vec<Boid>,
    k: usize,
    settings: &BoidSettings,
    policy: InfluencePolicy,
) -> (d: BoidData)
    requires
        flock_force_ready(boids@),
        boids@.len() <= MAX_AGENTS,
        k < boids@.len(),
        settings.valid(),
    ensures
        d@ == influence_after(kin_of(boids@), k as int, boids@[k as int].data@, policy),
        data_bounded(d),
{
    let ghost kin = kin_of(boids@);
    let n: usize = boids.len();
    let me: Boid = boids[k];
    let mut sep_x: i64 = 0;
    let mut sep_y: i64 = 0;
    let mut ali_x: i64 = 0;
    let mut ali_y: i64 = 0;
    let mut coh_x: i64 = 0;
    let mut coh_y: i64 = 0;
    let mut last_sep: Vec2Fix = Vec2Fix::zero();
    let mut last_ali: Vec2Fix = Vec2Fix::zero();
    let mut last_coh: Vec2Fix = Vec2Fix::zero();
    let mut found: bool = false;
    let mut j: usize = 0;
    while j < n
        invariant
            n == boids@.len(),
            n <= MAX_AGENTS,
            k < n,
            j <= n,
            flock_force_ready(boids@),
            settings.valid(),
            kin == kin_of(boids@),
            me == boids@[k as int],
            (sep_x as int, sep_y as int) == sep_sum(kin, k as int, j as int),
            (ali_x as int, ali_y as int) == ali_sum(kin, k as int, j as int),
            (coh_x as int, coh_y as int) == coh_sum(kin, k as int, j as int),
            ({
                let c = if j > k {
                    j as int - 1
                } else {
                    j as int
                };
                &&& -(c * (INFLUENCE_LIMIT as int)) <= sep_x as int <= c * (INFLUENCE_LIMIT as int)
                &&& -(c * (INFLUENCE_LIMIT as int)) <= sep_y as int <= c * (INFLUENCE_LIMIT as int)
                &&& -(c * (INFLUENCE_LIMIT as int)) <= ali_x as int <= c * (INFLUENCE_LIMIT as int)
                &&& -(c * (INFLUENCE_LIMIT as int)) <= ali_y as int <= c * (INFLUENCE_LIMIT as int)
                &&& -(c * (INFLUENCE_LIMIT as int)) <= coh_x as int <= c * (INFLUENCE_LIMIT as int)
                &&& -(c * (INFLUENCE_LIMIT as int)) <= coh_y as int <= c * (INFLUENCE_LIMIT as int)
            }),
            found == (last_other(k as int, j as int) >= 0),
            found ==> ({
                let lo = last_other(k as int, j as int);
                &&& last_sep@ == sep2(kin[k as int].0, kin[lo].0)
                &&& last_ali@ == kin[lo].1
                &&& last_coh@ == kin[lo].0
                &&& in_lim(last_sep@, INFLUENCE_LIMIT as int)
                &&& in_lim(last_ali@, INFLUENCE_LIMIT as int)
                &&& in_lim(last_coh@, INFLUENCE_LIMIT as int)
            }),
        decreases n - j,
    {
        if j != k {
            let other: Boid = boids[j];
            proof {
                assert(kin[j as int] == (other.position@, other.velocity@));
                assert(kin[k as int] == (me.position@, me.velocity@));
            }
            if can_see(&me, &other, settings) {
                let s: Vec2Fix = get_separation_force(me.position, other.position);
                sep_x = sep_x + s.x;
                sep_y = sep_y + s.y;
                ali_x = ali_x + other.velocity.x;
                ali_y = ali_y + other.velocity.y;
                coh_x = coh_x + other.position.x;
                coh_y = coh_y + other.position.y;
                last_sep = s;
                last_ali = other.velocity;
                last_coh = other.position;
                found = true;
            }
        }
        j = j + 1;
    }
    if !found {
        me.data
    } else {
        match policy {
            InfluencePolicy::Averaged => {
                let cnt: i64 = (n - 1) as i64;
                proof {
                    lemma_tdiv_le(sep_x as int, cnt as int, INFLUENCE_LIMIT as int);
                    lemma_tdiv_le(sep_y as int, cnt as int, INFLUENCE_LIMIT as int);
                    lemma_tdiv_le(ali_x as int, cnt as int, INFLUENCE_LIMIT as int);
                    lemma_tdiv_le(ali_y as int, cnt as int, INFLUENCE_LIMIT as int);
                    lemma_tdiv_le(coh_x as int, cnt as int, INFLUENCE_LIMIT as int);
                    lemma_tdiv_le(coh_y as int, cnt as int, INFLUENCE_LIMIT as int);
                }
                BoidData {
                    separation: Vec2Fix { x: div_fix(sep_x, cnt), y: div_fix(sep_y, cnt) },
                    alignment: Vec2Fix { x: div_fix(ali_x, cnt), y: div_fix(ali_y, cnt) },
                    cohesion: Vec2Fix { x: div_fix(coh_x, cnt), y: div_fix(coh_y, cnt) },
                }
            },
            InfluencePolicy::LastWriterWins => {
                BoidData { separation: last_sep, alignment: last_ali, cohesion: last_coh }
            },
        }
    }
}

/// The neighbor force pass: recompute every agent's influence buffer from
/// one snapshot of the whole flock, under the given aggregation policy.
/// No position, velocity, acceleration or identifier changes.
pub fn compute_influences(boids: &mut Vec<Boid>, settings: &BoidSettings, policy: InfluencePolicy)
    requires
        flock_force_ready(old(boids)@),
        old(boids)@.len() <= MAX_AGENTS,
        settings.valid(),
    ensures
        final(boids)@.len() == old(boids)@.len(),
        forall|i: int|
            0 <= i < final(boids)@.len() ==> {
                let ob = old(boids)@[i];
                let nb = #[trigger] final(boids)@[i];
                &&& nb.id == ob.id
                &&& nb.position == ob.position
                &&& nb.velocity == ob.velocity
                &&& nb.acceleration == ob.acceleration
                &&& nb.data@ == influence_after(kin_of(old(boids)@), i, ob.data@, policy)
                &&& data_bounded(nb.data)
            },
{
    let ghost orig = boids@;
    let n: usize = boids.len();
    let mut new_data: Vec<BoidData> = Vec::new();
    let mut k: usize = 0;
    while k < n
        invariant
            boids@ == orig,
            n == orig.len(),
            n <= MAX_AGENTS,
            flock_force_ready(orig),
            settings.valid(),
            k <= n,
            new_data@.len() == k as int,
            forall|i: int|
                0 <= i < k ==> (#[trigger] new_data@[i])@ == influence_after(kin_of(orig), i,
                    orig[i].data@, policy) && data_bounded(new_data@[i]),
        decreases n - k,
    {
        let d: BoidData = influence_for(boids, k, settings, policy);
        new_data.push(d);
        k = k + 1;
    }
    let mut k: usize = 0;
    while k < n
        invariant
            n == orig.len(),
            boids@.len() == n,
            new_data@.len() == n,
            flock_force_ready(orig),
            k <= n,
            forall|i: int|
                0 <= i < n ==> (#[trigger] new_data@[i])@ == influence_after(kin_of(orig), i,
                    orig[i].data@, policy) && data_bounded(new_data@[i]),
            forall|i: int| k <= i < n ==> #[trigger] boids@[i] == orig[i],
            forall|i: int|
                0 <= i < k ==> {
                    let ob = orig[i];
                    let nb = #[trigger] boids@[i];
                    &&& nb.id == ob.id
                    &&& nb.position == ob.position
                    &&& nb.velocity == ob.velocity
                    &&& nb.acceleration == ob.acceleration
                    &&& nb.data == new_data@[i]
                },
        decreases n - k,
    {
        let mut b: Boid = boids[k];
        b.data = new_data[k];
        boids[k] = b;
        k = k + 1;
    }
}

/// One whole simulation pass of the force model and steering controller:
/// every agent's influence buffer is recomputed from the pre-pass
/// snapshot, then its acceleration is overwritten with the sum of the
/// enabled, weighted steering contributions.
pub fn simulate_boids(boids: &mut Vec<Boid>, settings: &BoidSettings, policy: InfluencePolicy)
    requires
        flock_force_ready(old(boids)@),
        old(boids)@.len() <= MAX_AGENTS,
        settings.valid(),
    ensures
        final(boids)@.len() == old(boids)@.len(),
        forall|i: int|
            0 <= i < final(boids)@.len() ==> {
                let ob = old(boids)@[i];
                let nb = #[trigger] final(boids)@[i];
                let infl = influence_after(kin_of(old(boids)@), i, ob.data@, policy);
                &&& nb.id == ob.id
                &&& nb.position == ob.position
                &&& nb.velocity == ob.velocity
                &&& nb.data@ == infl
                &&& nb.acceleration@ == accel2(infl, ob.velocity@, *settings)
                &&& data_bounded(nb.data)
                &&& in_lim(nb.acceleration@, ACCEL_LIMIT as int)
            },
{
    compute_influences(boids, settings, policy);
    let ghost orig = old(boids)@;
    let ghost mid = boids@;
    let n: usize = boids.len();
    let mut k: usize = 0;
    while k < n
        invariant
            n == mid.len(),
            n == orig.len(),
            boids@.len() == n,
            flock_force_ready(mid),
            settings.valid(),
            forall|i: int|
                0 <= i < n ==> #[trigger] mid[i].data@ == influence_after(kin_of(orig), i,
                    orig[i].data@, policy) && data_bounded(mid[i].data),
            k <= n,
            forall|i: int| k <= i < n ==> #[trigger] boids@[i] == mid[i],
            forall|i: int|
                0 <= i < k ==> {
                    let mb = mid[i];
                    let nb = #[trigger] boids@[i];
                    &&& nb.id == mb.id
                    &&& nb.position == mb.position
                    &&& nb.velocity == mb.velocity
                    &&& nb.data == mb.data
                    &&& nb.acceleration@ == accel2(mb.data@, mb.velocity@, *settings)
                    &&& in_lim(nb.acceleration@, ACCEL_LIMIT as int)
                },
        decreases n - k,
    {
        let mut b: Boid = boids[k];
        let a: Vec2Fix = steering_accel(&b.data, b.velocity, settings);
        b.acceleration = a;
        boids[k] = b;
        k = k + 1;
    }
}

/// A behavior whose influence vector is zero contributes nothing to the
/// acceleration, and an agent whose whole influence buffer is zero
/// receives zero acceleration: with no (remembered) neighbor signal there
/// is no steering.
pub proof fn lemma_zero_influence(
    data: ((int, int), (int, int), (int, int)),
    vel: (int, int),
    s: BoidSettings,
)
    requires
        s.valid(),
    ensures
        nsq2(data.0) == 0 ==> contrib2(data.0, vel, s, s.separation_weight as int) == (0int, 0int),
        nsq2(data.1) == 0 ==> contrib2(data.1, vel, s, s.alignment_weight as int) == (0int, 0int),
        nsq2(data.2) == 0 ==> contrib2(data.2, vel, s, s.cohesion_weight as int) == (0int, 0int),
        nsq2(data.0) == 0 && nsq2(data.1) == 0 && nsq2(data.2) == 0 ==> accel2(data, vel, s) == (
            0int,
            0int,
        ),
{
    if nsq2(data.0) == 0 {
        crate::vec2::lemma_scale_div_zero(s.separation_weight as int, FIX_ONE as int);
    }
    if nsq2(data.1) == 0 {
        crate::vec2::lemma_scale_div_zero(s.alignment_weight as int, FIX_ONE as int);
    }
    if nsq2(data.2) == 0 {
        crate::vec2::lemma_scale_div_zero(s.cohesion_weight as int, FIX_ONE as int);
    }
}

} // verus!
