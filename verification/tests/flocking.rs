//! Scenario tests for the flocking core: documented defaults, the force
//! model, steering clamp, speed clamp, boundary wrap, spawning, and one
//! end-to-end tick.  All coordinates are fixed-point thousandths of a
//! world unit.

use boids::boid::{Boid, BoidData};
use boids::forces::{
    can_see, get_alignment_force, get_cohesion_force, get_separation_force, simulate_boids,
    steer_towards, InfluencePolicy,
};
use boids::motion::{bound, update_position, update_velocity, wrap_position};
use boids::settings::BoidSettings;
use boids::sim::{spawn_boid_group, tick, TickOrder};
use boids::vec2::Vec2Fix;

fn v(x: i64, y: i64) -> Vec2Fix {
    Vec2Fix::new(x, y)
}

fn boid_at(id: u32, px: i64, py: i64) -> Boid {
    Boid::new(id, v(px, py), v(0, 0))
}

#[test]
fn default_settings_are_documented_values() {
    let s = BoidSettings::default();
    assert_eq!(s.min_speed, 70_000);
    assert_eq!(s.max_speed, 200_000);
    assert_eq!(s.max_steer_force, 10_000);
    assert_eq!(s.vision_radius, 1000);
    assert_eq!(s.vision_angle, 360_000);
    assert_eq!(s.separation_weight, 1000);
    assert_eq!(s.alignment_weight, 1000);
    assert_eq!(s.cohesion_weight, 1000);
    assert!(s.separation);
    assert!(!s.alignment);
    assert!(!s.cohesion);
}

#[test]
fn boid_data_default_is_zero() {
    let d = BoidData::default();
    assert_eq!(d.separation, v(0, 0));
    assert_eq!(d.alignment, v(0, 0));
    assert_eq!(d.cohesion, v(0, 0));
}

#[test]
fn visibility_stub_sees_everything() {
    let s = BoidSettings::default();
    let a = boid_at(0, 0, 0);
    let b = boid_at(1, 900_000, -900_000);
    assert!(can_see(&a, &b, &s));
}

#[test]
fn separation_points_away_with_inverse_square_magnitude() {
    // Agents at (0, 0) and (10, 0) world units: the agent at the origin is
    // pushed in -x with world magnitude 1/100, i.e. (-0.010, 0).
    let r = get_separation_force(v(0, 0), v(10_000, 0));
    assert_eq!(r.x, -10);
    assert_eq!(r.y, 0);
    // And the mirrored pair is pushed in +x.
    let r2 = get_separation_force(v(10_000, 0), v(0, 0));
    assert_eq!(r2.x, 10);
    assert_eq!(r2.y, 0);
}

#[test]
fn separation_of_coincident_agents_is_zero() {
    let r = get_separation_force(v(7_000, -3_000), v(7_000, -3_000));
    assert_eq!(r, v(0, 0));
}

#[test]
fn alignment_and_cohesion_are_raw_neighbor_state() {
    assert_eq!(get_alignment_force(v(123, -456)), v(123, -456));
    assert_eq!(get_cohesion_force(v(-9_000, 42)), v(-9_000, 42));
}

#[test]
fn steering_contribution_is_clamped_to_max_steer_force() {
    let s = BoidSettings::default();
    // A strong influence toward -x from rest: desired velocity is
    // (-200, 0) world, the difference is clamped to length 10.
    let f = steer_towards(v(-40, 0), &s, v(0, 0));
    assert_eq!(f.x, -10_000);
    assert_eq!(f.y, 0);
    // A diagonal influence: the clamped force is never longer than
    // max_steer_force.
    let g = steer_towards(v(333, -777), &s, v(50_000, 60_000));
    assert!(g.x * g.x + g.y * g.y <= s.max_steer_force * s.max_steer_force);
}

#[test]
fn steering_of_zero_influence_is_zero() {
    let s = BoidSettings::default();
    let f = steer_towards(v(0, 0), &s, v(90_000, -120_000));
    assert_eq!(f, v(0, 0));
}

#[test]
fn lone_agent_keeps_influence_and_gets_zero_acceleration() {
    let s = BoidSettings::default();
    let mut flock = vec![boid_at(0, 1_000, 2_000)];
    simulate_boids(&mut flock, &s, InfluencePolicy::Averaged);
    // No visible neighbor: the influence buffer is retained (zero here),
    // so every steering contribution is zero.
    assert_eq!(flock[0].data.separation, v(0, 0));
    assert_eq!(flock[0].acceleration, v(0, 0));
}

#[test]
fn carried_over_influence_survives_for_a_lone_agent() {
    let s = BoidSettings::default();
    let mut lone = boid_at(3, 0, 0);
    lone.data = BoidData {
        separation: v(11, 22),
        alignment: v(33, 44),
        cohesion: v(55, 66),
    };
    let mut flock = vec![lone];
    simulate_boids(&mut flock, &s, InfluencePolicy::LastWriterWins);
    assert_eq!(flock[0].data.separation, v(11, 22));
    assert_eq!(flock[0].data.alignment, v(33, 44));
    assert_eq!(flock[0].data.cohesion, v(55, 66));
}

#[test]
fn averaged_policy_averages_and_last_writer_overwrites() {
    let s = BoidSettings::default();
    let mut a = boid_at(0, 0, 0);
    a.velocity = v(0, 0);
    let mut b = boid_at(1, 10_000, 0);
    b.velocity = v(2_000, 0);
    let mut c = boid_at(2, 0, 10_000);
    c.velocity = v(0, 4_000);

    let mut averaged = vec![a, b, c];
    simulate_boids(&mut averaged, &s, InfluencePolicy::Averaged);
    // Agent 0 sees (-10, 0) from agent 1 and (0, -10) from agent 2:
    // averaged separation (-5, -5); averaged cohesion is the neighbor
    // centroid (5000, 5000); averaged alignment (1000, 2000).
    assert_eq!(averaged[0].data.separation, v(-5, -5));
    assert_eq!(averaged[0].data.cohesion, v(5_000, 5_000));
    assert_eq!(averaged[0].data.alignment, v(1_000, 2_000));

    let mut last = vec![a, b, c];
    simulate_boids(&mut last, &s, InfluencePolicy::LastWriterWins);
    // Agent 0's last visited neighbor is agent 2.
    assert_eq!(last[0].data.separation, v(0, -10));
    assert_eq!(last[0].data.cohesion, v(0, 10_000));
    assert_eq!(last[0].data.alignment, v(0, 4_000));
    // The last agent's last visited neighbor is the one before it.
    assert_eq!(last[2].data.cohesion, v(10_000, 0));
    assert_eq!(last[2].data.alignment, v(2_000, 0));
}

#[test]
fn speed_is_clamped_between_min_and_max() {
    let s = BoidSettings::default();
    // From rest with acceleration (10, 0) world over dt = 1 s the raw
    // velocity is (10, 0): below min_speed, so it is raised to 70.
    let mut slow = boid_at(0, 0, 0);
    slow.acceleration = v(10_000, 0);
    let mut flock = vec![slow];
    update_velocity(&mut flock, &s, 1_000);
    assert_eq!(flock[0].velocity, v(70_000, 0));

    // A velocity above max_speed is brought down to max_speed.
    let mut fast = boid_at(1, 0, 0);
    fast.velocity = v(300_000, 0);
    let mut flock2 = vec![fast];
    update_velocity(&mut flock2, &s, 1_000);
    assert_eq!(flock2[0].velocity, v(200_000, 0));

    // In between, after integration the squared speed respects both
    // bounds.
    let mut mid = boid_at(2, 0, 0);
    mid.velocity = v(60_000, 80_000);  // speed 100 world
    let mut flock3 = vec![mid];
    update_velocity(&mut flock3, &s, 1_000);
    let vx = flock3[0].velocity.x;
    let vy = flock3[0].velocity.y;
    assert_eq!((vx, vy), (60_000, 80_000));
    assert!(vx * vx + vy * vy <= s.max_speed * s.max_speed);
    assert!(vx * vx + vy * vy >= s.min_speed * s.min_speed);
}

#[test]
fn zero_velocity_stays_zero_under_the_clamp() {
    let s = BoidSettings::default();
    let mut flock = vec![boid_at(0, 5_000, 5_000)];
    update_velocity(&mut flock, &s, 1_000);
    assert_eq!(flock[0].velocity, v(0, 0));
}

#[test]
fn position_advances_by_velocity_times_dt() {
    let mut b = boid_at(0, 1_000, -2_000);
    b.velocity = v(1_000, 2_000);
    let mut flock = vec![b];
    update_position(&mut flock, 500);
    assert_eq!(flock[0].position, v(1_500, -1_000));
}

#[test]
fn wrap_teleports_to_the_opposite_edge() {
    // Just past +S/2 on x: teleported to the -S/2 edge.
    assert_eq!(wrap_position(v(500_001, 0)), v(-500_000, 0));
    // Just past -S/2 on y: teleported to the +S/2 edge.
    assert_eq!(wrap_position(v(0, -500_001)), v(0, 500_000));
    // Each axis wraps independently.
    assert_eq!(wrap_position(v(700_000, -600_000)), v(-500_000, 500_000));
}

#[test]
fn wrap_leaves_in_area_positions_unchanged() {
    assert_eq!(wrap_position(v(0, 0)), v(0, 0));
    assert_eq!(wrap_position(v(500_000, -500_000)), v(500_000, -500_000));
    assert_eq!(wrap_position(v(-123, 456)), v(-123, 456));
}

#[test]
fn wrap_is_idempotent() {
    let once = wrap_position(v(812_345, -987_654));
    let twice = wrap_position(once);
    assert_eq!(once, twice);
}

#[test]
fn bound_pass_wraps_every_agent() {
    let mut far = boid_at(0, 600_000, 0);
    far.velocity = v(1, 2);
    let near = boid_at(1, -400_000, 399_999);
    let mut flock = vec![far, near];
    bound(&mut flock);
    assert_eq!(flock[0].position, v(-500_000, 0));
    assert_eq!(flock[0].velocity, v(1, 2));
    assert_eq!(flock[1].position, v(-400_000, 399_999));
}

#[test]
fn spawned_agents_stay_within_the_jitter_radius() {
    let mut flock: Vec<Boid> = Vec::new();
    let mut next_id: u32 = 0;
    let radius: i64 = 100_000;
    spawn_boid_group(&mut flock, &mut next_id, 50, v(0, 0), radius, v(0, 20_000));
    assert_eq!(flock.len(), 50);
    assert_eq!(next_id, 50);
    for (i, b) in flock.iter().enumerate() {
        assert_eq!(b.id, i as u32);
        assert_eq!(b.velocity, v(0, 20_000));
        assert_eq!(b.acceleration, v(0, 0));
        assert!(b.position.x * b.position.x + b.position.y * b.position.y <= radius * radius);
    }
}

#[test]
fn spawn_with_zero_radius_stacks_agents_on_the_centroid() {
    let mut flock: Vec<Boid> = Vec::new();
    let mut next_id: u32 = 7;
    spawn_boid_group(&mut flock, &mut next_id, 3, v(1_000, -2_000), 0, v(0, 0));
    assert_eq!(next_id, 10);
    for b in flock.iter() {
        assert_eq!(b.position, v(1_000, -2_000));
    }
    assert_eq!(flock[0].id, 7);
    assert_eq!(flock[2].id, 9);
}

#[test]
fn ids_stay_monotonic_across_groups() {
    let mut flock: Vec<Boid> = Vec::new();
    let mut next_id: u32 = 0;
    spawn_boid_group(&mut flock, &mut next_id, 4, v(0, 0), 10_000, v(0, 0));
    spawn_boid_group(&mut flock, &mut next_id, 4, v(200_000, 0), 10_000, v(0, 0));
    for (i, b) in flock.iter().enumerate() {
        assert_eq!(b.id, i as u32);
    }
}

#[test]
fn two_separating_agents_end_one_tick_at_the_speed_floor() {
    // Two stationary agents 5 world units apart, separation only with
    // weight 1, max_steer_force 10, speed bounds [70, 200], dt = 1 s.
    let s = BoidSettings::default();
    let a = boid_at(0, 0, 0);
    let b = boid_at(1, 5_000, 0);
    let mut flock = vec![a, b];
    tick(&mut flock, &s, 1_000, TickOrder::ForcesFirst, InfluencePolicy::Averaged);
    // The steering contribution was clamped to magnitude 10 before the
    // speed floor acted...
    assert_eq!(flock[0].acceleration, v(-10_000, 0));
    assert_eq!(flock[1].acceleration, v(10_000, 0));
    // ...and each velocity grew away from the other agent, then was
    // raised to the speed floor of 70.
    assert_eq!(flock[0].velocity, v(-70_000, 0));
    assert_eq!(flock[1].velocity, v(70_000, 0));
    // Positions moved apart and stayed inside the play area.
    assert_eq!(flock[0].position, v(-70_000, 0));
    assert_eq!(flock[1].position, v(75_000, 0));
}

#[test]
fn integrate_first_order_lags_forces_by_one_tick() {
    let s = BoidSettings::default();
    let a = boid_at(0, 0, 0);
    let b = boid_at(1, 5_000, 0);
    let mut flock = vec![a, b];
    tick(&mut flock, &s, 1_000, TickOrder::IntegrateFirst, InfluencePolicy::Averaged);
    // Integration ran before the force pass: the agents have not moved
    // yet, but the accelerations are now staged.
    assert_eq!(flock[0].velocity, v(0, 0));
    assert_eq!(flock[0].position, v(0, 0));
    assert_eq!(flock[0].acceleration, v(-10_000, 0));
    tick(&mut flock, &s, 1_000, TickOrder::IntegrateFirst, InfluencePolicy::Averaged);
    // One tick later the staged forces act.
    assert_eq!(flock[0].velocity, v(-70_000, 0));
    assert_eq!(flock[1].velocity, v(70_000, 0));
}

#[test]
fn tick_keeps_speeds_within_bounds_over_many_steps() {
    let s = BoidSettings::default();
    let mut flock: Vec<Boid> = Vec::new();
    let mut next_id: u32 = 0;
    spawn_boid_group(&mut flock, &mut next_id, 8, v(0, 0), 50_000, v(0, 20_000));
    for _ in 0..30 {
        tick(&mut flock, &s, 16, TickOrder::ForcesFirst, InfluencePolicy::Averaged);
        for b in flock.iter() {
            let n = b.position.x.abs().max(b.position.y.abs());
            assert!(n <= 500_000);
            assert!(b.velocity.x * b.velocity.x + b.velocity.y * b.velocity.y
                <= s.max_speed * s.max_speed);
        }
    }
}

#[test]
fn averaging_truncates_toward_zero() {
    // Separation contributions to agent 0 are (-111, 0) and (0, -111);
    // their average truncates toward zero: -111 / 2 == -55, not -56.
    let s = BoidSettings::default();
    let a = boid_at(0, 0, 0);
    let b = boid_at(1, 3_000, 0);
    let c = boid_at(2, 0, 3_000);
    let mut flock = vec![a, b, c];
    simulate_boids(&mut flock, &s, InfluencePolicy::Averaged);
    assert_eq!(flock[0].data.separation, v(-55, -55));
}

#[test]
fn a_larger_flock_ticks_and_stays_in_area() {
    let s = BoidSettings::default();
    let mut flock: Vec<Boid> = Vec::new();
    let mut next_id: u32 = 0;
    spawn_boid_group(&mut flock, &mut next_id, 100, v(-200_000, 150_000), 80_000, v(15_000, 0));
    for _ in 0..10 {
        tick(&mut flock, &s, 16, TickOrder::ForcesFirst, InfluencePolicy::Averaged);
    }
    assert_eq!(flock.len(), 100);
    for b in flock.iter() {
        assert!(b.position.x.abs() <= 500_000 && b.position.y.abs() <= 500_000);
    }
}

#[test]
fn nonzero_acceleration_wakes_a_stationary_agent() {
    // A stationary agent with acceleration (0.999, 0.999) world over one
    // millisecond: the integrated velocity is a fraction of one
    // fixed-point unit, yet it must come out re-normalized up to the
    // speed floor, pointing the way the acceleration pushed.
    let s = BoidSettings::default();
    let mut b = boid_at(0, 0, 0);
    b.acceleration = v(999, 999);
    let mut flock = vec![b];
    update_velocity(&mut flock, &s, 1);
    let vx = flock[0].velocity.x;
    let vy = flock[0].velocity.y;
    assert!(vx > 0 && vy > 0);
    assert_eq!(vx, vy);
    let nsq = vx * vx + vy * vy;
    assert!(nsq >= (s.min_speed - 10) * (s.min_speed - 10));
    assert!(nsq <= s.min_speed * s.min_speed);
}

#[test]
fn speed_floor_holds_for_a_tiny_diagonal_velocity() {
    // A velocity of (0.001, 0.001) world units: the clamp raises it to
    // the floor with at most a hundredth of a world unit lost to
    // quantization, keeping the diagonal direction.
    let s = BoidSettings::default();
    let mut b = boid_at(0, 0, 0);
    b.velocity = v(1, 1);
    let mut flock = vec![b];
    update_velocity(&mut flock, &s, 1_000);
    let vx = flock[0].velocity.x;
    let vy = flock[0].velocity.y;
    assert_eq!((vx, vy), (49_497, 49_497));
    let nsq = vx * vx + vy * vy;
    assert!(nsq >= (s.min_speed - 10) * (s.min_speed - 10));
    assert!(nsq <= s.max_speed * s.max_speed);
}
