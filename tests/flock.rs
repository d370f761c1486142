use boids::angle::{atan2, cos, div_toward_zero, sin, wrap, FULL_TURN, HALF_TURN, QUARTER_TURN};
use boids::boid::{steering_target, Boid, Boids, UNITS_PER_PIXEL};
use boids::spawner::Spawner;

const W: i64 = 800 * UNITS_PER_PIXEL;
const H: i64 = 600 * UNITS_PER_PIXEL;

fn boid(x: i64, y: i64, theta: i64) -> Boid {
    Boid { x, y, theta }
}

#[test]
fn two_agents_facing_apart() {
    let agents = vec![boid(0, 0, 0), boid(10 * UNITS_PER_PIXEL, 0, HALF_TURN)];
    // alignment a quarter turn (mean of 0 and a half turn); cohesion and
    // separation point along +x for the first agent and along -x for the other
    assert_eq!(steering_target(&agents, agents[0], W, H), QUARTER_TURN);
    assert_eq!(steering_target(&agents, agents[1], W, H), -5461);
    let mut flock = Boids::new(agents, W, H);
    flock.update(1000);
    assert_eq!(flock.boids()[0], boid(3, 599800, 164));
    assert_eq!(flock.boids()[1], boid(9995, 200, 33041));
}

#[test]
fn zero_dt_turns_without_moving() {
    let mut flock = Boids::new(vec![boid(0, 0, 0), boid(10000, 0, HALF_TURN)], W, H);
    flock.update(0);
    assert_eq!(flock.boids()[0], boid(0, 0, 164));
    assert_eq!(flock.boids()[1], boid(10000, 0, 33041));
}

#[test]
fn crossing_the_right_edge_wraps_to_zero() {
    let mut b = boid(W - 100, 300 * UNITS_PER_PIXEL, QUARTER_TURN);
    b.move_forward(200, W, H);
    assert_eq!(b.x(), 100);
    assert_eq!(b.y(), 300 * UNITS_PER_PIXEL);
    assert!(b.x() >= 0 && b.x() < W);
}

#[test]
fn step_just_past_the_edge_lands_near_zero() {
    let area = 100 * UNITS_PER_PIXEL;
    let mut flock = Boids::new(vec![boid(area - 100, 50 * UNITS_PER_PIXEL, QUARTER_TURN)], area, area);
    flock.update(1000);
    let b = flock.boids()[0];
    assert_eq!(b.x(), 100);
    assert!(b.x() >= 0 && b.x() < area);
    assert!(b.y() >= 0 && b.y() < area);
}

#[test]
fn diagonal_neighbours_steer_by_the_blended_target() {
    let agents = vec![boid(0, 0, 0), boid(10 * UNITS_PER_PIXEL, 10 * UNITS_PER_PIXEL, 0)];
    assert_eq!(steering_target(&agents, agents[0], W, H), 19078);
    assert_eq!(steering_target(&agents, agents[1], W, H), -2767);
    let mut flock = Boids::new(agents, W, H);
    flock.update(0);
    assert_eq!(flock.boids()[0], boid(0, 0, 191));
    assert_eq!(flock.boids()[1], boid(10000, 10000, 65508));
}

#[test]
fn moving_from_outside_the_area_wraps_in() {
    let mut b = boid(-500, -300, QUARTER_TURN);
    b.move_forward(200, W, H);
    assert_eq!(b, boid(799700, 599700, QUARTER_TURN));
}

#[test]
fn crossing_the_top_edge_wraps_to_bottom() {
    let mut b = boid(10, 50, 0);
    b.move_forward(200, W, H);
    assert_eq!(b.x(), 10);
    assert_eq!(b.y(), H - 150);
}

#[test]
fn lone_agent_with_heading_zero_goes_straight() {
    let mut flock = Boids::new(vec![boid(5000, 300, 0)], W, H);
    flock.update(16000);
    assert_eq!(flock.boids()[0], boid(5000, 597100, 0));
    flock.update(16000);
    assert_eq!(flock.boids()[0], boid(5000, 593900, 0));
}

#[test]
fn lone_agent_steers_toward_a_third_of_its_heading() {
    let agents = vec![boid(123456, 234567, 1000)];
    assert_eq!(steering_target(&agents, agents[0], W, H), 333);
    let mut flock = Boids::new(agents, W, H);
    flock.update(16000);
    assert_eq!(flock.boids()[0], boid(123760, 231381, 993));
}

#[test]
fn agents_out_of_sight_ignore_each_other() {
    let far = 60 * UNITS_PER_PIXEL;
    let agents = vec![boid(0, 0, 0), boid(far, 0, HALF_TURN)];
    assert_eq!(steering_target(&agents, agents[0], W, H), 0);
    assert_eq!(steering_target(&agents, agents[1], W, H), HALF_TURN / 3);
}

#[test]
fn identical_flocks_stay_identical() {
    let start = vec![
        boid(1000, 2000, 100),
        boid(20000, 3000, 40000),
        boid(5000, 45000, 65000),
        boid(700000, 590000, 30000),
    ];
    let mut a = Boids::new(start.clone(), W, H);
    let mut b = Boids::new(start, W, H);
    for dt in [16000u32, 16667, 0, 33000, 1_000_000] {
        a.update(dt);
        b.update(dt);
        assert_eq!(a.boids(), b.boids());
    }
}

#[test]
fn updates_keep_agents_in_area() {
    let mut spawner = Spawner::new(300 * UNITS_PER_PIXEL, 200 * UNITS_PER_PIXEL);
    let mut flock = spawner.spawn(60);
    for dt in [16667u32, 16000, 40000, 1_000_000, 5] {
        flock.update(dt);
        for b in flock.boids() {
            assert!(b.x() >= 0 && b.x() < 300 * UNITS_PER_PIXEL);
            assert!(b.y() >= 0 && b.y() < 200 * UNITS_PER_PIXEL);
            assert!(b.theta() >= 0 && b.theta() < FULL_TURN);
        }
    }
}

#[test]
fn spawn_places_agents_in_area() {
    let mut spawner = Spawner::new(5, 3);
    let flock = spawner.spawn(500);
    assert_eq!(flock.boids().len(), 500);
    assert_eq!(flock.width(), 5);
    assert_eq!(flock.height(), 3);
    for b in flock.boids() {
        assert!(b.x() >= 0 && b.x() < 5);
        assert!(b.y() >= 0 && b.y() < 3);
        assert!(b.theta() >= 0 && b.theta() < FULL_TURN);
    }
    assert!(flock.boids().iter().any(|b| b.x() != flock.boids()[0].x() || b.theta() != flock.boids()[0].theta()));
}

#[test]
fn spawn_of_none_is_empty() {
    let mut spawner = Spawner::new(W, H);
    assert_eq!(spawner.spawn(0).boids().len(), 0);
}

#[test]
fn steering_takes_the_shorter_way() {
    let mut b = boid(0, 0, 0);
    b.steer_toward(HALF_TURN);
    assert_eq!(b.theta(), 328);
    let mut b = boid(0, 0, 0);
    b.steer_toward(HALF_TURN + 1);
    assert_eq!(b.theta(), 65208);
    let mut b = boid(0, 0, 0);
    b.steer_toward(QUARTER_TURN);
    assert_eq!(b.theta(), 164);
}

#[test]
fn steering_normalises_any_target() {
    let mut b = boid(0, 0, 100);
    b.steer_toward(-5000);
    assert_eq!(b.theta(), 49);
    let mut b = boid(0, 0, 65000);
    b.steer_toward(1_000_000_000_000);
    assert_eq!(b.theta(), 65046);
    let mut b = boid(0, 0, 65500);
    b.steer_toward(i64::MIN);
    assert!(b.theta() >= 0 && b.theta() < FULL_TURN);
}

#[test]
fn steering_toward_own_heading_keeps_it() {
    let mut b = boid(7, 8, 12345);
    b.steer_toward(12345 + 3 * FULL_TURN);
    assert_eq!(b, boid(7, 8, 12345));
}

#[test]
fn sine_and_cosine_at_quarter_turns() {
    assert_eq!(sin(0), 0);
    assert_eq!(sin(QUARTER_TURN), 16384);
    assert_eq!(sin(HALF_TURN), 0);
    assert_eq!(sin(3 * QUARTER_TURN), -16384);
    assert_eq!(sin(8192), 11585);
    assert_eq!(cos(0), 16384);
    assert_eq!(cos(HALF_TURN), -16384);
    assert_eq!(cos(3 * QUARTER_TURN), 0);
}

#[test]
fn atan2_on_axes_and_diagonals() {
    assert_eq!(atan2(0, 0), 0);
    assert_eq!(atan2(0, 1), 0);
    assert_eq!(atan2(1, 1), 8192);
    assert_eq!(atan2(1, 0), QUARTER_TURN);
    assert_eq!(atan2(0, -1), HALF_TURN);
    assert_eq!(atan2(-1, 0), -QUARTER_TURN);
    assert_eq!(atan2(-1, -1), -24576);
    assert_eq!(atan2(1, -1_000_000), HALF_TURN);
}

#[test]
fn distances() {
    let a = boid(0, 0, 0);
    let b = boid(3000, 4000, 0);
    assert_eq!(a.distance_squared_to(&b), 25_000_000);
    assert_eq!(a.distance_to(&b), 5000);
    assert_eq!(b.distance_to(&a), 5000);
    assert_eq!(a.distance_to(&boid(1, 1, 0)), 1);
    assert_eq!(a.distance_to(&a), 0);
}

#[test]
fn remainders_and_quotients() {
    assert_eq!(wrap(-1, 10), 9);
    assert_eq!(wrap(25, 10), 5);
    assert_eq!(wrap(-20, 10), 0);
    assert_eq!(div_toward_zero(-7, 2), -3);
    assert_eq!(div_toward_zero(7, 2), 3);
}
