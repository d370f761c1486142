//! Agents and the flocking update.

use vstd::prelude::*;
use crate::angle::{
    lemma_div_between, lemma_sine_at_zero_and_quarter, abs, angle_of, atan2, cos, cosine, div_round, div_toward_zero, rdiv, sin, sine, tdiv, wrap, FULL_TURN,
    HALF_TURN, ONE, QUARTER_TURN,
};

verus! {

/// Length units in one pixel: positions are kept in thousandths of a pixel.
pub const UNITS_PER_PIXEL: i64 = 1000;

/// Side of the triangle that marks an agent when drawn, in pixels.
pub const SIZE: i64 = 10;

/// Distance covered per millisecond, in length units (0.2 pixel).
pub const BASE_SPEED: i64 = 200;

/// Microseconds in a millisecond: tick lengths are given in microseconds.
pub const MICROS_PER_MILLI: i64 = 1000;

/// An agent turns by the `1 / TURN_DIVISOR` part of its heading error per tick.
pub const TURN_DIVISOR: i64 = 100;

/// Agents closer than this many length units (50 pixels) are neighbours.
pub const VISION_RADIUS: i64 = 50000;

pub const ALIGNMENT_FACTOR: i64 = 1;

pub const COHESION_FACTOR: i64 = 1;

pub const SEPARATION_FACTOR: i64 = 1;

/// Weight of the inverse-square repulsion. In pixels the repulsion is
/// `offset / distance^2`, which over length units is `UNITS_PER_PIXEL` times
/// `offset_units / distance_units^2`; the cohesion offset that it is paired
/// with is `offset_units / UNITS_PER_PIXEL`. Scaling both by
/// `UNITS_PER_PIXEL` keeps their ratio, so the weight is `UNITS_PER_PIXEL^2`.
pub const SEPARATION_SCALE: i128 = 1_000_000;

/// Largest width or height of the area, in length units.
pub const MAX_EXTENT: i64 = 0x100_0000_0000;

/// Largest distance that one step may cover, in length units.
pub const MAX_STEP: i64 = 0x100_0000_0000;

/// A point agent with a position and a heading.
#[derive(Clone, Copy, Debug, PartialEq, Eq, Structural)]
pub struct Boid {
    pub x: i64,
    pub y: i64,
    pub theta: i64,
}

/// Width and height that an area may have.
pub open spec fn valid_area(w: int, h: int) -> bool {
    0 < w <= MAX_EXTENT && 0 < h <= MAX_EXTENT
}

/// Squared distance between two agents.
pub open spec fn dist2(a: Boid, b: Boid) -> int {
    (a.x - b.x) * (a.x - b.x) + (a.y - b.y) * (a.y - b.y)
}

/// Heading error from `h` to `t` on the shorter way round, in `(-HALF_TURN, HALF_TURN]`.
pub open spec fn wrapped_delta(h: int, t: int) -> int {
    let d = (t - h) % (FULL_TURN as int);
    if d > HALF_TURN {
        d - FULL_TURN
    } else {
        d
    }
}

/// Rotation applied in one tick when steering from `h` toward `t`.
pub open spec fn turn(h: int, t: int) -> int {
    rdiv(wrapped_delta(h, t), TURN_DIVISOR as int)
}

/// The agent after steering toward heading `t`.
pub open spec fn steered(b: Boid, t: int) -> Boid {
    Boid { theta: ((b.theta + turn(b.theta as int, t)) % (FULL_TURN as int)) as i64, ..b }
}

/// The agent after advancing `step` units along its heading and wrapping
/// into the `w` by `h` area.
pub open spec fn moved(b: Boid, step: int, w: int, h: int) -> Boid {
    Boid {
        x: ((b.x + rdiv(sine(b.theta as int) * step, ONE as int)) % w) as i64,
        y: ((b.y - rdiv(cosine(b.theta as int) * step, ONE as int)) % h) as i64,
        theta: b.theta,
    }
}

impl Boid {
    /// The agent lies in the `w` by `h` area and its heading is normalised.
    pub open spec fn in_area(self, w: int, h: int) -> bool {
        &&& 0 <= self.x < w
        &&& 0 <= self.y < h
        &&& 0 <= self.theta < FULL_TURN
    }

    pub fn x(&self) -> (r: i64)
        ensures
            r == self.x,
    {
        self.x
    }

    pub fn y(&self) -> (r: i64)
        ensures
            r == self.y,
    {
        self.y
    }

    pub fn theta(&self) -> (r: i64)
        ensures
            r == self.theta,
    {
        self.theta
    }

    /// Squared Euclidean distance between the two positions.
    pub fn distance_squared_to(&self, other: &Boid) -> (r: i128)
        requires
            -MAX_EXTENT <= self.x <= MAX_EXTENT,
            -MAX_EXTENT <= self.y <= MAX_EXTENT,
            -MAX_EXTENT <= other.x <= MAX_EXTENT,
            -MAX_EXTENT <= other.y <= MAX_EXTENT,
        ensures
            r == dist2(*self, *other),
            0 <= r <= 0x20_0000_0000_0000_0000_0000,
            r == 0 <==> (self.x == other.x && self.y == other.y),
    {
        let dx: i128 = self.x as i128 - other.x as i128;
        let dy: i128 = self.y as i128 - other.y as i128;
        proof {
            assert(0 <= dx * dx <= 0x10_0000_0000_0000_0000_0000) by (nonlinear_arith)
                requires
                    -0x200_0000_0000 <= dx <= 0x200_0000_0000,
            ;
            assert(0 <= dy * dy <= 0x10_0000_0000_0000_0000_0000) by (nonlinear_arith)
                requires
                    -0x200_0000_0000 <= dy <= 0x200_0000_0000,
            ;
            assert(dx * dx + dy * dy == 0 <==> (dx == 0 && dy == 0)) by (nonlinear_arith);
        }
        dx * dx + dy * dy
    }

    /// Euclidean distance between the two positions, rounded down.
    pub fn distance_to(&self, other: &Boid) -> (r: i128)
        requires
            -MAX_EXTENT <= self.x <= MAX_EXTENT,
            -MAX_EXTENT <= self.y <= MAX_EXTENT,
            -MAX_EXTENT <= other.x <= MAX_EXTENT,
            -MAX_EXTENT <= other.y <= MAX_EXTENT,
        ensures
            0 <= r,
            r * r <= dist2(*self, *other) < (r + 1) * (r + 1),
    {
        let v: i128 = self.distance_squared_to(other);
        let mut lo: i128 = 0;
        let mut hi: i128 = 0x1000_0000_0000;
        proof {
            assert(v < hi * hi);
        }
        while lo + 1 < hi
            invariant
                0 <= lo < hi <= 0x1000_0000_0000,
                lo * lo <= v < hi * hi,
            decreases hi - lo,
        {
            let mid: i128 = lo + (hi - lo) / 2;
            proof {
                assert(mid * mid <= 0x1000_0000_0000 * 0x1000_0000_0000) by (nonlinear_arith)
                    requires
                        0 <= mid <= 0x1000_0000_0000,
                ;
            }
            if mid * mid <= v {
                lo = mid;
            } else {
                hi = mid;
            }
        }
        lo
    }

    /// Turns the heading by the `1 / TURN_DIVISOR` part of the shorter
    /// rotation toward `theta_target`, rounded to the nearest unit, then
    /// normalises it into `[0, FULL_TURN)`.
    pub fn steer_toward(&mut self, theta_target: i64)
        requires
            0 <= old(self).theta < FULL_TURN,
        ensures
            *final(self) == steered(*old(self), theta_target as int),
            0 <= final(self).theta < FULL_TURN,
            -HALF_TURN < wrapped_delta(old(self).theta as int, theta_target as int) <= HALF_TURN,
            abs(turn(old(self).theta as int, theta_target as int)) <= (HALF_TURN + TURN_DIVISOR / 2)
                / (TURN_DIVISOR as int),
    {
        let raw: i128 = theta_target as i128 - self.theta as i128;
        let d: i128 = match raw.checked_rem_euclid(FULL_TURN as i128) {
            Some(r) => r,
            None => 0,
        };
        let d: i128 = if d > HALF_TURN as i128 {
            d - FULL_TURN as i128
        } else {
            d
        };
        let t: i128 = div_round(d, TURN_DIVISOR as i128);
        proof {
            vstd::arithmetic::div_mod::lemma_div_is_ordered(
                abs(d as int) + TURN_DIVISOR / 2,
                HALF_TURN + TURN_DIVISOR / 2,
                TURN_DIVISOR as int,
            );
        }
        let theta: i64 = wrap(self.theta + t as i64, FULL_TURN);
        self.theta = theta;
    }

    /// Advances `step_size` units along the heading (heading 0 points toward
    /// negative y) and wraps the position into the area, so that an agent
    /// leaving one edge comes back at the opposite one. The displacement is
    /// rounded to the nearest unit.
    pub fn move_forward(&mut self, step_size: i64, area_width: i64, area_height: i64)
        requires
            valid_area(area_width as int, area_height as int),
            -MAX_EXTENT <= old(self).x <= MAX_EXTENT,
            -MAX_EXTENT <= old(self).y <= MAX_EXTENT,
            0 <= old(self).theta < FULL_TURN,
            0 <= step_size <= MAX_STEP,
        ensures
            *final(self) == moved(*old(self), step_size as int, area_width as int, area_height as int),
            final(self).in_area(area_width as int, area_height as int),
    {
        let s: i64 = sin(self.theta);
        let c: i64 = cos(self.theta);
        proof {
            assert(-ONE * MAX_STEP <= s * step_size <= ONE * MAX_STEP) by (nonlinear_arith)
                requires
                    -ONE <= s <= ONE,
                    0 <= step_size <= MAX_STEP,
            ;
            assert(-ONE * MAX_STEP <= c * step_size <= ONE * MAX_STEP) by (nonlinear_arith)
                requires
                    -ONE <= c <= ONE,
                    0 <= step_size <= MAX_STEP,
            ;
        }
        let dx: i128 = div_round(s as i128 * step_size as i128, ONE as i128);
        let dy: i128 = div_round(c as i128 * step_size as i128, ONE as i128);
        proof {
            lemma_div_between(abs(s * step_size) + ONE / 2, ONE as int, MAX_STEP + 1);
            lemma_div_between(abs(c * step_size) + ONE / 2, ONE as int, MAX_STEP + 1);
        }
        self.x = wrap(self.x + dx as i64, area_width);
        self.y = wrap(self.y - dy as i64, area_height);
    }
}

/// Agent `o` is a neighbour of `b`: closer than the vision radius. Every
/// agent is its own neighbour.
pub open spec fn sees(b: Boid, o: Boid) -> bool {
    dist2(b, o) < VISION_RADIUS * VISION_RADIUS
}

/// Repulsion that `o` exerts on `b` along x: the offset over the squared
/// distance, scaled by `SEPARATION_SCALE`; none from an agent at the same place.
pub open spec fn repulsion_x(b: Boid, o: Boid) -> int {
    if dist2(b, o) > 0 {
        tdiv((o.x - b.x) * SEPARATION_SCALE, dist2(b, o))
    } else {
        0
    }
}

/// Number of neighbours of `b` among the first `k` agents of `s`.
pub open spec fn neighbor_count(s: Seq<Boid>, b: Boid, k: int) -> int
    decreases k,
{
    if k <= 0 {
        0
    } else {
        neighbor_count(s, b, k - 1) + if sees(b, s[k - 1]) {
            1int
        } else {
            0int
        }
    }
}

/// Sum of the headings of the neighbours of `b` among the first `k` agents.
pub open spec fn heading_sum(s: Seq<Boid>, b: Boid, k: int) -> int
    decreases k,
{
    if k <= 0 {
        0
    } else {
        heading_sum(s, b, k - 1) + if sees(b, s[k - 1]) {
            s[k - 1].theta as int
        } else {
            0int
        }
    }
}

/// Sum of the x coordinates of the neighbours of `b` among the first `k` agents.
pub open spec fn x_sum(s: Seq<Boid>, b: Boid, k: int) -> int
    decreases k,
{
    if k <= 0 {
        0
    } else {
        x_sum(s, b, k - 1) + if sees(b, s[k - 1]) {
            s[k - 1].x as int
        } else {
            0int
        }
    }
}

/// Sum of the y coordinates of the neighbours of `b` among the first `k` agents.
pub open spec fn y_sum(s: Seq<Boid>, b: Boid, k: int) -> int
    decreases k,
{
    if k <= 0 {
        0
    } else {
        y_sum(s, b, k - 1) + if sees(b, s[k - 1]) {
            s[k - 1].y as int
        } else {
            0int
        }
    }
}

/// Total repulsion along x on `b` from its neighbours among the first `k` agents.
pub open spec fn repulsion_sum(s: Seq<Boid>, b: Boid, k: int) -> int
    decreases k,
{
    if k <= 0 {
        0
    } else {
        repulsion_sum(s, b, k - 1) + if sees(b, s[k - 1]) {
            repulsion_x(b, s[k - 1])
        } else {
            0int
        }
    }
}

/// Mean heading of the neighbours of `b` in `s`, as plain numbers.
pub open spec fn alignment_target(s: Seq<Boid>, b: Boid) -> int {
    heading_sum(s, b, s.len() as int) / neighbor_count(s, b, s.len() as int)
}

/// Offset along x from `b` to the mean position of its neighbours.
pub open spec fn cohesion_dx(s: Seq<Boid>, b: Boid) -> int {
    x_sum(s, b, s.len() as int) / neighbor_count(s, b, s.len() as int) - b.x
}

/// Offset along y from `b` to the mean position of its neighbours.
pub open spec fn cohesion_dy(s: Seq<Boid>, b: Boid) -> int {
    y_sum(s, b, s.len() as int) / neighbor_count(s, b, s.len() as int) - b.y
}

/// Heading from `b` toward the mean position of its neighbours.
pub open spec fn cohesion_target(s: Seq<Boid>, b: Boid) -> int {
    angle_of(cohesion_dx(s, b), -cohesion_dy(s, b))
}

/// Heading of the summed repulsion, taken against the cohesion offset along y.
pub open spec fn separation_target(s: Seq<Boid>, b: Boid) -> int {
    angle_of(repulsion_sum(s, b, s.len() as int), -cohesion_dy(s, b))
}

/// Weighted mean of the three steering headings, as plain numbers.
pub open spec fn target_heading(s: Seq<Boid>, b: Boid) -> int {
    tdiv(
        ALIGNMENT_FACTOR * alignment_target(s, b) + COHESION_FACTOR * cohesion_target(s, b)
            + SEPARATION_FACTOR * separation_target(s, b),
        ALIGNMENT_FACTOR + COHESION_FACTOR + SEPARATION_FACTOR,
    )
}

/// Agent `i` of `s` after one tick that covers `step` units in a `w` by `h` area.
pub open spec fn next_boid(s: Seq<Boid>, i: int, step: int, w: int, h: int) -> Boid {
    moved(steered(s[i], target_heading(s, s[i])), step, w, h)
}

/// Every agent of `s` lies in the `w` by `h` area with a normalised heading.
pub open spec fn all_in_area(s: Seq<Boid>, w: int, h: int) -> bool {
    forall|i: int| 0 <= i < s.len() ==> (#[trigger] s[i]).in_area(w, h)
}

/// The blended target heading of `b` against the population `s`: the whole
/// pass reads `s` only.
pub fn steering_target(s: &Vec<Boid>, b: Boid, w: i64, h: i64) -> (r: i64)
    requires
        valid_area(w as int, h as int),
        all_in_area(s@, w as int, h as int),
        b.in_area(w as int, h as int),
        exists|j: int| 0 <= j < s@.len() && s@[j] == b,
    ensures
        r == target_heading(s@, b),
        neighbor_count(s@, b, s@.len() as int) >= 1,
{
    let ghost sq = s@;
    let mut count: i128 = 0;
    let mut theta_total: i128 = 0;
    let mut x_total: i128 = 0;
    let mut y_total: i128 = 0;
    let mut rep_total: i128 = 0;
    let mut i: usize = 0;
    let ghost j = choose|j: int| 0 <= j < s@.len() && s@[j] == b;
    while i < s.len()
        invariant
            valid_area(w as int, h as int),
            all_in_area(sq, w as int, h as int),
            b.in_area(w as int, h as int),
            sq == s@,
            0 <= j < sq.len(),
            sq[j] == b,
            0 <= i <= sq.len(),
            count == neighbor_count(sq, b, i as int),
            theta_total == heading_sum(sq, b, i as int),
            x_total == x_sum(sq, b, i as int),
            y_total == y_sum(sq, b, i as int),
            rep_total == repulsion_sum(sq, b, i as int),
            0 <= count <= i,
            0 <= theta_total <= count * (FULL_TURN - 1),
            0 <= x_total <= count * (w - 1),
            0 <= y_total <= count * (h - 1),
            abs(rep_total as int) <= i * SEPARATION_SCALE,
            i > j ==> count >= 1,
        decreases sq.len() - i,
    {
        let o: Boid = s[i];
        assert(o.in_area(w as int, h as int));
        let d2: i128 = b.distance_squared_to(&o);
        let radius: i128 = VISION_RADIUS as i128;
        if d2 < radius * radius {
            let mut term: i128 = 0;
            if d2 > 0 {
                let dx: i128 = o.x as i128 - b.x as i128;
                proof {
                    let ex = b.x - o.x;
                    let ey = b.y - o.y;
                    assert(abs(dx as int) <= d2) by (nonlinear_arith)
                        requires
                            d2 == ex * ex + ey * ey,
                            dx == -ex,
                            d2 > 0,
                    ;
                    assert(abs(dx * SEPARATION_SCALE) <= SEPARATION_SCALE * d2) by (nonlinear_arith)
                        requires
                            abs(dx as int) <= d2,
                    ;
                }
                term = div_toward_zero(dx * SEPARATION_SCALE, d2);
                proof {
                    assert(abs(term as int) <= SEPARATION_SCALE) by {
                        vstd::arithmetic::div_mod::lemma_div_is_ordered(
                            abs(dx * SEPARATION_SCALE),
                            SEPARATION_SCALE * d2,
                            d2 as int,
                        );
                        vstd::arithmetic::div_mod::lemma_div_by_multiple(SEPARATION_SCALE as int, d2 as int);
                    }
                }
            }
            proof {
                assert(count * (FULL_TURN - 1) + o.theta <= (count + 1) * (FULL_TURN - 1)) by (nonlinear_arith)
                    requires
                        o.theta <= FULL_TURN - 1,
                ;
                assert(count * (w - 1) + o.x <= (count + 1) * (w - 1)) by (nonlinear_arith)
                    requires
                        o.x <= w - 1,
                ;
                assert(count * (h - 1) + o.y <= (count + 1) * (h - 1)) by (nonlinear_arith)
                    requires
                        o.y <= h - 1,
                ;
            }
            proof {
                assert(theta_total + o.theta <= 0x1_0000_0000_0000_0000_0000_0000) by (nonlinear_arith)
                    requires
                        0 <= theta_total <= count * (FULL_TURN - 1),
                        0 <= count <= i,
                        i < 0x1_0000_0000_0000_0000,
                        o.theta < FULL_TURN,
                ;
                assert(x_total + o.x <= 0x1_0000_0000_0000_0000_0000_0000_0000) by (nonlinear_arith)
                    requires
                        0 <= x_total <= count * (w - 1),
                        0 <= count <= i,
                        i < 0x1_0000_0000_0000_0000,
                        w <= MAX_EXTENT,
                        o.x < w,
                ;
                assert(y_total + o.y <= 0x1_0000_0000_0000_0000_0000_0000_0000) by (nonlinear_arith)
                    requires
                        0 <= y_total <= count * (h - 1),
                        0 <= count <= i,
                        i < 0x1_0000_0000_0000_0000,
                        h <= MAX_EXTENT,
                        o.y < h,
                ;
            }
            count = count + 1;
            theta_total = theta_total + o.theta as i128;
            x_total = x_total + o.x as i128;
            y_total = y_total + o.y as i128;
            rep_total = rep_total + term;
        }
        proof {
            if i as int == j {
                assert(dist2(b, o) == 0);
            }
        }
        i = i + 1;
    }
    proof {
        lemma_div_between(theta_total as int, count as int, FULL_TURN - 1);
        lemma_div_between(x_total as int, count as int, w - 1);
        lemma_div_between(y_total as int, count as int, h - 1);
    }
    let alignment: i128 = theta_total / count;
    let coh_dx: i128 = x_total / count - b.x as i128;
    let coh_dy: i128 = y_total / count - b.y as i128;
    let cohesion: i64 = atan2(coh_dx, -coh_dy);
    let separation: i64 = atan2(rep_total, -coh_dy);
    assert(0 <= alignment < FULL_TURN);
    assert(-HALF_TURN <= cohesion <= HALF_TURN);
    assert(-HALF_TURN <= separation <= HALF_TURN);
    let fa: i128 = ALIGNMENT_FACTOR as i128;
    let fc: i128 = COHESION_FACTOR as i128;
    let fs: i128 = SEPARATION_FACTOR as i128;
    assert(fa == 1 && fc == 1 && fs == 1);
    let weighted_alignment: i128 = fa * alignment;
    let weighted_cohesion: i128 = fc * (cohesion as i128);
    let weighted_separation: i128 = fs * (separation as i128);
    let blended: i128 = div_toward_zero(
        weighted_alignment + weighted_cohesion + weighted_separation,
        (ALIGNMENT_FACTOR + COHESION_FACTOR + SEPARATION_FACTOR) as i128,
    );
    blended as i64
}

/// Distance covered in a tick of `dt` microseconds, rounded to the nearest unit.
pub open spec fn step_for(dt: int) -> int {
    rdiv(BASE_SPEED * dt, MICROS_PER_MILLI as int)
}

/// The population `s` after one tick that covers `step` units in a `w` by `h` area.
pub open spec fn next_flock(s: Seq<Boid>, step: int, w: int, h: int) -> Seq<Boid> {
    Seq::new(s.len(), |i: int| next_boid(s, i, step, w, h))
}

/// A fixed population of agents in a toroidal area.
pub struct Boids {
    boids: Vec<Boid>,
    width: i64,
    height: i64,
}

impl Boids {
    /// The agents, in their fixed order.
    pub closed spec fn agents(&self) -> Seq<Boid> {
        self.boids@
    }

    /// Width of the area, in length units.
    pub closed spec fn area_width(&self) -> int {
        self.width as int
    }

    /// Height of the area, in length units.
    pub closed spec fn area_height(&self) -> int {
        self.height as int
    }

    /// The area has a valid size and every agent lies in it.
    pub open spec fn wf(&self) -> bool {
        &&& valid_area(self.area_width(), self.area_height())
        &&& all_in_area(self.agents(), self.area_width(), self.area_height())
    }

    /// A flock of the given agents in a `width` by `height` area (length units).
    pub fn new(boids: Vec<Boid>, width: i64, height: i64) -> (r: Boids)
        requires
            valid_area(width as int, height as int),
            all_in_area(boids@, width as int, height as int),
        ensures
            r.agents() == boids@,
            r.area_width() == width,
            r.area_height() == height,
            r.wf(),
    {
        Boids { boids, width, height }
    }

    /// Read-only view of the agents, for drawing.
    pub fn boids(&self) -> (r: &Vec<Boid>)
        ensures
            r@ == self.agents(),
    {
        &self.boids
    }

    pub fn width(&self) -> (r: i64)
        ensures
            r == self.area_width(),
    {
        self.width
    }

    pub fn height(&self) -> (r: i64)
        ensures
            r == self.area_height(),
    {
        self.height
    }

    /// Advances every agent by one tick of `dt` microseconds: each agent
    /// steers toward the blend of alignment, cohesion and separation computed
    /// from the state before the tick, then moves `step_for(dt)` units. The
    /// population and the area stay as they are.
    pub fn update(&mut self, dt: u32)
        requires
            old(self).wf(),
        ensures
            final(self).wf(),
            final(self).area_width() == old(self).area_width(),
            final(self).area_height() == old(self).area_height(),
            final(self).agents() == next_flock(
                old(self).agents(),
                step_for(dt as int),
                old(self).area_width(),
                old(self).area_height(),
            ),
    {
        let w: i64 = self.width;
        let h: i64 = self.height;
        let speed: i128 = BASE_SPEED as i128;
        assert(speed == 200);
        let step_wide: i128 = div_round(speed * (dt as i128), MICROS_PER_MILLI as i128);
        proof {
            lemma_div_between(BASE_SPEED * dt + MICROS_PER_MILLI / 2, MICROS_PER_MILLI as int, MAX_STEP as int);
        }
        let step_size: i64 = step_wide as i64;
        let ghost before = self.boids@;
        let n: usize = self.boids.len();
        let mut targets: Vec<i64> = Vec::with_capacity(n);
        let mut i: usize = 0;
        while i < n
            invariant
                self.boids@ == before,
                n == before.len(),
                w == self.width,
                h == self.height,
                self.wf(),
                0 <= i <= n,
                targets@.len() == i,
                forall|k: int| 0 <= k < i ==> #[trigger] targets@[k] == target_heading(before, before[k]),
            decreases n - i,
        {
            let b: Boid = self.boids[i];
            assert(before[i as int] == b);
            let t: i64 = steering_target(&self.boids, b, w, h);
            targets.push(t);
            i = i + 1;
        }
        let mut i: usize = 0;
        while i < n
            invariant
                n == before.len(),
                self.boids@.len() == n,
                w == self.width,
                h == self.height,
                valid_area(w as int, h as int),
                all_in_area(before, w as int, h as int),
                0 <= step_size <= MAX_STEP,
                step_size == step_for(dt as int),
                0 <= i <= n,
                targets@.len() == n,
                forall|k: int| 0 <= k < n ==> #[trigger] targets@[k] == target_heading(before, before[k]),
                forall|k: int| 0 <= k < i ==> #[trigger] self.boids@[k] == next_boid(before, k, step_size as int, w as int, h as int),
                forall|k: int| i <= k < n ==> #[trigger] self.boids@[k] == before[k],
                forall|k: int| 0 <= k < i ==> (#[trigger] self.boids@[k]).in_area(w as int, h as int),
            decreases n - i,
        {
            let mut b: Boid = self.boids[i];
            assert(b.in_area(w as int, h as int));
            b.steer_toward(targets[i]);
            b.move_forward(step_size, w, h);
            self.boids.set(i, b);
            i = i + 1;
        }
        assert(self.boids@ =~= next_flock(before, step_size as int, w as int, h as int));
    }
}

/// The population `s` after one tick per entry of `dts` (microseconds), in order.
pub open spec fn after_ticks(s: Seq<Boid>, dts: Seq<u32>, w: int, h: int) -> Seq<Boid>
    decreases dts.len(),
{
    if dts.len() == 0 {
        s
    } else {
        after_ticks(next_flock(s, step_for(dts[0] as int), w, h), dts.drop_first(), w, h)
    }
}

/// One tick keeps every agent inside the area with a normalised heading.
pub proof fn lemma_tick_stays_in_area(s: Seq<Boid>, step: int, w: int, h: int)
    requires
        valid_area(w, h),
        all_in_area(s, w, h),
    ensures
        all_in_area(next_flock(s, step, w, h), w, h),
{
    assert forall|i: int| 0 <= i < s.len() implies (#[trigger] next_flock(s, step, w, h)[i]).in_area(w, h) by {
        let b = s[i];
        let t = steered(b, target_heading(s, b));
        assert(0 <= (b.theta + turn(b.theta as int, target_heading(s, b))) % (FULL_TURN as int) < FULL_TURN);
        assert(0 <= (t.x + rdiv(sine(t.theta as int) * step, ONE as int)) % w < w);
        assert(0 <= (t.y - rdiv(cosine(t.theta as int) * step, ONE as int)) % h < h);
    }
}

/// Wrap-around keeps every agent inside the area, with a normalised heading,
/// after any sequence of ticks.
pub proof fn lemma_ticks_stay_in_area(s: Seq<Boid>, dts: Seq<u32>, w: int, h: int)
    requires
        valid_area(w, h),
        all_in_area(s, w, h),
    ensures
        all_in_area(after_ticks(s, dts, w, h), w, h),
    decreases dts.len(),
{
    if dts.len() > 0 {
        lemma_tick_stays_in_area(s, step_for(dts[0] as int), w, h);
        lemma_ticks_stay_in_area(next_flock(s, step_for(dts[0] as int), w, h), dts.drop_first(), w, h);
    }
}

/// Ticks are deterministic: two populations with the same agents, in the
/// same area and given the same tick lengths, stay equal.
pub proof fn lemma_ticks_deterministic(
    s1: Seq<Boid>,
    s2: Seq<Boid>,
    dts: Seq<u32>,
    w: int,
    h: int,
)
    requires
        s1 == s2,
    ensures
        after_ticks(s1, dts, w, h) == after_ticks(s2, dts, w, h),
{
}

/// A lone agent is its own only neighbour: its alignment target is its own
/// heading, its cohesion and separation targets are 0, so it steers toward a
/// third of its heading. Heading 0 is therefore kept, and the agent then
/// moves straight along negative y, wrapping at the edge.
pub proof fn lemma_single_agent(b: Boid, step: int, w: int, h: int)
    requires
        valid_area(w, h),
        b.in_area(w, h),
    ensures
        alignment_target(seq![b], b) == b.theta,
        cohesion_target(seq![b], b) == 0,
        separation_target(seq![b], b) == 0,
        target_heading(seq![b], b) == b.theta / 3,
        b.theta == 0 ==> next_flock(seq![b], step, w, h) == seq![
            (Boid { x: b.x, y: ((b.y - step) % h) as i64, theta: 0 }),
        ],
{
    let s = seq![b];
    assert(s[0] == b);
    assert(dist2(b, b) == 0);
    assert(sees(b, s[0]));
    assert(neighbor_count(s, b, 0) == 0);
    assert(heading_sum(s, b, 0) == 0);
    assert(x_sum(s, b, 0) == 0);
    assert(y_sum(s, b, 0) == 0);
    assert(repulsion_sum(s, b, 0) == 0);
    assert(neighbor_count(s, b, 1) == 1);
    assert(heading_sum(s, b, 1) == b.theta);
    assert(x_sum(s, b, 1) == b.x);
    assert(y_sum(s, b, 1) == b.y);
    assert(repulsion_sum(s, b, 1) == 0);
    assert(alignment_target(s, b) == b.theta) by {
        vstd::arithmetic::div_mod::lemma_div_by_multiple(b.theta as int, 1);
    }
    assert(cohesion_dx(s, b) == 0 && cohesion_dy(s, b) == 0) by {
        vstd::arithmetic::div_mod::lemma_div_by_multiple(b.x as int, 1);
        vstd::arithmetic::div_mod::lemma_div_by_multiple(b.y as int, 1);
    }
    assert(cohesion_target(s, b) == 0);
    assert(separation_target(s, b) == 0);
    if b.theta == 0 {
        lemma_sine_at_zero_and_quarter();
        assert(cosine(0) == ONE);
        assert(rdiv(ONE * step, ONE as int) == step) by {
            if step >= 0 {
                vstd::arithmetic::div_mod::lemma_div_multiples_vanish_fancy(step, ONE / 2, ONE as int);
            } else {
                vstd::arithmetic::div_mod::lemma_div_multiples_vanish_fancy(-step, ONE / 2, ONE as int);
            }
        }
        assert(target_heading(s, b) == 0);
        assert(wrapped_delta(0, 0) == 0);
        assert(turn(0, 0) == 0) by {
            vstd::arithmetic::div_mod::lemma_div_of0(TURN_DIVISOR as int);
        }
        let t = steered(b, 0);
        assert(t == b);
        assert(rdiv(0 * step, ONE as int) == 0) by {
            vstd::arithmetic::div_mod::lemma_basic_div(ONE / 2, ONE as int);
        }
        assert((b.x + 0) % w == b.x) by {
            vstd::arithmetic::div_mod::lemma_small_mod(b.x as nat, w as nat);
        }
        assert(moved(t, step, w, h) == (Boid { x: b.x, y: ((b.y - step) % h) as i64, theta: 0 }));
        assert(next_flock(s, step, w, h) =~= seq![
            (Boid { x: b.x, y: ((b.y - step) % h) as i64, theta: 0 }),
        ]);
    }
}

/// A tick of zero length turns the agents but leaves every position as it was.
pub proof fn lemma_zero_step_keeps_positions(s: Seq<Boid>, w: int, h: int)
    requires
        valid_area(w, h),
        all_in_area(s, w, h),
    ensures
        forall|i: int|
            0 <= i < s.len() ==> (#[trigger] next_flock(s, 0, w, h)[i]).x == s[i].x
                && next_flock(s, 0, w, h)[i].y == s[i].y,
{
    assert forall|i: int| 0 <= i < s.len() implies (#[trigger] next_flock(s, 0, w, h)[i]).x
        == s[i].x && next_flock(s, 0, w, h)[i].y == s[i].y by {
        let b = s[i];
        assert(b.in_area(w, h));
        let t = steered(b, target_heading(s, b));
        assert(rdiv(sine(t.theta as int) * 0, ONE as int) == 0) by {
            vstd::arithmetic::div_mod::lemma_basic_div(ONE / 2, ONE as int);
        }
        assert(rdiv(cosine(t.theta as int) * 0, ONE as int) == 0) by {
            vstd::arithmetic::div_mod::lemma_basic_div(ONE / 2, ONE as int);
        }
        vstd::arithmetic::div_mod::lemma_small_mod(b.x as nat, w as nat);
        vstd::arithmetic::div_mod::lemma_small_mod(b.y as nat, h as nat);
    }
}

} // verus!
