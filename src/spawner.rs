//! Random initial placement of a population.

use vstd::prelude::*;
use rand::rngs::ThreadRng;
use rand::Rng;
use crate::angle::FULL_TURN;
use crate::boid::{all_in_area, valid_area, Boid, Boids};

verus! {

#[verifier::external_type_specification]
#[verifier::external_body]
/// Opaque handle to rand's thread-local generator.
pub struct ExThreadRng(rand::rngs::ThreadRng);

/// Relies on rand::thread_rng: a handle to the thread's generator; nothing
/// is promised of what it will draw.
pub assume_specification[ rand::thread_rng ]() -> rand::rngs::ThreadRng;

/// Relies on rand's `Rng::gen_range` for an `i64` range: a value of
/// `[0, bound)`; it panics only on an empty range, which `requires` excludes.
#[verifier::external_body]
fn draw_below(rng: &mut ThreadRng, bound: i64) -> (r: i64)
    requires
        bound > 0,
    ensures
        0 <= r < bound,
{
    rng.gen_range(0..bound)
}

/// Draws agents uniformly over a `width` by `height` area (length units),
/// with uniform headings.
pub struct Spawner {
    rng: ThreadRng,
    width: i64,
    height: i64,
}

impl Spawner {
    /// The area that the spawner places agents in.
    pub closed spec fn area(&self) -> (int, int) {
        (self.width as int, self.height as int)
    }

    pub fn new(width: i64, height: i64) -> (r: Spawner)
        requires
            valid_area(width as int, height as int),
        ensures
            r.area() == (width as int, height as int),
    {
        Spawner { rng: rand::thread_rng(), width, height }
    }

    fn rand_x(&mut self) -> (r: i64)
        requires
            valid_area(old(self).area().0, old(self).area().1),
        ensures
            final(self).area() == old(self).area(),
            0 <= r < old(self).area().0,
    {
        draw_below(&mut self.rng, self.width)
    }

    fn rand_y(&mut self) -> (r: i64)
        requires
            valid_area(old(self).area().0, old(self).area().1),
        ensures
            final(self).area() == old(self).area(),
            0 <= r < old(self).area().1,
    {
        draw_below(&mut self.rng, self.height)
    }

    fn rand_theta(&mut self) -> (r: i64)
        ensures
            final(self).area() == old(self).area(),
            0 <= r < FULL_TURN,
    {
        draw_below(&mut self.rng, FULL_TURN)
    }

    /// A flock of `n` agents, each placed and headed by its own draws.
    pub fn spawn(&mut self, n: usize) -> (r: Boids)
        requires
            valid_area(old(self).area().0, old(self).area().1),
        ensures
            final(self).area() == old(self).area(),
            r.agents().len() == n,
            r.area_width() == old(self).area().0,
            r.area_height() == old(self).area().1,
            r.wf(),
    {
        let mut boids: Vec<Boid> = Vec::with_capacity(n);
        let mut i: usize = 0;
        while i < n
            invariant
                self.area() == old(self).area(),
                valid_area(self.area().0, self.area().1),
                0 <= i <= n,
                boids@.len() == i,
                all_in_area(boids@, self.area().0, self.area().1),
            decreases n - i,
        {
            let x: i64 = self.rand_x();
            let y: i64 = self.rand_y();
            let theta: i64 = self.rand_theta();
            boids.push(Boid { x, y, theta });
            i = i + 1;
        }
        Boids::new(boids, self.width, self.height)
    }
}

} // verus!
