//! Discs.
use vstd::prelude::*;
use crate::fixed::{diff_fx, fadd, fmul, fsub, prod_fx, sum_fx, HALF};
use crate::point::Point;

verus! {

/// A disc: its centre in world space and its radius.
#[derive(Clone, Copy, Debug, PartialEq, Eq, Structural)]
pub struct Circle {
    pub pos: Point,
    pub radius: i64,
}

impl Circle {
    /// The interval `[c·n − r, c·n + r]` covered by the disc along `normal`.
    pub fn project(&self, normal: Point) -> (r: [i64; 2])
        ensures
            r@[0] == diff_fx(self.pos.dot_spec(normal), self.radius as int),
            r@[1] == sum_fx(self.pos.dot_spec(normal), self.radius as int),
    {
        let projected = self.pos.dot(normal);
        [fsub(projected, self.radius), fadd(projected, self.radius)]
    }

    /// Moment of inertia of the disc with unit mass: `r² / 2`.
    pub fn get_moment_of_inertia(&self) -> (r: i64)
        ensures
            r == prod_fx(HALF as int, prod_fx(self.radius as int, self.radius as int)),
    {
        fmul(HALF, fmul(self.radius, self.radius))
    }
}

} // verus!
