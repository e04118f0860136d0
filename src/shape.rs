//! The shapes a body can have.
use vstd::prelude::*;
use crate::circle::Circle;
use crate::fixed::{prod_fx, HALF};
use crate::point::Point;
use crate::polygon::{posed, proj_max, proj_min, unit_moment, Polygon};
use crate::fixed::{diff_fx, sum_fx};

verus! {

pub enum Shape {
    Circle(Circle),
    Polygon(Polygon),
}

impl Shape {
    pub open spec fn wf(&self) -> bool {
        match self {
            Shape::Circle(_) => true,
            Shape::Polygon(p) => p.wf(),
        }
    }

    /// Moment of inertia of the shape with unit mass.
    pub open spec fn unit_moment_spec(&self) -> int {
        match self {
            Shape::Circle(c) => prod_fx(HALF as int, prod_fx(c.radius as int, c.radius as int)),
            Shape::Polygon(p) => unit_moment(p.offsets@),
        }
    }

    /// `self` is `prev` moved to centre `pos` and orientation `apos`.
    pub open spec fn is_posed(&self, prev: Shape, pos: Point, apos: int) -> bool {
        match (self, prev) {
            (Shape::Circle(c), Shape::Circle(d)) => c.pos == pos && c.radius == d.radius,
            (Shape::Polygon(p), Shape::Polygon(q)) => {
                &&& p.pos == pos
                &&& p.offsets == q.offsets
                &&& p.vertices@ == posed(q.offsets@, pos, apos)
            },
            _ => false,
        }
    }

    pub fn update_pos(&mut self, pos: Point, apos: i64)
        ensures
            final(self).is_posed(*old(self), pos, apos as int),
    {
        match self {
            Shape::Circle(circle) => {
                circle.pos = pos;
            },
            Shape::Polygon(polygon) => {
                polygon.update_pos(pos, apos);
            },
        }
    }

    pub fn get_moment_of_inertia(&self) -> (r: i64)
        ensures
            r == self.unit_moment_spec(),
    {
        match self {
            Shape::Circle(circle) => circle.get_moment_of_inertia(),
            Shape::Polygon(polygon) => polygon.get_moment_of_inertia(),
        }
    }

    /// The interval `[min, max]` that the shape covers along `normal`.
    pub fn project(&self, normal: Point) -> (r: [i64; 2])
        requires
            self.wf(),
        ensures
            match self {
                Shape::Circle(c) => r@[0] == diff_fx(c.pos.dot_spec(normal), c.radius as int)
                    && r@[1] == sum_fx(c.pos.dot_spec(normal), c.radius as int),
                Shape::Polygon(p) => r@[0] == proj_min(p.vertices@, normal) && r@[1] == proj_max(p.vertices@, normal),
            },
    {
        match self {
            Shape::Circle(circle) => circle.project(normal),
            Shape::Polygon(polygon) => polygon.project(normal),
        }
    }
}

} // verus!
