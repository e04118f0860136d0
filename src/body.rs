//! Rigid bodies: pose, motion, mass and shape.
use vstd::prelude::*;
use crate::circle::Circle;
use crate::fixed::{
    cos, cos_fx, cos_poly, fadd, horner_step, rdiv, sin_poly, fdiv, fmul, fsub, prod_fx, quot_fx, share_fx, sin, sin_fx, sum_fx,
    turn_fraction, HALF, LIMIT, SCALE, TWO_PI_FX,
};
use crate::point::{pt, Point};
use crate::polygon::{centroid, lemma_rdiv_exact, posed, Polygon};
use crate::shape::Shape;

verus! {

/// A rigid body. A static body never moves: forces and impulses leave it as it is.
pub struct Body {
    pub pos: Point,
    pub vel: Point,
    pub acc: Point,
    pub apos: i64,
    pub avel: i64,
    pub aacc: i64,
    pub mass: i64,
    pub inertia: i64,
    pub shape: Shape,
    pub is_static: bool,
}

pub open spec fn zero() -> Point {
    Point { x: 0, y: 0 }
}

impl Body {
    pub open spec fn wf(&self) -> bool {
        self.shape.wf()
    }

    /// The shape sits at the body's pose: centred on its position, and for a
    /// polygon, world vertices equal to the offsets turned by its angle and moved
    /// to its position.
    pub open spec fn in_pose(&self) -> bool {
        match self.shape {
            Shape::Polygon(p) => p.pos == self.pos && p.vertices@ == posed(p.offsets@, self.pos, self.apos as int),
            Shape::Circle(c) => c.pos == self.pos,
        }
    }

    /// `1 / q`, or zero for a static body (and for a zero quantity).
    pub open spec fn inv_spec(&self, q: int) -> int {
        if self.is_static { 0 } else { quot_fx(SCALE as int, q) }
    }

    /// Velocity of the material point at lever arm `r`: `v + ω · orth(r)`.
    pub open spec fn vel_at_spec(&self, r: Point) -> Point {
        self.vel.plus_spec(r.orth_spec().times_spec(self.avel))
    }

    /// Torque of `f` applied at lever arm `r`, divided by the inertia.
    pub open spec fn spin_of(&self, f: Point, r: Point) -> int {
        quot_fx(r.orth_spec().dot_spec(f), self.inertia as int)
    }

    pub open spec fn forced(self, f: Point) -> Body {
        if self.is_static { self } else { Body { acc: self.acc.plus_spec(f.divided_spec(self.mass)), ..self } }
    }

    pub open spec fn impulsed(self, j: Point) -> Body {
        if self.is_static { self } else { Body { vel: self.vel.plus_spec(j.divided_spec(self.mass)), ..self } }
    }

    pub open spec fn forced_at(self, f: Point, r: Point) -> Body {
        if self.is_static {
            self
        } else {
            Body {
                acc: self.acc.plus_spec(f.divided_spec(self.mass)),
                aacc: sum_fx(self.aacc as int, self.spin_of(f, r)) as i64,
                ..self
            }
        }
    }

    pub open spec fn impulsed_at(self, j: Point, r: Point) -> Body {
        if self.is_static {
            self
        } else {
            Body {
                vel: self.vel.plus_spec(j.divided_spec(self.mass)),
                avel: sum_fx(self.avel as int, self.spin_of(j, r)) as i64,
                ..self
            }
        }
    }

    /// `next` is `self` advanced by one semi-implicit Euler step of length `dt`,
    /// with the accelerations used up and the shape moved to the new pose.
    pub open spec fn stepped_to(self, next: Body, dt: int) -> bool {
        if self.is_static {
            next == self
        } else {
            let vel = self.vel.plus_spec(self.acc.times_spec(dt as i64));
            let pos = self.pos.plus_spec(vel.times_spec(dt as i64));
            let avel = sum_fx(self.avel as int, prod_fx(self.aacc as int, dt));
            let apos = sum_fx(self.apos as int, prod_fx(avel, dt));
            &&& next.vel == vel
            &&& next.pos == pos
            &&& next.acc == zero()
            &&& next.avel == avel
            &&& next.apos == apos
            &&& next.aacc == 0
            &&& next.mass == self.mass
            &&& next.inertia == self.inertia
            &&& next.is_static == self.is_static
            &&& next.shape.is_posed(self.shape, pos, apos)
        }
    }

    /// Advances the body by `dt`: `v += a·dt; x += v·dt; ω += α·dt; θ += ω·dt`.
    pub fn timestep(&mut self, dt: i64)
        ensures
            old(self).stepped_to(*final(self), dt as int),
    {
        if self.is_static {
            return;
        }
        self.vel = self.vel.plus(self.acc.times(dt));
        self.pos = self.pos.plus(self.vel.times(dt));
        self.acc = Point { x: 0, y: 0 };
        self.avel = fadd(self.avel, fmul(self.aacc, dt));
        self.apos = fadd(self.apos, fmul(self.avel, dt));
        self.aacc = 0;
        self.shape.update_pos(self.pos, self.apos);
    }

    pub fn apply_force(&mut self, force: Point)
        ensures
            *final(self) == old(self).forced(force),
    {
        if self.is_static {
            return;
        }
        self.acc = self.acc.plus(force.divided(self.mass));
    }

    pub fn apply_impulse(&mut self, impulse: Point)
        ensures
            *final(self) == old(self).impulsed(impulse),
    {
        if self.is_static {
            return;
        }
        self.vel = self.vel.plus(impulse.divided(self.mass));
    }

    pub fn apply_force_at(&mut self, force: Point, pos: Point)
        ensures
            *final(self) == old(self).forced_at(force, pos),
    {
        if self.is_static {
            return;
        }
        self.acc = self.acc.plus(force.divided(self.mass));
        self.aacc = fadd(self.aacc, fdiv(pos.orth().dot(force), self.inertia));
    }

    pub fn apply_impulse_at(&mut self, impulse: Point, pos: Point)
        ensures
            *final(self) == old(self).impulsed_at(impulse, pos),
    {
        if self.is_static {
            return;
        }
        self.vel = self.vel.plus(impulse.divided(self.mass));
        self.avel = fadd(self.avel, fdiv(pos.orth().dot(impulse), self.inertia));
    }

    pub fn vel_at(&self, relative_pos: Point) -> (r: Point)
        ensures
            r == self.vel_at_spec(relative_pos),
    {
        self.vel.plus(relative_pos.orth().times(self.avel))
    }

    pub fn new(pos: Point, mass: i64, shape: Shape, is_static: bool) -> (r: Body)
        ensures
            r.pos == pos,
            r.mass == mass,
            r.vel == zero(),
            r.acc == zero(),
            r.apos == 0,
            r.avel == 0,
            r.aacc == 0,
            r.inertia == prod_fx(shape.unit_moment_spec(), mass as int),
            r.shape == shape,
            r.is_static == is_static,
    {
        let inertia = fmul(shape.get_moment_of_inertia(), mass);
        Body {
            pos,
            mass,
            vel: Point { x: 0, y: 0 },
            acc: Point { x: 0, y: 0 },
            apos: 0,
            avel: 0,
            aacc: 0,
            inertia,
            shape,
            is_static,
        }
    }

    pub fn inv_quantity(&self, quantity: i64) -> (r: i64)
        ensures
            r == self.inv_spec(quantity as int),
    {
        if self.is_static {
            0
        } else {
            fdiv(SCALE, quantity)
        }
    }

    pub fn inv_mass(&self) -> (r: i64)
        ensures
            r == self.inv_spec(self.mass as int),
    {
        self.inv_quantity(self.mass)
    }

    pub fn inv_inertia(&self) -> (r: i64)
        ensures
            r == self.inv_spec(self.inertia as int),
    {
        self.inv_quantity(self.inertia)
    }
}

/// A dynamic disc at rest.
pub fn get_circle(pos: Point, mass: i64, radius: i64) -> (r: Body)
    ensures
        r.pos == pos,
        r.mass == mass,
        !r.is_static,
        r.shape == Shape::Circle(Circle { pos, radius }),
        r.vel == zero() && r.avel == 0 && r.apos == 0,
        r.inertia == prod_fx(prod_fx(HALF as int, prod_fx(radius as int, radius as int)), mass as int),
{
    Body::new(pos, mass, Shape::Circle(Circle { pos, radius }), false)
}

/// `b` is a polygon body at rest with corners `vertices`: centred on their
/// centroid, its offsets taken about it, its inertia `mass` times the unit moment
/// of its shape, static iff `mass` is zero.
pub open spec fn built_polygon(b: Body, vertices: Seq<Point>, mass: i64) -> bool {
    &&& b.wf()
    &&& b.pos == centroid(vertices)
    &&& b.mass == mass
    &&& b.is_static == (mass == 0)
    &&& b.vel == zero() && b.avel == 0 && b.apos == 0
    &&& b.acc == zero() && b.aacc == 0
    &&& b.inertia == prod_fx(b.shape.unit_moment_spec(), mass as int)
    &&& match b.shape {
        Shape::Polygon(p) => p.vertices@ == vertices && p.pos == b.pos
            && forall|i: int| 0 <= i < vertices.len() ==> #[trigger] p.offsets@[i] == vertices[i].minus_spec(b.pos),
        _ => false,
    }
}

/// A polygon body at rest, centred on the centroid of `vertices`; static iff `mass` is zero.
pub fn get_polygon(vertices: Vec<Point>, mass: i64) -> (r: Body)
    requires
        vertices@.len() >= 3,
    ensures
        built_polygon(r, vertices@, mass),
{
    let poly = Polygon::new(vertices);
    let pos = poly.pos;
    Body::new(pos, mass, Shape::Polygon(poly), mass == 0)
}

/// The corners of a `width` × `height` rectangle centred on `pos`, counter-clockwise
/// from the corner of least coordinates.
pub open spec fn rectangle_corners(pos: Point, width: i64, height: i64) -> Seq<Point> {
    let w = prod_fx(width as int, HALF as int);
    let h = prod_fx(height as int, HALF as int);
    seq![
        pt(sum_fx(pos.x as int, -w), sum_fx(pos.y as int, -h)),
        pt(sum_fx(pos.x as int, w), sum_fx(pos.y as int, -h)),
        pt(sum_fx(pos.x as int, w), sum_fx(pos.y as int, h)),
        pt(sum_fx(pos.x as int, -w), sum_fx(pos.y as int, h)),
    ]
}

/// An axis-aligned rectangle body; static iff `mass` is zero.
pub fn get_rectangle(pos: Point, width: i64, height: i64, mass: i64) -> (r: Body)
    ensures
        built_polygon(r, rectangle_corners(pos, width, height), mass),
{
    let w = fmul(width, HALF);
    let h = fmul(height, HALF);
    let mut vertices: Vec<Point> = Vec::new();
    vertices.push(Point::new(fsub(pos.x, w), fsub(pos.y, h)));
    vertices.push(Point::new(fadd(pos.x, w), fsub(pos.y, h)));
    vertices.push(Point::new(fadd(pos.x, w), fadd(pos.y, h)));
    vertices.push(Point::new(fsub(pos.x, w), fadd(pos.y, h)));
    assert(vertices@ == rectangle_corners(pos, width, height));
    get_polygon(vertices, mass)
}

/// Vertex `j` of the regular `n`-gon of the given radius about `pos`.
pub open spec fn regular_vertex(pos: Point, radius: i64, n: int, j: int) -> Point {
    let angle = share_fx(TWO_PI_FX * j, n);
    pt(sum_fx(pos.x as int, prod_fx(radius as int, cos_fx(angle))), sum_fx(pos.y as int, prod_fx(radius as int, sin_fx(angle))))
}

/// The corners of the regular `n`-gon of the given radius about `pos`.
pub open spec fn regular_vertices(pos: Point, radius: i64, n: int) -> Seq<Point> {
    Seq::new(n as nat, |j: int| regular_vertex(pos, radius, n, j))
}

/// A regular polygon body with `num_vertices` corners on the circle of `radius` about
/// `pos`, the first on the positive x axis; static iff `mass` is zero.
pub fn get_regular_polygon(pos: Point, radius: i64, num_vertices: usize, mass: i64) -> (r: Body)
    requires
        num_vertices >= 3,
    ensures
        built_polygon(r, regular_vertices(pos, radius, num_vertices as int), mass),
{
    let mut vertices: Vec<Point> = Vec::new();
    let mut j: usize = 0;
    while j < num_vertices
        invariant
            j <= num_vertices,
            vertices@.len() == j,
            forall|k: int| 0 <= k < j ==> #[trigger] vertices@[k] == regular_vertex(pos, radius, num_vertices as int, k),
        decreases num_vertices - j,
    {
        let angle = turn_fraction(j, num_vertices);
        vertices.push(Point::new(fadd(pos.x, fmul(radius, cos(angle))), fadd(pos.y, fmul(radius, sin(angle)))));
        j = j + 1;
    }
    assert(vertices@ =~= regular_vertices(pos, radius, num_vertices as int));
    get_polygon(vertices, mass)
}

/// Zero divided by anything non-zero rounds to zero.
pub proof fn lemma_rdiv_zero(k: int)
    requires
        k != 0,
    ensures
        rdiv(0, k) == 0,
{
    let a = if k < 0 { -k } else { k };
    assert((0 + a / 2) / a == 0) by (nonlinear_arith)
        requires
            0 < a,
    ;
}

/// The body is still: no linear or angular velocity.
pub open spec fn at_rest(b: Body) -> bool {
    b.vel == zero() && b.avel == 0
}

/// Products, quotients and sums with zero, as the fixed-point operations give them.
pub proof fn lemma_zero_arith(x: int)
    ensures
        prod_fx(x, 0) == 0,
        prod_fx(0, x) == 0,
        quot_fx(0, x) == 0,
{
    assert(x * 0 == 0 && 0 * x == 0);
    lemma_rdiv_zero(SCALE as int);
    if x != 0 {
        lemma_rdiv_zero(x);
    }
}

/// A still body stays as it is under a zero impulse, wherever it is applied.
pub proof fn lemma_zero_impulse(b: Body, r: Point)
    requires
        at_rest(b),
    ensures
        b.impulsed_at(zero(), r) == b,
        b.impulsed_at(zero().neg_spec(), r) == b,
        b.vel_at_spec(r) == zero(),
{
    lemma_zero_arith(b.mass as int);
    lemma_zero_arith(b.inertia as int);
    lemma_zero_arith(r.orth_spec().x as int);
    lemma_zero_arith(r.orth_spec().y as int);
    assert(zero().neg_spec() == zero());
    assert(zero().divided_spec(b.mass) == zero());
    assert(r.orth_spec().dot_spec(zero()) == 0);
    assert(b.spin_of(zero(), r) == 0);
    assert(r.orth_spec().times_spec(0) == zero());
}

/// Turning by the angle zero leaves a vector unchanged.
pub proof fn lemma_rotate_zero(v: Point)
    requires
        -LIMIT <= v.x <= LIMIT,
        -LIMIT <= v.y <= LIMIT,
    ensures
        v.rotated_spec(0) == v,
{
    assert(0int % (TWO_PI_FX as int) == 0);
    lemma_rdiv_zero(SCALE as int);
    assert forall|c: int, k: int| 0 < k implies #[trigger] horner_step(0, c, k) == SCALE by {
        assert(0 * c == 0);
        lemma_rdiv_zero(k);
    }
    assert(prod_fx(0, 0) == 0);
    assert(cos_poly(0) == SCALE);
    assert(cos_fx(0) == SCALE);
    assert(sin_poly(0) == 0);
    assert(sin_fx(0) == 0);
    lemma_rdiv_exact(v.x as int, SCALE as int);
    lemma_rdiv_exact(v.y as int, SCALE as int);
}

/// A polygon body as built sits at its pose (angle zero), when its vertices and
/// their offsets from the centroid stay within the saturation bounds.
pub proof fn lemma_built_polygon_in_pose(b: Body, vertices: Seq<Point>, mass: i64)
    requires
        built_polygon(b, vertices, mass),
        forall|i: int| 0 <= i < vertices.len() ==> {
            &&& -LIMIT <= (#[trigger] vertices[i]).x <= LIMIT
            &&& -LIMIT <= vertices[i].y <= LIMIT
            &&& -LIMIT <= vertices[i].x - b.pos.x <= LIMIT
            &&& -LIMIT <= vertices[i].y - b.pos.y <= LIMIT
        },
    ensures
        b.in_pose(),
{
    match b.shape {
        Shape::Polygon(p) => {
            assert(p.offsets@.len() == vertices.len());
            assert forall|i: int| 0 <= i < vertices.len() implies #[trigger] posed(p.offsets@, b.pos, 0)[i] == vertices[i] by {
                let o = p.offsets@[i];
                assert(o == vertices[i].minus_spec(b.pos));
                lemma_rotate_zero(o);
            }
            assert(posed(p.offsets@, b.pos, 0) =~= vertices);
        },
        _ => {},
    }
}

} // verus!
