//! The world: bodies and their contacts, advanced one fixed step at a time.
use vstd::prelude::*;
use crate::body::{at_rest, lemma_zero_arith, zero, built_polygon, get_rectangle, get_regular_polygon, rectangle_corners, regular_vertices, Body};
use crate::collisions::{
    all_contacts, all_wf, indices_ok, lemma_resolve_rounds_at_rest, lemma_resolve_rounds_keeps_poses, resolve_rounds, Collision, CollisionHandler,
};
use crate::config::{standard_config, Config};
use crate::polygon::posed;
use crate::shape::Shape;
use crate::fixed::{LIMIT, SCALE};
use crate::point::Point;

verus! {

/// Standard length of one step: a hundredth of a second.
pub const DT: i64 = 10_000;

/// Standard strength of gravity, along +y (screen coordinates, y pointing down).
pub const GRAVITY: i64 = 10 * SCALE;

/// The weight of a body under gravity `g`: `mass · g`.
pub open spec fn weight(b: Body, g: Point) -> Point {
    g.times_spec(b.mass)
}

/// The bodies with their weights applied.
pub open spec fn weighed(s: Seq<Body>, g: Point) -> Seq<Body> {
    Seq::new(s.len(), |i: int| s[i].forced(weight(s[i], g)))
}

/// A world: its bodies, the contacts of its last step, and its tuning.
pub struct Simulation {
    pub bodies: Vec<Body>,
    pub collision_handler: CollisionHandler,
    pub config: Config,
}

impl Simulation {
    pub open spec fn wf(&self) -> bool {
        &&& all_wf(self.bodies@)
        &&& self.config.wf()
        &&& self.collision_handler.config == self.config
    }

    /// `next` is `self` after one step: weights applied, contacts detected among the
    /// weighed bodies and resolved in `solver_iterations` sweeps, then every body
    /// integrated over `dt`.
    pub open spec fn steps_to(&self, next: Simulation) -> bool {
        let cfg = self.config;
        let w = weighed(self.bodies@, cfg.gravity);
        let contacts = all_contacts(w, w.len() as int, cfg.collision_margin);
        let solved = resolve_rounds(w, contacts, cfg.solver_iterations as int, cfg);
        &&& next.config == cfg
        &&& next.collision_handler.config == cfg
        &&& next.collision_handler.collisions@ == contacts
        &&& indices_ok(contacts, w.len() as int)
        &&& next.bodies@.len() == self.bodies@.len()
        &&& forall|i: int| 0 <= i < solved.len() ==> #[trigger] solved[i].stepped_to(next.bodies@[i], cfg.dt as int)
    }

    /// Advances the world by one step.
    pub fn timestep(&mut self)
        requires
            old(self).wf(),
        ensures
            old(self).steps_to(*final(self)),
    {
        self.handle_gravity();
        self.collision_handler.timestep(&mut self.bodies);
        self.integrate();
    }

    /// Integrates every body over `config.dt`.
    pub fn integrate(&mut self)
        ensures
            final(self).bodies@.len() == old(self).bodies@.len(),
            forall|i: int| 0 <= i < old(self).bodies@.len() ==> #[trigger] old(self).bodies@[i].stepped_to(final(self).bodies@[i], old(self).config.dt as int),
            final(self).collision_handler == old(self).collision_handler,
            final(self).config == old(self).config,
    {
        let dt = self.config.dt;
        let n = self.bodies.len();
        let mut i: usize = 0;
        while i < n
            invariant
                n == self.bodies@.len(),
                n == old(self).bodies@.len(),
                i <= n,
                self.collision_handler == old(self).collision_handler,
                self.config == old(self).config,
                dt == self.config.dt,
                forall|j: int| 0 <= j < i ==> #[trigger] old(self).bodies@[j].stepped_to(self.bodies@[j], dt as int),
                forall|j: int| i <= j < n ==> #[trigger] self.bodies@[j] == old(self).bodies@[j],
            decreases n - i,
        {
            self.bodies[i].timestep(dt);
            i = i + 1;
        }
    }

    fn handle_gravity(&mut self)
        requires
            old(self).wf(),
        ensures
            final(self).bodies@ == weighed(old(self).bodies@, old(self).config.gravity),
            final(self).wf(),
            final(self).collision_handler == old(self).collision_handler,
            final(self).config == old(self).config,
    {
        let g = self.config.gravity;
        let n = self.bodies.len();
        let mut i: usize = 0;
        while i < n
            invariant
                n == self.bodies@.len(),
                n == old(self).bodies@.len(),
                i <= n,
                all_wf(old(self).bodies@),
                self.collision_handler == old(self).collision_handler,
                self.config == old(self).config,
                g == self.config.gravity,
                forall|j: int| 0 <= j < i ==> #[trigger] self.bodies@[j] == old(self).bodies@[j].forced(weight(old(self).bodies@[j], g)),
                forall|j: int| i <= j < n ==> #[trigger] self.bodies@[j] == old(self).bodies@[j],
            decreases n - i,
        {
            apply_gravity(&mut self.bodies[i], g);
            i = i + 1;
        }
        assert(self.bodies@ =~= weighed(old(self).bodies@, g));
        assert forall|j: int| 0 <= j < self.bodies@.len() implies #[trigger] self.bodies@[j].wf() by {
            assert(old(self).bodies@[j].wf());
        }
    }

    /// The bodies, in the order they were given.
    pub fn bodies(&self) -> (r: &Vec<Body>)
        ensures
            r@ == self.bodies@,
    {
        &self.bodies
    }

    /// The contacts found in the last step.
    pub fn contacts(&self) -> (r: &Vec<Collision>)
        ensures
            r@ == self.collision_handler.collisions@,
    {
        &self.collision_handler.collisions
    }

    /// A world of the given bodies with the standard tuning.
    pub fn new(bodies: Vec<Body>) -> (r: Simulation)
        ensures
            r.bodies == bodies,
            r.collision_handler.collisions@.len() == 0,
            r.config == standard_config(),
            r.collision_handler.config == r.config,
    {
        Simulation { bodies, collision_handler: CollisionHandler::new(), config: Config::standard() }
    }

    /// A world of the given bodies with the given tuning.
    pub fn with_config(bodies: Vec<Body>, config: Config) -> (r: Simulation)
        ensures
            r.bodies == bodies,
            r.collision_handler.collisions@.len() == 0,
            r.config == config,
            r.collision_handler.config == config,
    {
        Simulation { bodies, collision_handler: CollisionHandler::with_config(config), config }
    }
}

fn apply_gravity(body: &mut Body, g: Point)
    ensures
        *final(body) == old(body).forced(weight(*old(body), g)),
{
    let force = g.times(body.mass);
    body.apply_force(force);
}

/// A unit box, tilted by one radian, above a static unit box.
pub fn test_collision_1() -> (r: Simulation)
    ensures
        r.wf(),
        r.config == standard_config(),
        r.collision_handler.collisions@.len() == 0,
        r.bodies@.len() == 2,
        built_polygon(Body { apos: 0, ..r.bodies@[0] }, rectangle_corners(Point { x: 500_000, y: 500_000 }, SCALE, SCALE), SCALE),
        r.bodies@[0].apos == SCALE,
        built_polygon(r.bodies@[1], rectangle_corners(Point { x: 500_000, y: 2_500_000 }, SCALE, SCALE), 0),
{
    let mut bodies: Vec<Body> = Vec::new();
    bodies.push(get_rectangle(Point::new(500_000, 500_000), SCALE, SCALE, SCALE));
    bodies.push(get_rectangle(Point::new(500_000, 2_500_000), SCALE, SCALE, 0));
    bodies[0].apos = SCALE;
    Simulation::new(bodies)
}

/// Centre of polygon `i` of the second scene.
pub open spec fn scene2_centre(i: int) -> Point {
    Point { x: (100_000 + i * 300_000) as i64, y: (-5_000_000 + i * 1_300_000) as i64 }
}

/// Ten regular polygons of radius one half, from three to twelve corners, above a
/// wide static floor.
pub fn test_collision_2() -> (r: Simulation)
    ensures
        r.wf(),
        r.config == standard_config(),
        r.collision_handler.collisions@.len() == 0,
        r.bodies@.len() == 11,
        forall|i: int| 0 <= i < 10 ==> built_polygon(#[trigger] r.bodies@[i], regular_vertices(scene2_centre(i), 500_000, 3 + i), SCALE),
        built_polygon(r.bodies@[10], rectangle_corners(Point { x: 0, y: 10_000_000 }, 30_000_000, 3_000_000), 0),
{
    let mut bodies: Vec<Body> = Vec::new();
    let num_polygons: usize = 10;
    let mut i: usize = 0;
    while i < num_polygons
        invariant
            i <= num_polygons == 10,
            bodies@.len() == i,
            forall|j: int| 0 <= j < i ==> built_polygon(#[trigger] bodies@[j], regular_vertices(scene2_centre(j), 500_000, 3 + j), SCALE),
        decreases num_polygons - i,
    {
        let x: i64 = 100_000 + (i as i64) * 300_000;
        let y: i64 = -5_000_000 + (i as i64) * 1_300_000;
        bodies.push(get_regular_polygon(Point::new(x, y), 500_000, 3 + i, SCALE));
        i = i + 1;
    }
    bodies.push(get_rectangle(Point::new(0, 10 * SCALE), 30 * SCALE, 3 * SCALE, 0));
    Simulation::new(bodies)
}

/// Centre of polygon `i` of the third scene.
pub open spec fn scene3_centre(i: int) -> Point {
    Point { x: (100_000 + i * 100_000) as i64, y: (-2_300_000 * i) as i64 }
}

/// Twenty polygons of radius one and a half, of three to five corners, in a static
/// box open at the top.
pub fn test_collision_3() -> (r: Simulation)
    ensures
        r.wf(),
        r.config == standard_config(),
        r.collision_handler.collisions@.len() == 0,
        r.bodies@.len() == 23,
        forall|i: int| 0 <= i < 20 ==> built_polygon(#[trigger] r.bodies@[i], regular_vertices(scene3_centre(i), 1_500_000, 3 + i % 3), SCALE),
        built_polygon(r.bodies@[20], rectangle_corners(Point { x: 0, y: 10_000_000 }, 30_000_000, 1_000_000), 0),
        built_polygon(r.bodies@[21], rectangle_corners(Point { x: -5_000_000i64, y: 0 }, 1_000_000, 30_000_000), 0),
        built_polygon(r.bodies@[22], rectangle_corners(Point { x: 5_000_000, y: 0 }, 1_000_000, 30_000_000), 0),
{
    let mut bodies: Vec<Body> = Vec::new();
    let num_polygons: usize = 20;
    let mut i: usize = 0;
    while i < num_polygons
        invariant
            i <= num_polygons == 20,
            bodies@.len() == i,
            forall|j: int| 0 <= j < i ==> built_polygon(#[trigger] bodies@[j], regular_vertices(scene3_centre(j), 1_500_000, 3 + j % 3), SCALE),
        decreases num_polygons - i,
    {
        let x: i64 = 100_000 + (i as i64) * 100_000;
        let y: i64 = 0 - (i as i64) * 2_300_000;
        bodies.push(get_regular_polygon(Point::new(x, y), 1_500_000, 3 + i % 3, SCALE));
        i = i + 1;
    }
    bodies.push(get_rectangle(Point::new(0, 10 * SCALE), 30 * SCALE, SCALE, 0));
    bodies.push(get_rectangle(Point::new(-5 * SCALE, 0), SCALE, 30 * SCALE, 0));
    bodies.push(get_rectangle(Point::new(5 * SCALE, 0), SCALE, 30 * SCALE, 0));
    Simulation::new(bodies)
}

/// Centre of box `i` of the fourth scene.
pub open spec fn scene4_centre(i: int) -> Point {
    Point { x: 500_000, y: (500_000 - 1_400_000 * i) as i64 }
}

/// A column of twenty unit boxes, 0.4 apart, above a large static block.
pub fn test_collision_4() -> (r: Simulation)
    ensures
        r.wf(),
        r.config == standard_config(),
        r.collision_handler.collisions@.len() == 0,
        r.bodies@.len() == 21,
        forall|i: int| 0 <= i < 20 ==> built_polygon(#[trigger] r.bodies@[i], rectangle_corners(scene4_centre(i), SCALE, SCALE), SCALE),
        built_polygon(r.bodies@[20], rectangle_corners(Point { x: 500_000, y: 4_500_000 }, 5_000_000, 5_000_000), 0),
{
    let mut bodies: Vec<Body> = Vec::new();
    let num_boxes: usize = 20;
    let mut i: usize = 0;
    while i < num_boxes
        invariant
            i <= num_boxes == 20,
            bodies@.len() == i,
            forall|j: int| 0 <= j < i ==> built_polygon(#[trigger] bodies@[j], rectangle_corners(scene4_centre(j), SCALE, SCALE), SCALE),
        decreases num_boxes - i,
    {
        let y: i64 = 500_000 - 1_400_000 * (i as i64);
        bodies.push(get_rectangle(Point::new(500_000, y), SCALE, SCALE, SCALE));
        i = i + 1;
    }
    bodies.push(get_rectangle(Point::new(500_000, 4_500_000), 5 * SCALE, 5 * SCALE, 0));
    Simulation::new(bodies)
}

/// After a step, the world vertices of every moving polygon body are its offsets
/// turned by the body's angle and moved to the body's position.
pub proof fn lemma_step_poses_vertices(before: Simulation, after: Simulation, i: int)
    requires
        before.steps_to(after),
        0 <= i < after.bodies@.len(),
        !after.bodies@[i].is_static,
    ensures
        match after.bodies@[i].shape {
            Shape::Polygon(p) => p.vertices@ == posed(p.offsets@, after.bodies@[i].pos, after.bodies@[i].apos as int),
            Shape::Circle(c) => c.pos == after.bodies@[i].pos,
        },
{
    let cfg = before.config;
    let w = weighed(before.bodies@, cfg.gravity);
    let contacts = all_contacts(w, w.len() as int, cfg.collision_margin);
    let solved = resolve_rounds(w, contacts, cfg.solver_iterations as int, cfg);
    lemma_resolve_rounds_keeps_poses(w, contacts, cfg.solver_iterations as int, cfg);
    assert(solved[i].stepped_to(after.bodies@[i], cfg.dt as int));
}

/// One step leaves every static body exactly as it was.
pub proof fn lemma_step_keeps_static_bodies(before: Simulation, after: Simulation, i: int)
    requires
        before.steps_to(after),
        0 <= i < before.bodies@.len(),
        before.bodies@[i].is_static,
    ensures
        after.bodies@.len() == before.bodies@.len(),
        after.bodies@[i] == before.bodies@[i],
{
    let cfg = before.config;
    let w = weighed(before.bodies@, cfg.gravity);
    let contacts = all_contacts(w, w.len() as int, cfg.collision_margin);
    let solved = resolve_rounds(w, contacts, cfg.solver_iterations as int, cfg);
    lemma_resolve_rounds_keeps_poses(w, contacts, cfg.solver_iterations as int, cfg);
    assert(w[i] == before.bodies@[i]);
    assert(solved[i] == w[i]);
    assert(solved[i].stepped_to(after.bodies@[i], cfg.dt as int));
}

/// Over any number of steps, a static body keeps its position, velocity, angle
/// and angular velocity (indeed every field).
pub proof fn lemma_static_bodies_stay(trace: Seq<Simulation>, i: int)
    requires
        trace.len() >= 1,
        forall|k: int| 0 <= k < trace.len() - 1 ==> #[trigger] trace[k].steps_to(trace[k + 1]),
        0 <= i < trace[0].bodies@.len(),
        trace[0].bodies@[i].is_static,
    ensures
        forall|k: int| 0 <= k < trace.len() ==> (#[trigger] trace[k]).bodies@.len() == trace[0].bodies@.len()
            && trace[k].bodies@[i] == trace[0].bodies@[i],
    decreases trace.len(),
{
    if trace.len() > 1 {
        let prefix = trace.drop_last();
        assert forall|k: int| 0 <= k < prefix.len() - 1 implies #[trigger] prefix[k].steps_to(prefix[k + 1]) by {
            assert(trace[k].steps_to(trace[k + 1]));
        }
        lemma_static_bodies_stay(prefix, i);
        let n = trace.len() - 1;
        let m = n - 1;
        assert(trace[m].steps_to(trace[m + 1]));
        assert(m + 1 == n);
        assert(prefix[n - 1] == trace[n - 1]);
        lemma_step_keeps_static_bodies(trace[n - 1], trace[n], i);
        assert forall|k: int| 0 <= k < trace.len() implies (#[trigger] trace[k]).bodies@.len() == trace[0].bodies@.len()
            && trace[k].bodies@[i] == trace[0].bodies@[i] by {
            if k < n {
                assert(prefix[k] == trace[k]);
            }
        }
    }
}

/// After a step every body sits at its pose (its shape centred on its position, its
/// world vertices equal to its offsets turned by its angle and moved to its
/// position), provided the static bodies sat at theirs before: they do not move,
/// and every moving body is posed anew.
pub proof fn lemma_step_keeps_bodies_in_pose(before: Simulation, after: Simulation)
    requires
        before.steps_to(after),
        forall|i: int| 0 <= i < before.bodies@.len() && (#[trigger] before.bodies@[i]).is_static ==> before.bodies@[i].in_pose(),
    ensures
        forall|i: int| 0 <= i < after.bodies@.len() ==> (#[trigger] after.bodies@[i]).in_pose(),
{
    let cfg = before.config;
    let w = weighed(before.bodies@, cfg.gravity);
    let contacts = all_contacts(w, w.len() as int, cfg.collision_margin);
    let solved = resolve_rounds(w, contacts, cfg.solver_iterations as int, cfg);
    lemma_resolve_rounds_keeps_poses(w, contacts, cfg.solver_iterations as int, cfg);
    assert forall|i: int| 0 <= i < after.bodies@.len() implies (#[trigger] after.bodies@[i]).in_pose() by {
        assert(solved[i].stepped_to(after.bodies@[i], cfg.dt as int));
        if before.bodies@[i].is_static {
            lemma_step_keeps_static_bodies(before, after, i);
        }
    }
}

/// Without gravity, a world of still bodies whose contacts are no deeper than the
/// slop is a fixed point of the step: velocities stay zero and nothing moves.
pub proof fn lemma_quiescence(before: Simulation, after: Simulation)
    requires
        before.steps_to(after),
        before.config.gravity == zero(),
        forall|i: int| 0 <= i < before.bodies@.len() ==> {
            let b = #[trigger] before.bodies@[i];
            &&& at_rest(b)
            &&& b.acc == zero() && b.aacc == 0
            &&& -LIMIT <= b.pos.x <= LIMIT && -LIMIT <= b.pos.y <= LIMIT
            &&& -LIMIT <= b.apos <= LIMIT
        },
        forall|j: int| 0 <= j < after.collision_handler.collisions@.len()
            ==> (#[trigger] after.collision_handler.collisions@[j]).info.depth <= before.config.slop,
    ensures
        forall|i: int| 0 <= i < after.bodies@.len() ==> {
            let b = #[trigger] after.bodies@[i];
            &&& at_rest(b)
            &&& b.pos == before.bodies@[i].pos
            &&& b.apos == before.bodies@[i].apos
        },
{
    let cfg = before.config;
    let w = weighed(before.bodies@, cfg.gravity);
    let contacts = all_contacts(w, w.len() as int, cfg.collision_margin);
    assert forall|i: int| 0 <= i < w.len() implies #[trigger] w[i] == before.bodies@[i] by {
        let b = before.bodies@[i];
        lemma_zero_arith(b.mass as int);
        assert(weight(b, zero()) == zero());
        assert(zero().divided_spec(b.mass) == zero());
    }
    assert(w =~= before.bodies@);
    lemma_resolve_rounds_at_rest(w, contacts, cfg.solver_iterations as int, cfg);
    assert forall|i: int| 0 <= i < after.bodies@.len() implies {
        let b = #[trigger] after.bodies@[i];
        &&& at_rest(b)
        &&& b.pos == before.bodies@[i].pos
        &&& b.apos == before.bodies@[i].apos
    } by {
        let b = before.bodies@[i];
        assert(w[i].stepped_to(after.bodies@[i], cfg.dt as int));
        lemma_zero_arith(cfg.dt as int);
        assert(zero().times_spec(cfg.dt) == zero());
    }
}

} // verus!
