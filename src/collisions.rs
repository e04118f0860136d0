//! Contacts between bodies and the sequential-impulse solver that resolves them.
use vstd::prelude::*;
use crate::body::{at_rest, lemma_zero_arith, lemma_zero_impulse, zero, Body};
use crate::collision_detection::{contacts_spec, find_contacts};
use crate::config::{standard_config, Config};
use crate::fixed::{diff_fx, fadd, fdiv, fmul, fsub, prod_fx, quot_fx, sum_fx, SCALE};
use crate::point::Point;

verus! {

/// Standard gain of the positional correction folded into the velocity solve.
pub const BAUMGARTE_FACTOR: i64 = 10 * SCALE;

/// Standard penetration that is tolerated before it is corrected.
pub const ALLOWED_PENETRATION: i64 = 0;

/// Standard Coulomb friction coefficient.
pub const FRICTION: i64 = 500_000;

/// Standard number of sweeps of the solver over the contacts in one step.
pub const NUM_ITERATIONS: usize = 1;

/// One contact point: where it is, how deep the bodies overlap there, and the
/// unit normal, pointing from the second body toward the first, along which the
/// first body is pushed and the second pushed back.
#[derive(Clone, Copy, Debug, PartialEq, Eq, Structural)]
pub struct CollisionInfo {
    pub pos: Point,
    pub depth: i64,
    pub normal: Point,
}

/// A contact between the bodies at indices `body1 < body2` of the world.
#[derive(Clone, Copy, Debug, PartialEq, Eq, Structural)]
pub struct Collision {
    pub info: CollisionInfo,
    pub body1: usize,
    pub body2: usize,
}

/// Clamps `x` into `[min, max]` (to `min` when the interval is empty).
pub open spec fn clamp_spec(min: int, x: int, max: int) -> int {
    let y = if x < max { x } else { max };
    if min > y { min } else { y }
}

pub fn clamp(min: i64, x: i64, max: i64) -> (r: i64)
    ensures
        r == clamp_spec(min as int, x as int, max as int),
{
    let y = if x < max { x } else { max };
    if min > y {
        min
    } else {
        y
    }
}

/// Speed along `dir` of the second body's contact point relative to the first's;
/// along the normal, which points from the second body toward the first, it is
/// positive when the bodies approach.
pub open spec fn approach_speed(b1: Body, b2: Body, c: CollisionInfo, dir: Point) -> int {
    let r1 = c.pos.minus_spec(b1.pos);
    let r2 = c.pos.minus_spec(b2.pos);
    dir.dot_spec(b2.vel_at_spec(r2).minus_spec(b1.vel_at_spec(r1)))
}

/// Effective inverse mass of the contact along `dir`:
/// `im₁ + im₂ + (|r₁|² − (r₁·d)²)·ii₁ + (|r₂|² − (r₂·d)²)·ii₂`.
pub open spec fn effective_mass(b1: Body, b2: Body, c: CollisionInfo, dir: Point) -> int {
    let r1 = c.pos.minus_spec(b1.pos);
    let r2 = c.pos.minus_spec(b2.pos);
    let a1 = r1.dot_spec(dir);
    let a2 = r2.dot_spec(dir);
    let t1 = prod_fx(diff_fx(r1.dot_spec(r1), prod_fx(a1, a1)), b1.inv_spec(b1.inertia as int));
    let t2 = prod_fx(diff_fx(r2.dot_spec(r2), prod_fx(a2, a2)), b2.inv_spec(b2.inertia as int));
    sum_fx(sum_fx(sum_fx(b1.inv_spec(b1.mass as int), b2.inv_spec(b2.mass as int)), t1), t2)
}

/// The velocity bias that pushes overlapping bodies apart.
pub open spec fn bias(c: CollisionInfo, cfg: Config) -> int {
    let excess = diff_fx(c.depth as int, cfg.slop as int);
    prod_fx(if excess > 0 { excess } else { 0 }, cfg.baumgarte as int)
}

/// Closing speed along the normal, with the bias.
pub open spec fn normal_speed(b1: Body, b2: Body, c: CollisionInfo, cfg: Config) -> int {
    sum_fx(approach_speed(b1, b2, c, c.normal), bias(c, cfg))
}

/// Magnitude of the normal impulse.
pub open spec fn normal_impulse(b1: Body, b2: Body, c: CollisionInfo, cfg: Config) -> int {
    quot_fx(normal_speed(b1, b2, c, cfg), effective_mass(b1, b2, c, c.normal))
}

/// `j` applied to the first body and `−j` to the second, at the contact point.
pub open spec fn push_apart(b1: Body, b2: Body, c: CollisionInfo, j: Point) -> (Body, Body) {
    (b1.impulsed_at(j, c.pos.minus_spec(b1.pos)), b2.impulsed_at(j.neg_spec(), c.pos.minus_spec(b2.pos)))
}

/// The two bodies after one contact is resolved: the normal impulse if they
/// approach, then the friction impulse against their sliding, clamped to the
/// Coulomb cone of the normal impulse that was applied.
#[verifier::opaque]
pub open spec fn resolved(b1: Body, b2: Body, c: CollisionInfo, cfg: Config) -> (Body, Body) {
    let approaching = normal_speed(b1, b2, c, cfg) > 0;
    let pn = if approaching { normal_impulse(b1, b2, c, cfg) } else { 0 };
    let (m1, m2) = if approaching { push_apart(b1, b2, c, c.normal.times_spec(pn as i64)) } else { (b1, b2) };
    let t = c.normal.orth_spec();
    let vt = approach_speed(m1, m2, c, t);
    let limit = prod_fx(cfg.friction as int, pn);
    let pt = clamp_spec(diff_fx(0, limit), quot_fx(vt, effective_mass(m1, m2, c, t)), limit);
    push_apart(m1, m2, c, t.times_spec(pt as i64))
}

/// The world after the contact `c` is resolved between its two bodies.
pub open spec fn resolve_one(s: Seq<Body>, c: Collision, cfg: Config) -> Seq<Body> {
    let (a, b) = resolved(s[c.body1 as int], s[c.body2 as int], c.info, cfg);
    s.update(c.body1 as int, a).update(c.body2 as int, b)
}

/// The world after the first `k` contacts are resolved in order.
pub open spec fn resolve_all(s: Seq<Body>, cs: Seq<Collision>, k: int, cfg: Config) -> Seq<Body>
    decreases k,
{
    if k <= 0 { s } else { resolve_one(resolve_all(s, cs, k - 1, cfg), cs[k - 1], cfg) }
}

/// The contacts of the pair `(a, b)` as indexed records; none between two static bodies.
pub open spec fn pair_contacts(s: Seq<Body>, a: int, b: int, margin: i64) -> Seq<Collision> {
    if s[a].is_static && s[b].is_static {
        Seq::empty()
    } else {
        contacts_spec(s[a], s[b], margin).map_values(|c: CollisionInfo| Collision { info: c, body1: a as usize, body2: b as usize })
    }
}

/// Contacts of body `a` with the bodies `a + 1 .. k`, in order.
pub open spec fn row_contacts(s: Seq<Body>, a: int, k: int, margin: i64) -> Seq<Collision>
    decreases k - a,
{
    if k <= a + 1 { Seq::empty() } else { row_contacts(s, a, k - 1, margin) + pair_contacts(s, a, k - 1, margin) }
}

/// Contacts of every pair `(a, b)` with `a < m` and `a < b`, ordered by `a`, then `b`.
pub open spec fn all_contacts(s: Seq<Body>, m: int, margin: i64) -> Seq<Collision>
    decreases m,
{
    if m <= 0 { Seq::empty() } else { all_contacts(s, m - 1, margin) + row_contacts(s, m - 1, s.len() as int, margin) }
}

/// Every contact names two distinct bodies of the world, the lower index first.
pub open spec fn indices_ok(cs: Seq<Collision>, n: int) -> bool {
    forall|k: int| 0 <= k < cs.len() ==> #[trigger] cs[k].body1 < cs[k].body2 && cs[k].body2 < n
}

pub open spec fn all_wf(s: Seq<Body>) -> bool {
    forall|i: int| 0 <= i < s.len() ==> #[trigger] s[i].wf()
}

/// The resolved contact sweeps: `n` sweeps of the solver over the contacts.
pub open spec fn resolve_rounds(s: Seq<Body>, cs: Seq<Collision>, n: int, cfg: Config) -> Seq<Body>
    decreases n,
{
    if n <= 0 { s } else { resolve_all(resolve_rounds(s, cs, n - 1, cfg), cs, cs.len() as int, cfg) }
}

/// Finds the contacts of a world and resolves them; it keeps the contacts of the
/// last step.
pub struct CollisionHandler {
    pub collisions: Vec<Collision>,
    pub config: Config,
}

impl CollisionHandler {
    pub fn new() -> (r: CollisionHandler)
        ensures
            r.collisions@.len() == 0,
            r.config == standard_config(),
    {
        CollisionHandler { collisions: Vec::new(), config: Config::standard() }
    }

    pub fn with_config(config: Config) -> (r: CollisionHandler)
        ensures
            r.collisions@.len() == 0,
            r.config == config,
    {
        CollisionHandler { collisions: Vec::new(), config }
    }

    /// Detects the contacts of the bodies, then resolves them in
    /// `config.solver_iterations` sweeps.
    pub fn timestep(&mut self, bodies: &mut Vec<Body>)
        requires
            all_wf(old(bodies)@),
            old(self).config.wf(),
        ensures
            final(self).config == old(self).config,
            final(self).collisions@ == all_contacts(old(bodies)@, old(bodies)@.len() as int, old(self).config.collision_margin),
            indices_ok(final(self).collisions@, old(bodies)@.len() as int),
            final(bodies)@.len() == old(bodies)@.len(),
            final(bodies)@ == resolve_rounds(
                old(bodies)@,
                final(self).collisions@,
                old(self).config.solver_iterations as int,
                old(self).config,
            ),
    {
        self.find_collisions(bodies);
        let iterations = self.config.solver_iterations;
        let mut k: usize = 0;
        while k < iterations
            invariant
                k <= iterations == self.config.solver_iterations,
                self.config == old(self).config,
                bodies@.len() == old(bodies)@.len(),
                indices_ok(self.collisions@, old(bodies)@.len() as int),
                self.collisions@ == all_contacts(old(bodies)@, old(bodies)@.len() as int, self.config.collision_margin),
                bodies@ == resolve_rounds(old(bodies)@, self.collisions@, k as int, self.config),
            decreases iterations - k,
        {
            self.resolve_collisions(bodies);
            k = k + 1;
        }
    }

    /// One sweep of the solver over the contacts, in order.
    pub fn resolve_collisions(&self, bodies: &mut Vec<Body>)
        requires
            indices_ok(self.collisions@, old(bodies)@.len() as int),
        ensures
            final(bodies)@.len() == old(bodies)@.len(),
            final(bodies)@ == resolve_all(old(bodies)@, self.collisions@, self.collisions@.len() as int, self.config),
    {
        let mut i: usize = 0;
        while i < self.collisions.len()
            invariant
                i <= self.collisions@.len(),
                bodies@.len() == old(bodies)@.len(),
                indices_ok(self.collisions@, old(bodies)@.len() as int),
                bodies@ == resolve_all(old(bodies)@, self.collisions@, i as int, self.config),
            decreases self.collisions@.len() - i,
        {
            let collision = self.collisions[i];
            assert(self.collisions@[i as int].body1 < self.collisions@[i as int].body2);
            assert(self.collisions@[i as int].body2 < bodies@.len());
            resolve_pair(bodies, collision, self.config);
            i = i + 1;
        }
    }

    /// Finds the contacts of every pair of bodies that are not both static.
    #[verifier::rlimit(40)]
    pub fn find_collisions(&mut self, bodies: &Vec<Body>)
        requires
            all_wf(bodies@),
            old(self).config.wf(),
        ensures
            final(self).config == old(self).config,
            final(self).collisions@ == all_contacts(bodies@, bodies@.len() as int, old(self).config.collision_margin),
            indices_ok(final(self).collisions@, bodies@.len() as int),
    {
        let n = bodies.len();
        let margin = self.config.collision_margin;
        let mut collisions: Vec<Collision> = Vec::new();
        let mut a: usize = 0;
        while a < n
            invariant
                n == bodies@.len(),
                a <= n,
                0 <= margin <= crate::fixed::LIMIT,
                all_wf(bodies@),
                collisions@ == all_contacts(bodies@, a as int, margin),
                indices_ok(collisions@, n as int),
            decreases n - a,
        {
            let ghost base = collisions@;
            let mut b: usize = a + 1;
            assert(row_contacts(bodies@, a as int, b as int, margin) == Seq::<Collision>::empty());
            assert(collisions@ =~= base + row_contacts(bodies@, a as int, b as int, margin));
            while b < n
                invariant
                    n == bodies@.len(),
                    a < b <= n,
                    0 <= margin <= crate::fixed::LIMIT,
                    all_wf(bodies@),
                    base == all_contacts(bodies@, a as int, margin),
                    collisions@ == base + row_contacts(bodies@, a as int, b as int, margin),
                    indices_ok(collisions@, n as int),
                decreases n - b,
            {
                let body1 = &bodies[a];
                let body2 = &bodies[b];
                let ghost before = collisions@;
                if !(body1.is_static && body2.is_static) {
                    let infos = find_contacts(body1, body2, margin);
                    let mut k: usize = 0;
                    while k < infos.len()
                        invariant
                            a < b < n,
                            k <= infos@.len(),
                            collisions@ == before + pair_contacts(bodies@, a as int, b as int, margin).subrange(0, k as int),
                            infos@ == contacts_spec(bodies@[a as int], bodies@[b as int], margin),
                            !(bodies@[a as int].is_static && bodies@[b as int].is_static),
                            indices_ok(collisions@, n as int),
                        decreases infos@.len() - k,
                    {
                        collisions.push(Collision { info: infos[k], body1: a, body2: b });
                        assert(collisions@ =~= before + pair_contacts(bodies@, a as int, b as int, margin).subrange(0, k + 1));
                        k = k + 1;
                    }
                    assert(pair_contacts(bodies@, a as int, b as int, margin).subrange(0, k as int) =~= pair_contacts(bodies@, a as int, b as int, margin));
                } else {
                    assert(pair_contacts(bodies@, a as int, b as int, margin) =~= Seq::<Collision>::empty());
                }
                assert(collisions@ =~= base + row_contacts(bodies@, a as int, b + 1, margin));
                b = b + 1;
            }
            assert(collisions@ =~= all_contacts(bodies@, a + 1, margin));
            a = a + 1;
        }
        self.collisions = collisions;
    }
}

/// Resolves the contact `c` between the two bodies it names.
fn resolve_pair(bodies: &mut Vec<Body>, c: Collision, cfg: Config)
    requires
        c.body1 < c.body2 < old(bodies)@.len(),
    ensures
        final(bodies)@ == resolve_one(old(bodies)@, c, cfg),
        final(bodies)@.len() == old(bodies)@.len(),
{
    let ghost before = bodies@;
    let (low, high) = bodies.as_mut_slice().split_at_mut(c.body2);
    resolve_collision(&mut low[c.body1], &mut high[0], c.info, cfg);
    assert(bodies@ =~= resolve_one(before, c, cfg));
}

/// Resolves one contact between two bodies by the sequential-impulse method.
pub fn resolve_collision(body1: &mut Body, body2: &mut Body, collision: CollisionInfo, cfg: Config)
    ensures
        (*final(body1), *final(body2)) == resolved(*old(body1), *old(body2), collision, cfg),
{
    reveal(resolved);
    let r1 = collision.pos.minus(body1.pos);
    let r2 = collision.pos.minus(body2.pos);
    let normal = collision.normal;
    let excess = fsub(collision.depth, cfg.slop);
    let bias = fmul(if excess > 0 { excess } else { 0 }, cfg.baumgarte);
    let speed_normal = fadd(
        normal.dot(body2.vel_at(r2).minus(body1.vel_at(r1))),
        bias,
    );
    let k_normal = contact_mass(body1, body2, collision, r1, r2, normal);
    let mut p_normal: i64 = 0;
    if speed_normal > 0 {
        p_normal = fdiv(speed_normal, k_normal);
        let p = normal.times(p_normal);
        body1.apply_impulse_at(p, r1);
        body2.apply_impulse_at(p.neg(), r2);
    }
    let tangent = normal.orth();
    let speed_tangent = tangent.dot(body2.vel_at(r2).minus(body1.vel_at(r1)));
    let k_tangent = contact_mass(body1, body2, collision, r1, r2, tangent);
    let max_p_tangent = fmul(cfg.friction, p_normal);
    let p_tangent = clamp(fsub(0, max_p_tangent), fdiv(speed_tangent, k_tangent), max_p_tangent);
    let p = tangent.times(p_tangent);
    body1.apply_impulse_at(p, r1);
    body2.apply_impulse_at(p.neg(), r2);
}

fn contact_mass(body1: &Body, body2: &Body, c: CollisionInfo, r1: Point, r2: Point, dir: Point) -> (r: i64)
    requires
        r1 == c.pos.minus_spec(body1.pos),
        r2 == c.pos.minus_spec(body2.pos),
    ensures
        r == effective_mass(*body1, *body2, c, dir),
{
    let a1 = r1.dot(dir);
    let a2 = r2.dot(dir);
    let t1 = fmul(fsub(r1.dot(r1), fmul(a1, a1)), body1.inv_inertia());
    let t2 = fmul(fsub(r2.dot(r2), fmul(a2, a2)), body2.inv_inertia());
    fadd(fadd(fadd(body1.inv_mass(), body2.inv_mass()), t1), t2)
}

/// Resolving a contact changes only the velocities of the two bodies, and leaves a
/// static body exactly as it was.
pub proof fn lemma_resolved_keeps_poses(b1: Body, b2: Body, c: CollisionInfo, cfg: Config)
    ensures
        ({
            let (a1, a2) = resolved(b1, b2, c, cfg);
            &&& a1 == Body { vel: a1.vel, avel: a1.avel, ..b1 }
            &&& a2 == Body { vel: a2.vel, avel: a2.avel, ..b2 }
            &&& b1.is_static ==> a1 == b1
            &&& b2.is_static ==> a2 == b2
        }),
{
    reveal(resolved);
}

/// Resolving contacts in order changes only velocities, and no static body at all.
pub proof fn lemma_resolve_all_keeps_poses(s: Seq<Body>, cs: Seq<Collision>, k: int, cfg: Config)
    requires
        0 <= k <= cs.len(),
        indices_ok(cs, s.len() as int),
    ensures
        resolve_all(s, cs, k, cfg).len() == s.len(),
        forall|i: int| 0 <= i < s.len() ==> {
            let r = #[trigger] resolve_all(s, cs, k, cfg)[i];
            &&& r == Body { vel: r.vel, avel: r.avel, ..s[i] }
            &&& s[i].is_static ==> r == s[i]
        },
    decreases k,
{
    if k > 0 {
        lemma_resolve_all_keeps_poses(s, cs, k - 1, cfg);
        let prev = resolve_all(s, cs, k - 1, cfg);
        let c = cs[k - 1];
        assert(c.body1 < c.body2 < s.len());
        lemma_resolved_keeps_poses(prev[c.body1 as int], prev[c.body2 as int], c.info, cfg);
        assert forall|i: int| 0 <= i < s.len() implies {
            let r = #[trigger] resolve_all(s, cs, k, cfg)[i];
            &&& r == Body { vel: r.vel, avel: r.avel, ..s[i] }
            &&& s[i].is_static ==> r == s[i]
        } by {
            assert(prev[i] == Body { vel: prev[i].vel, avel: prev[i].avel, ..s[i] });
        }
    }
}

/// Any number of solver sweeps changes only velocities, and no static body at all.
pub proof fn lemma_resolve_rounds_keeps_poses(s: Seq<Body>, cs: Seq<Collision>, n: int, cfg: Config)
    requires
        indices_ok(cs, s.len() as int),
    ensures
        resolve_rounds(s, cs, n, cfg).len() == s.len(),
        forall|i: int| 0 <= i < s.len() ==> {
            let r = #[trigger] resolve_rounds(s, cs, n, cfg)[i];
            &&& r == Body { vel: r.vel, avel: r.avel, ..s[i] }
            &&& s[i].is_static ==> r == s[i]
        },
    decreases n,
{
    if n > 0 {
        lemma_resolve_rounds_keeps_poses(s, cs, n - 1, cfg);
        let prev = resolve_rounds(s, cs, n - 1, cfg);
        lemma_resolve_all_keeps_poses(prev, cs, cs.len() as int, cfg);
        assert forall|i: int| 0 <= i < s.len() implies {
            let r = #[trigger] resolve_rounds(s, cs, n, cfg)[i];
            &&& r == Body { vel: r.vel, avel: r.avel, ..s[i] }
            &&& s[i].is_static ==> r == s[i]
        } by {
            assert(prev[i] == Body { vel: prev[i].vel, avel: prev[i].avel, ..s[i] });
            assert(resolve_rounds(s, cs, n, cfg)[i] == resolve_all(prev, cs, cs.len() as int, cfg)[i]);
        }
    }
}

/// Two still bodies stay as they are at a contact no deeper than the slop.
pub proof fn lemma_resolved_at_rest(b1: Body, b2: Body, c: CollisionInfo, cfg: Config)
    requires
        at_rest(b1),
        at_rest(b2),
        c.depth <= cfg.slop,
    ensures
        resolved(b1, b2, c, cfg) == (b1, b2),
{
    reveal(resolved);
    let r1 = c.pos.minus_spec(b1.pos);
    let r2 = c.pos.minus_spec(b2.pos);
    lemma_zero_impulse(b1, r1);
    lemma_zero_impulse(b2, r2);
    assert(zero().minus_spec(zero()) == zero());
    lemma_zero_arith(c.normal.x as int);
    lemma_zero_arith(c.normal.y as int);
    let t = c.normal.orth_spec();
    lemma_zero_arith(t.x as int);
    lemma_zero_arith(t.y as int);
    assert(approach_speed(b1, b2, c, c.normal) == 0);
    assert(approach_speed(b1, b2, c, t) == 0);
    lemma_zero_arith(cfg.baumgarte as int);
    assert(bias(c, cfg) == 0);
    lemma_zero_arith(cfg.friction as int);
    lemma_zero_arith(effective_mass(b1, b2, c, t));
    assert(t.times_spec(0) == zero());
}

/// Still bodies stay as they are when every contact is no deeper than the slop.
pub proof fn lemma_resolve_all_at_rest(s: Seq<Body>, cs: Seq<Collision>, k: int, cfg: Config)
    requires
        0 <= k <= cs.len(),
        indices_ok(cs, s.len() as int),
        forall|i: int| 0 <= i < s.len() ==> at_rest(#[trigger] s[i]),
        forall|j: int| 0 <= j < cs.len() ==> (#[trigger] cs[j]).info.depth <= cfg.slop,
    ensures
        resolve_all(s, cs, k, cfg) == s,
    decreases k,
{
    if k > 0 {
        lemma_resolve_all_at_rest(s, cs, k - 1, cfg);
        let c = cs[k - 1];
        assert(c.body1 < c.body2 < s.len());
        lemma_resolved_at_rest(s[c.body1 as int], s[c.body2 as int], c.info, cfg);
        assert(resolve_one(s, c, cfg) =~= s);
    }
}

/// Any number of sweeps leaves still bodies as they are when every contact is no
/// deeper than the slop.
pub proof fn lemma_resolve_rounds_at_rest(s: Seq<Body>, cs: Seq<Collision>, n: int, cfg: Config)
    requires
        indices_ok(cs, s.len() as int),
        forall|i: int| 0 <= i < s.len() ==> at_rest(#[trigger] s[i]),
        forall|j: int| 0 <= j < cs.len() ==> (#[trigger] cs[j]).info.depth <= cfg.slop,
    ensures
        resolve_rounds(s, cs, n, cfg) == s,
    decreases n,
{
    if n > 0 {
        lemma_resolve_rounds_at_rest(s, cs, n - 1, cfg);
        lemma_resolve_all_at_rest(s, cs, cs.len() as int, cfg);
    }
}

} // verus!
