//! Convex polygons: their geometry in world space and about their centroid.
use vstd::prelude::*;
use crate::fixed::{abs, div_count, fadd, fdiv, fmul, prod_fx, quot_fx, rdiv, share_fx, sum_fx, LIMIT, SCALE};
use vstd::arithmetic::div_mod::{lemma_fundamental_div_mod, lemma_fundamental_div_mod_converse};
use crate::point::{lemma_rdiv_error, Point};

verus! {

/// Sum of the x coordinates, saturating at each addition.
pub open spec fn sum_x(s: Seq<Point>) -> int
    decreases s.len(),
{
    if s.len() == 0 { 0 } else { sum_fx(sum_x(s.drop_last()), s.last().x as int) }
}

/// Sum of the y coordinates, saturating at each addition.
pub open spec fn sum_y(s: Seq<Point>) -> int
    decreases s.len(),
{
    if s.len() == 0 { 0 } else { sum_fx(sum_y(s.drop_last()), s.last().y as int) }
}

/// The centroid of a vertex list: the mean of its vertices.
pub open spec fn centroid(s: Seq<Point>) -> Point {
    Point { x: share_fx(sum_x(s), s.len() as int) as i64, y: share_fx(sum_y(s), s.len() as int) as i64 }
}

/// Smallest projection of the points onto `n`.
pub open spec fn proj_min(s: Seq<Point>, n: Point) -> int
    decreases s.len(),
{
    if s.len() <= 1 {
        s[0].dot_spec(n)
    } else {
        let m = proj_min(s.drop_last(), n);
        let d = s.last().dot_spec(n);
        if d < m { d } else { m }
    }
}

/// Largest projection of the points onto `n`.
pub open spec fn proj_max(s: Seq<Point>, n: Point) -> int
    decreases s.len(),
{
    if s.len() <= 1 {
        s[0].dot_spec(n)
    } else {
        let m = proj_max(s.drop_last(), n);
        let d = s.last().dot_spec(n);
        if d > m { d } else { m }
    }
}

/// The vertex after `i`, wrapping round to the first.
pub open spec fn next_index(n: int, i: int) -> int {
    if i + 1 == n { 0 } else { i + 1 }
}

/// Unit normal of edge `i`, from vertex `i` to the next: `orth(normalize(v[i] - v[i+1]))`.
pub open spec fn edge_normal(s: Seq<Point>, i: int) -> Point {
    s[i].minus_spec(s[next_index(s.len() as int, i)]).normalized_spec().orth_spec()
}

/// World vertices of the offsets turned by `a` and moved to `pos`.
pub open spec fn posed(offsets: Seq<Point>, pos: Point, a: int) -> Seq<Point> {
    Seq::new(offsets.len(), |i: int| offsets[i].rotated_spec(a).plus_spec(pos))
}

/// Doubled area of the triangle of the centroid and edge `i`.
pub open spec fn edge_weight(o: Seq<Point>, i: int) -> int {
    let a = o[i];
    let b = o[next_index(o.len() as int, i)];
    abs(a.orth_spec().dot_spec(b))
}

/// Second moment of the triangle of the centroid and edge `i`, up to the common factor.
pub open spec fn edge_moment(o: Seq<Point>, i: int) -> int {
    let a = o[i];
    let b = o[next_index(o.len() as int, i)];
    prod_fx(edge_weight(o, i), sum_fx(sum_fx(a.dot_spec(a), a.dot_spec(b)), b.dot_spec(b)))
}

/// Sum of the edge weights of the first `k` edges, saturating.
pub open spec fn weight_sum(o: Seq<Point>, k: int) -> int
    decreases k,
{
    if k <= 0 { 0 } else { sum_fx(weight_sum(o, k - 1), edge_weight(o, k - 1)) }
}

/// Sum of the edge moments of the first `k` edges, saturating.
pub open spec fn moment_sum(o: Seq<Point>, k: int) -> int
    decreases k,
{
    if k <= 0 { 0 } else { sum_fx(moment_sum(o, k - 1), edge_moment(o, k - 1)) }
}

/// Moment of inertia of a uniform polygon of unit mass about its centroid,
/// from the offsets of its vertices.
pub open spec fn unit_moment(o: Seq<Point>) -> int {
    let n = o.len() as int;
    quot_fx(moment_sum(o, n), prod_fx(6 * SCALE, weight_sum(o, n)))
}

/// A convex polygon. `offsets` are the vertices relative to the centroid and are
/// the canonical geometry; `vertices` are their world positions at the last pose.
#[derive(Debug)]
pub struct Polygon {
    pub pos: Point,
    pub vertices: Vec<Point>,
    pub offsets: Vec<Point>,
}

impl Polygon {
    pub open spec fn wf(&self) -> bool {
        &&& self.vertices@.len() >= 3
        &&& self.offsets@.len() == self.vertices@.len()
    }

    pub fn new(vertices: Vec<Point>) -> (r: Polygon)
        requires
            vertices@.len() >= 3,
        ensures
            r.wf(),
            r.vertices@ == vertices@,
            r.pos == centroid(vertices@),
            forall|i: int| 0 <= i < vertices@.len() ==> #[trigger] r.offsets@[i] == vertices@[i].minus_spec(r.pos),
    {
        let pos = Polygon::get_center_of_mass(&vertices);
        let mut offsets: Vec<Point> = Vec::new();
        let mut i: usize = 0;
        while i < vertices.len()
            invariant
                i <= vertices@.len(),
                offsets@.len() == i,
                forall|j: int| 0 <= j < i ==> #[trigger] offsets@[j] == vertices@[j].minus_spec(pos),
            decreases vertices@.len() - i,
        {
            offsets.push(vertices[i].minus(pos));
            i = i + 1;
        }
        Polygon { pos, vertices, offsets }
    }

    fn get_center_of_mass(vertices: &Vec<Point>) -> (r: Point)
        requires
            vertices@.len() > 0,
        ensures
            r == centroid(vertices@),
    {
        let mut sx: i64 = 0;
        let mut sy: i64 = 0;
        let mut i: usize = 0;
        while i < vertices.len()
            invariant
                i <= vertices@.len(),
                sx == sum_x(vertices@.subrange(0, i as int)),
                sy == sum_y(vertices@.subrange(0, i as int)),
            decreases vertices@.len() - i,
        {
            assert(vertices@.subrange(0, i + 1).drop_last() == vertices@.subrange(0, i as int));
            sx = fadd(sx, vertices[i].x);
            sy = fadd(sy, vertices[i].y);
            i = i + 1;
        }
        assert(vertices@.subrange(0, i as int) == vertices@);
        Point { x: div_count(sx, vertices.len()), y: div_count(sy, vertices.len()) }
    }

    /// The interval `[min, max]` of the world vertices projected onto `normal`.
    pub fn project(&self, normal: Point) -> (r: [i64; 2])
        requires
            self.vertices@.len() > 0,
        ensures
            r@[0] == proj_min(self.vertices@, normal),
            r@[1] == proj_max(self.vertices@, normal),
    {
        let mut min = self.vertices[0].dot(normal);
        let mut max = min;
        let mut i: usize = 1;
        assert(self.vertices@.subrange(0, 1).drop_last().len() == 0);
        while i < self.vertices.len()
            invariant
                1 <= i <= self.vertices@.len(),
                min == proj_min(self.vertices@.subrange(0, i as int), normal),
                max == proj_max(self.vertices@.subrange(0, i as int), normal),
            decreases self.vertices@.len() - i,
        {
            assert(self.vertices@.subrange(0, i + 1).drop_last() == self.vertices@.subrange(0, i as int));
            let projected = self.vertices[i].dot(normal);
            if projected < min {
                min = projected;
            }
            if projected > max {
                max = projected;
            }
            i = i + 1;
        }
        assert(self.vertices@.subrange(0, i as int) == self.vertices@);
        [min, max]
    }

    /// The unit normal of each edge, in the order of the vertices.
    pub fn get_normals(&self) -> (r: Vec<Point>)
        ensures
            r@.len() == self.vertices@.len(),
            forall|i: int| 0 <= i < r@.len() ==> #[trigger] r@[i] == edge_normal(self.vertices@, i),
    {
        let n = self.vertices.len();
        let mut normals: Vec<Point> = Vec::new();
        let mut i: usize = 0;
        while i < n
            invariant
                n == self.vertices@.len(),
                i <= n,
                normals@.len() == i,
                forall|j: int| 0 <= j < i ==> #[trigger] normals@[j] == edge_normal(self.vertices@, j),
            decreases n - i,
        {
            let next = if i + 1 == n { 0 } else { i + 1 };
            normals.push(self.vertices[i].minus(self.vertices[next]).normalized().orth());
            i = i + 1;
        }
        normals
    }

    /// `self` is `prev` moved to centroid `pos` and orientation `a`.
    pub open spec fn posed_from(&self, prev: Polygon, pos: Point, a: int) -> bool {
        &&& self.pos == pos
        &&& self.offsets == prev.offsets
        &&& self.vertices@ == posed(prev.offsets@, pos, a)
    }

    /// Moves the polygon to centroid `pos` and orientation `apos`.
    pub fn update_pos(&mut self, pos: Point, apos: i64)
        ensures
            final(self).posed_from(*old(self), pos, apos as int),
            final(self).pos == pos,
            final(self).offsets == old(self).offsets,
            final(self).vertices@ == posed(old(self).offsets@, pos, apos as int),
    {
        self.pos = pos;
        let mut vertices: Vec<Point> = Vec::new();
        let mut i: usize = 0;
        while i < self.offsets.len()
            invariant
                i <= self.offsets@.len(),
                self.offsets == old(self).offsets,
                self.pos == pos,
                vertices@.len() == i,
                forall|j: int| 0 <= j < i ==> #[trigger] vertices@[j] == self.offsets@[j].rotated_spec(apos as int).plus_spec(pos),
            decreases self.offsets@.len() - i,
        {
            vertices.push(self.offsets[i].rotate(apos).plus(pos));
            i = i + 1;
        }
        assert(vertices@ == posed(self.offsets@, pos, apos as int));
        self.vertices = vertices;
    }

    /// Moment of inertia about the centroid of the polygon with unit mass.
    pub fn get_moment_of_inertia(&self) -> (r: i64)
        ensures
            r == unit_moment(self.offsets@),
    {
        let o = &self.offsets;
        let n = o.len();
        let mut inertia: i64 = 0;
        let mut norm_factor: i64 = 0;
        let mut i: usize = 0;
        while i < n
            invariant
                n == o@.len(),
                i <= n,
                inertia == moment_sum(o@, i as int),
                norm_factor == weight_sum(o@, i as int),
            decreases n - i,
        {
            let v1 = o[i];
            let v2 = o[if i + 1 == n { 0 } else { i + 1 }];
            let c = v1.orth().dot(v2);
            let weight = if c < 0 { -c } else { c };
            let spread = fadd(fadd(v1.dot(v1), v1.dot(v2)), v2.dot(v2));
            inertia = fadd(inertia, fmul(weight, spread));
            norm_factor = fadd(norm_factor, weight);
            i = i + 1;
        }
        fdiv(inertia, fmul(6 * SCALE, norm_factor))
    }
}

/// Posing a polygon at angle θ and then at angle θ + (−θ), about the same centre,
/// gives back exactly the world vertices it had when posed at angle zero.
pub proof fn lemma_pose_round_trip(p0: Polygon, p1: Polygon, p2: Polygon, p3: Polygon, pos: Point, theta: int)
    requires
        p1.posed_from(p0, pos, 0),
        p2.posed_from(p1, pos, theta),
        p3.posed_from(p2, pos, theta + (-theta)),
    ensures
        p3.vertices@ == p1.vertices@,
        p3.offsets == p1.offsets,
{
}

/// Exact sum of the x coordinates.
pub open spec fn exact_sum_x(s: Seq<Point>) -> int
    decreases s.len(),
{
    if s.len() == 0 { 0 } else { exact_sum_x(s.drop_last()) + s.last().x }
}

/// Exact sum of the y coordinates.
pub open spec fn exact_sum_y(s: Seq<Point>) -> int
    decreases s.len(),
{
    if s.len() == 0 { 0 } else { exact_sum_y(s.drop_last()) + s.last().y }
}

/// No running sum of the coordinates leaves the saturation bounds.
pub open spec fn sums_in_range(s: Seq<Point>) -> bool {
    forall|k: int| 0 <= k <= s.len() ==> {
        &&& -LIMIT <= #[trigger] exact_sum_x(s.subrange(0, k)) <= LIMIT
        &&& -LIMIT <= exact_sum_y(s.subrange(0, k)) <= LIMIT
    }
}

proof fn lemma_sums_exact(s: Seq<Point>, k: int)
    requires
        0 <= k <= s.len(),
        sums_in_range(s),
    ensures
        sum_x(s.subrange(0, k)) == exact_sum_x(s.subrange(0, k)),
        sum_y(s.subrange(0, k)) == exact_sum_y(s.subrange(0, k)),
    decreases k,
{
    if k > 0 {
        lemma_sums_exact(s, k - 1);
        assert(s.subrange(0, k).drop_last() == s.subrange(0, k - 1));
        assert(-LIMIT <= exact_sum_x(s.subrange(0, k)) <= LIMIT);
    }
}

/// Sum of the offsets of the first `k` vertices, exactly, when no offset saturates.
proof fn lemma_offset_sums(v: Seq<Point>, o: Seq<Point>, c: Point, k: int)
    requires
        0 <= k <= v.len(),
        o.len() == v.len(),
        forall|i: int| 0 <= i < v.len() ==> #[trigger] o[i] == v[i].minus_spec(c),
        forall|i: int| 0 <= i < v.len() ==> -LIMIT <= (#[trigger] v[i]).x - c.x <= LIMIT && -LIMIT <= v[i].y - c.y <= LIMIT,
    ensures
        exact_sum_x(o.subrange(0, k)) == exact_sum_x(v.subrange(0, k)) - k * c.x,
        exact_sum_y(o.subrange(0, k)) == exact_sum_y(v.subrange(0, k)) - k * c.y,
    decreases k,
{
    if k > 0 {
        lemma_offset_sums(v, o, c, k - 1);
        assert(o.subrange(0, k).drop_last() == o.subrange(0, k - 1));
        assert(v.subrange(0, k).drop_last() == v.subrange(0, k - 1));
        assert(o[k - 1] == v[k - 1].minus_spec(c));
        assert(k * c.x == (k - 1) * c.x + c.x) by (nonlinear_arith);
        assert(k * c.y == (k - 1) * c.y + c.y) by (nonlinear_arith);
    }
}

/// Rounded division is exact on a multiple of the divisor.
pub proof fn lemma_rdiv_exact(q: int, n: int)
    requires
        n > 0,
    ensures
        rdiv(q * n, n) == q,
{
    let m = q * n;
    if m >= 0 {
        assert(q >= 0) by (nonlinear_arith)
            requires
                m == q * n,
                m >= 0,
                n > 0,
        ;
        lemma_fundamental_div_mod_converse(m + n / 2, n, q, n / 2);
    } else {
        assert(q < 0) by (nonlinear_arith)
            requires
                m == q * n,
                m < 0,
                n > 0,
        ;
        assert(-m == (-q) * n) by (nonlinear_arith)
            requires
                m == q * n,
        ;
        lemma_fundamental_div_mod_converse(-m + n / 2, n, -q, n / 2);
    }
}

/// The offsets of a polygon about its centroid sum to zero, for vertex lists whose
/// coordinate sums are multiples of the vertex count (otherwise the centroid itself
/// is rounded) and whose sums and offsets stay within the saturation bounds.
pub proof fn lemma_offsets_sum_to_zero(vertices: Seq<Point>, p: Polygon)
    requires
        vertices.len() >= 3,
        p.pos == centroid(vertices),
        p.offsets@.len() == vertices.len(),
        forall|i: int| 0 <= i < vertices.len() ==> #[trigger] p.offsets@[i] == vertices[i].minus_spec(p.pos),
        sums_in_range(vertices),
        exact_sum_x(vertices) % (vertices.len() as int) == 0,
        exact_sum_y(vertices) % (vertices.len() as int) == 0,
        forall|i: int| 0 <= i < vertices.len() ==> -LIMIT <= (#[trigger] vertices[i]).x - p.pos.x <= LIMIT
            && -LIMIT <= vertices[i].y - p.pos.y <= LIMIT,
    ensures
        exact_sum_x(p.offsets@) == 0,
        exact_sum_y(p.offsets@) == 0,
{
    let n = vertices.len() as int;
    assert(vertices.subrange(0, n) == vertices);
    assert(p.offsets@.subrange(0, n) == p.offsets@);
    lemma_sums_exact(vertices, n);
    let sx = exact_sum_x(vertices);
    let sy = exact_sum_y(vertices);
    lemma_fundamental_div_mod(sx, n);
    lemma_fundamental_div_mod(sy, n);
    assert(sx == (sx / n) * n) by (nonlinear_arith)
        requires
            sx == n * (sx / n) + sx % n,
            sx % n == 0,
    ;
    assert(sy == (sy / n) * n) by (nonlinear_arith)
        requires
            sy == n * (sy / n) + sy % n,
            sy % n == 0,
    ;
    lemma_rdiv_exact(sx / n, n);
    lemma_rdiv_exact(sy / n, n);
    assert(-LIMIT <= sx <= LIMIT);
    assert(-LIMIT <= sx / n <= LIMIT) by (nonlinear_arith)
        requires
            sx == (sx / n) * n,
            -LIMIT <= sx <= LIMIT,
            n >= 3,
    ;
    assert(-LIMIT <= sy / n <= LIMIT) by (nonlinear_arith)
        requires
            sy == (sy / n) * n,
            -LIMIT <= sy <= LIMIT,
            n >= 3,
    ;
    assert(p.pos.x == sx / n);
    assert(p.pos.y == sy / n);
    lemma_offset_sums(vertices, p.offsets@, p.pos, n);
    assert(n * p.pos.x == sx) by (nonlinear_arith)
        requires
            sx == (sx / n) * n,
            p.pos.x == sx / n,
    ;
    assert(n * p.pos.y == sy) by (nonlinear_arith)
        requires
            sy == (sy / n) * n,
            p.pos.y == sy / n,
    ;
}

/// The offsets of a polygon about its centroid sum to zero up to the rounding of
/// the centroid: twice the size of each coordinate sum is at most the vertex count,
/// for vertex lists whose sums and offsets stay within the saturation bounds.
pub proof fn lemma_offsets_sum_nearly_zero(vertices: Seq<Point>, p: Polygon)
    requires
        vertices.len() >= 3,
        p.pos == centroid(vertices),
        p.offsets@.len() == vertices.len(),
        forall|i: int| 0 <= i < vertices.len() ==> #[trigger] p.offsets@[i] == vertices[i].minus_spec(p.pos),
        sums_in_range(vertices),
        forall|i: int| 0 <= i < vertices.len() ==> -LIMIT <= (#[trigger] vertices[i]).x - p.pos.x <= LIMIT
            && -LIMIT <= vertices[i].y - p.pos.y <= LIMIT,
    ensures
        2 * abs(exact_sum_x(p.offsets@)) <= vertices.len(),
        2 * abs(exact_sum_y(p.offsets@)) <= vertices.len(),
{
    let n = vertices.len() as int;
    assert(vertices.subrange(0, n) == vertices);
    assert(p.offsets@.subrange(0, n) == p.offsets@);
    lemma_sums_exact(vertices, n);
    let sx = exact_sum_x(vertices);
    let sy = exact_sum_y(vertices);
    assert(-LIMIT <= sx <= LIMIT && -LIMIT <= sy <= LIMIT);
    lemma_rdiv_error(sx, n);
    lemma_rdiv_error(sy, n);
    let qx = rdiv(sx, n);
    let qy = rdiv(sy, n);
    assert(-LIMIT <= qx <= LIMIT) by (nonlinear_arith)
        requires
            abs(2 * n * qx - 2 * sx) <= n,
            -LIMIT <= sx <= LIMIT,
            n >= 3,
    ;
    assert(-LIMIT <= qy <= LIMIT) by (nonlinear_arith)
        requires
            abs(2 * n * qy - 2 * sy) <= n,
            -LIMIT <= sy <= LIMIT,
            n >= 3,
    ;
    assert(p.pos.x == qx && p.pos.y == qy);
    lemma_offset_sums(vertices, p.offsets@, p.pos, n);
    assert(2 * n * qx == 2 * (n * qx)) by (nonlinear_arith);
    assert(2 * n * qy == 2 * (n * qy)) by (nonlinear_arith);
}

} // verus!
