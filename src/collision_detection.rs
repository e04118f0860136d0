//! Narrow-phase contact detection between two bodies, by the separating axis theorem.
use vstd::prelude::*;
use crate::body::Body;
use crate::collisions::CollisionInfo;
use crate::fixed::{abs, diff_fx, fsub, prod_fx, rdiv, LIMIT, SCALE};
use crate::point::{lemma_normalized_length, root, Point};
use crate::polygon::{edge_normal, next_index, proj_max, proj_min, Polygon};
use crate::shape::Shape;

verus! {

/// Two distances closer than this count as equal when features are classified,
/// so that resting boxes touch along an edge rather than at a corner.
pub const COLLISION_MARGIN: i64 = 100_000;

/// Overlap of two projection intervals; negative when they are apart.
pub open spec fn depth_spec(a: [i64; 2], b: [i64; 2]) -> int {
    let u = diff_fx(a@[1] as int, b@[0] as int);
    let v = diff_fx(b@[1] as int, a@[0] as int);
    if u < v { u } else { v }
}

/// Overlap of the two polygons along `n`.
pub open spec fn axis_depth(p1: Polygon, p2: Polygon, n: Point) -> int {
    let u = diff_fx(proj_max(p1.vertices@, n), proj_min(p2.vertices@, n));
    let v = diff_fx(proj_max(p2.vertices@, n), proj_min(p1.vertices@, n));
    if u < v { u } else { v }
}

/// The candidate axes: the edge normals of the first polygon, then of the second.
pub open spec fn sat_axes(p1: Polygon, p2: Polygon) -> Seq<Point> {
    Seq::new(p1.vertices@.len(), |i: int| edge_normal(p1.vertices@, i))
        + Seq::new(p2.vertices@.len(), |i: int| edge_normal(p2.vertices@, i))
}

/// `n` turned, if need be, so that it points from the second centroid toward the first.
pub open spec fn oriented(p1: Polygon, p2: Polygon, n: Point) -> Point {
    if p1.pos.minus_spec(p2.pos).dot_spec(n) < 0 { n.neg_spec() } else { n }
}

/// Some axis among the first `k` separates the polygons.
pub open spec fn separated_upto(p1: Polygon, p2: Polygon, axes: Seq<Point>, k: int) -> bool {
    exists|i: int| 0 <= i < k && #[trigger] axis_depth(p1, p2, axes[i]) < 0
}

/// The least overlap among the first `k` axes, the earliest on ties, with its oriented axis.
pub open spec fn least_overlap(p1: Polygon, p2: Polygon, axes: Seq<Point>, k: int) -> Option<(int, Point)>
    decreases k,
{
    if k <= 0 {
        None
    } else {
        let prev = least_overlap(p1, p2, axes, k - 1);
        let d = axis_depth(p1, p2, axes[k - 1]);
        match prev {
            Some((m, _)) if !(d < m) => prev,
            _ => Some((d, oriented(p1, p2, axes[k - 1]))),
        }
    }
}

/// Distance along `n` from a vertex to the projection `c` of the other centroid.
pub open spec fn feature_distance(v: Point, n: Point, c: int) -> int {
    abs(diff_fx(v.dot_spec(n), c))
}

/// One step of the scan for the closest vertex and an almost as close one.
pub open spec fn closest_step(
    state: (Option<(Point, int)>, Option<(Point, int)>),
    v: Point,
    d: int,
    margin: i64,
) -> (Option<(Point, int)>, Option<(Point, int)>) {
    let (closest, second) = state;
    match closest {
        None => (Some((v, d)), second),
        Some((_, cd)) => {
            if d + margin < cd {
                (Some((v, d)), None)
            } else if d < cd {
                (Some((v, d)), closest)
            } else if d < cd + margin {
                (closest, Some((v, d)))
            } else {
                state
            }
        },
    }
}

/// The scan over the first `k` vertices of `vs`.
pub open spec fn closest_scan(vs: Seq<Point>, n: Point, c: int, k: int, margin: i64) -> (Option<(Point, int)>, Option<(Point, int)>)
    decreases k,
{
    if k <= 0 {
        (None, None)
    } else {
        closest_step(closest_scan(vs, n, c, k - 1, margin), vs[k - 1], feature_distance(vs[k - 1], n, c), margin)
    }
}

/// What the scan over the first `k` vertices guarantees: the closest slot holds a
/// nearest vertex so far (at index `j`); the second slot, if filled, a vertex within
/// the margin of it; if empty, every other vertex is at least the margin farther.
pub open spec fn scan_holds(vs: Seq<Point>, n: Point, c: int, k: int, margin: i64, j: int) -> bool {
    let (closest, second) = closest_scan(vs, n, c, k, margin);
    &&& closest is Some
    &&& 0 <= j < k
    &&& closest.unwrap().0 == vs[j]
    &&& closest.unwrap().1 == feature_distance(vs[j], n, c)
    &&& forall|i: int| 0 <= i < k ==> closest.unwrap().1 <= #[trigger] feature_distance(vs[i], n, c)
    &&& second matches Some(s) ==> exists|i: int| 0 <= i < k && s.0 == vs[i] && s.1 == feature_distance(vs[i], n, c)
        && s.1 <= closest.unwrap().1 + margin
    &&& second is None ==> forall|i: int| 0 <= i < k && i != j ==> closest.unwrap().1 + margin <= #[trigger] feature_distance(vs[i], n, c)
}

proof fn lemma_closest_scan(vs: Seq<Point>, n: Point, c: int, k: int, margin: i64)
    requires
        1 <= k <= vs.len(),
        margin >= 0,
    ensures
        exists|j: int| #[trigger] scan_holds(vs, n, c, k, margin, j),
    decreases k,
{
    let (nc, ns) = closest_scan(vs, n, c, k, margin);
    let d = feature_distance(vs[k - 1], n, c);
    let last = k - 1;
    if k == 1 {
        assert(scan_holds(vs, n, c, k, margin, 0));
    } else {
        lemma_closest_scan(vs, n, c, k - 1, margin);
        let j0 = choose|j: int| #[trigger] scan_holds(vs, n, c, k - 1, margin, j);
        let (closest, second) = closest_scan(vs, n, c, k - 1, margin);
        let cd = closest.unwrap().1;
        if d + margin < cd {
            assert forall|i: int| 0 <= i < k && i != last implies cd <= #[trigger] feature_distance(vs[i], n, c) by {
                assert(cd <= feature_distance(vs[i], n, c));
            }
            assert(scan_holds(vs, n, c, k, margin, last));
        } else if d < cd {
            assert(0 <= j0 < k && ns.unwrap().0 == vs[j0] && ns.unwrap().1 == feature_distance(vs[j0], n, c)
                && ns.unwrap().1 <= nc.unwrap().1 + margin);
            assert(scan_holds(vs, n, c, k, margin, last));
        } else if d < cd + margin {
            assert(0 <= last < k && ns.unwrap().0 == vs[last] && ns.unwrap().1 == feature_distance(vs[last], n, c)
                && ns.unwrap().1 <= nc.unwrap().1 + margin);
            assert(scan_holds(vs, n, c, k, margin, j0));
        } else {
            if second is Some {
                let j1 = choose|i: int| 0 <= i < k - 1 && second.unwrap().0 == vs[i] && second.unwrap().1 == feature_distance(vs[i], n, c)
                    && second.unwrap().1 <= cd + margin;
                assert(0 <= j1 < k && ns.unwrap().0 == vs[j1] && ns.unwrap().1 == feature_distance(vs[j1], n, c)
                    && ns.unwrap().1 <= nc.unwrap().1 + margin);
            }
            assert(scan_holds(vs, n, c, k, margin, j0));
        }
    }
}

/// The contract of the closest-feature search, over the polygons themselves.
pub open spec fn closest_points_hold(a: Polygon, b: Polygon, n: Point, margin: i64, r: (Point, Option<Point>)) -> bool {
    let vs = a.vertices@;
    let c = b.pos.dot_spec(n);
    &&& exists|j: int| 0 <= j < vs.len() && r.0 == vs[j]
        && forall|i: int| 0 <= i < vs.len() ==> feature_distance(vs[j], n, c) <= #[trigger] feature_distance(vs[i], n, c)
    &&& r.1 matches Some(q) ==> exists|j: int| 0 <= j < vs.len() && q == vs[j]
        && feature_distance(vs[j], n, c) <= feature_distance(r.0, n, c) + margin
    &&& r.1 is None ==> forall|i: int| 0 <= i < vs.len() && vs[i] != r.0
        ==> feature_distance(r.0, n, c) + margin <= #[trigger] feature_distance(vs[i], n, c)
}

/// The vertex of `a` closest along `n` to the centroid of `b`, and a second vertex
/// whose distance is within the margin of it, if there is one.
pub open spec fn closest_points_spec(a: Polygon, b: Polygon, n: Point, margin: i64) -> (Point, Option<Point>) {
    let s = closest_scan(a.vertices@, n, b.pos.dot_spec(n), a.vertices@.len() as int, margin);
    (
        s.0.unwrap().0,
        match s.1 {
            Some((p, _)) => Some(p),
            None => None,
        },
    )
}

/// The part of the line through `p1` along `orth(n)` where two almost parallel
/// edges `p1 q1` and `p2 q2` overlap, as its two end points.
pub open spec fn manifold_spec(p1: Point, q1: Point, p2: Point, q2: Point, n: Point) -> (Point, Point) {
    let line = n.orth_spec();
    let a1 = p1.dot_spec(line);
    let b1 = q1.dot_spec(line);
    let a2 = p2.dot_spec(line);
    let b2 = q2.dot_spec(line);
    let min1 = if a1 < b1 { a1 } else { b1 };
    let min2 = if a2 < b2 { a2 } else { b2 };
    let max1 = if a1 > b1 { a1 } else { b1 };
    let max2 = if a2 > b2 { a2 } else { b2 };
    let start = if min1 > min2 { min1 } else { min2 };
    let end = if max1 < max2 { max1 } else { max2 };
    (
        p1.plus_spec(line.times_spec(diff_fx(start, a1) as i64)),
        p1.plus_spec(line.times_spec(diff_fx(end, a1) as i64)),
    )
}

/// Contact points of two touching polygons along `n`: one point for a vertex
/// against anything, the ends of the shared segment for an edge against an edge.
pub open spec fn collision_pos_spec(p1: Polygon, p2: Polygon, n: Point, margin: i64) -> (Point, Option<Point>) {
    let (c1, s1) = closest_points_spec(p1, p2, n, margin);
    let (c2, s2) = closest_points_spec(p2, p1, n, margin);
    match (s1, s2) {
        (None, None) => (c1.plus_spec(c2).times_spec(crate::fixed::HALF), None),
        (None, Some(_)) => (c1, None),
        (Some(_), None) => (c2, None),
        (Some(q1), Some(q2)) => {
            let (a, b) = manifold_spec(c1, q1, c2, q2, n);
            (a, Some(b))
        },
    }
}

/// The contacts of two polygons: none when an axis separates them; otherwise one or
/// two, all with the least overlap as depth and its axis, oriented, as normal.
pub open spec fn polygon_contacts(p1: Polygon, p2: Polygon, margin: i64) -> Seq<CollisionInfo> {
    let axes = sat_axes(p1, p2);
    if separated_upto(p1, p2, axes, axes.len() as int) {
        Seq::empty()
    } else {
        let (depth, normal) = least_overlap(p1, p2, axes, axes.len() as int).unwrap();
        let (a, b) = collision_pos_spec(p1, p2, normal, margin);
        let first = CollisionInfo { pos: a, depth: depth as i64, normal };
        match b {
            None => seq![first],
            Some(b) => seq![first, CollisionInfo { pos: b, depth: depth as i64, normal }],
        }
    }
}

/// The contacts between two bodies; pairs involving a disc give none.
pub open spec fn contacts_spec(body1: Body, body2: Body, margin: i64) -> Seq<CollisionInfo> {
    match (body1.shape, body2.shape) {
        (Shape::Polygon(p1), Shape::Polygon(p2)) => polygon_contacts(p1, p2, margin),
        _ => Seq::empty(),
    }
}

pub fn find_contacts(body1: &Body, body2: &Body, margin: i64) -> (r: Vec<CollisionInfo>)
    requires
        0 <= margin <= LIMIT,
        body1.wf(),
        body2.wf(),
    ensures
        r@ == contacts_spec(*body1, *body2, margin),
{
    let mut collisions: Vec<CollisionInfo> = Vec::new();
    match (&body1.shape, &body2.shape) {
        (Shape::Polygon(polygon1), Shape::Polygon(polygon2)) => {
            let (first, second) = polygon_polygon(polygon1, polygon2, margin);
            match first {
                Some(c) => collisions.push(c),
                None => {},
            }
            match second {
                Some(c) => collisions.push(c),
                None => {},
            }
            assert(collisions@ =~= polygon_contacts(*polygon1, *polygon2, margin));
        },
        _ => {},
    }
    collisions
}

/// The contacts between two bodies, with the standard `COLLISION_MARGIN`.
pub fn find_collisions(body1: &Body, body2: &Body) -> (r: Vec<CollisionInfo>)
    requires
        body1.wf(),
        body2.wf(),
    ensures
        r@ == contacts_spec(*body1, *body2, COLLISION_MARGIN),
{
    find_contacts(body1, body2, COLLISION_MARGIN)
}

/// The vertex of `polygon1` closest along `normal` to the centroid of `polygon2`,
/// and an almost as close one, with the standard `COLLISION_MARGIN`.
pub fn get_closest_points(polygon1: &Polygon, polygon2: &Polygon, normal: Point) -> (r: (Point, Option<Point>))
    requires
        polygon1.wf(),
    ensures
        r == closest_points_spec(*polygon1, *polygon2, normal, COLLISION_MARGIN),
        closest_points_hold(*polygon1, *polygon2, normal, COLLISION_MARGIN, r),
{
    closest_points_within(polygon1, polygon2, normal, COLLISION_MARGIN)
}

fn polygon_polygon(polygon1: &Polygon, polygon2: &Polygon, margin: i64) -> (r: (Option<CollisionInfo>, Option<CollisionInfo>))
    requires
        0 <= margin <= LIMIT,
        polygon1.wf(),
        polygon2.wf(),
    ensures
        r.0.is_none() ==> r.1.is_none(),
        polygon_contacts(*polygon1, *polygon2, margin) == match r {
            (Some(a), Some(b)) => seq![a, b],
            (Some(a), None) => seq![a],
            _ => Seq::<CollisionInfo>::empty(),
        },
{
    let mut axes = polygon1.get_normals();
    let mut normals2 = polygon2.get_normals();
    axes.append(&mut normals2);
    let ghost all_axes = sat_axes(*polygon1, *polygon2);
    assert(axes@ =~= all_axes);
    let mut min_depth: i64 = 0;
    let mut min_normal: Point = Point { x: 0, y: 0 };
    let mut found = false;
    let mut i: usize = 0;
    while i < axes.len()
        invariant
            axes@ == all_axes,
            all_axes == sat_axes(*polygon1, *polygon2),
            i <= axes@.len(),
            !separated_upto(*polygon1, *polygon2, all_axes, i as int),
            found == (i > 0),
            found ==> least_overlap(*polygon1, *polygon2, all_axes, i as int) == Some((min_depth as int, min_normal)),
            polygon1.wf(),
            polygon2.wf(),
        decreases axes@.len() - i,
    {
        let edge = axes[i];
        let projection1 = polygon1.project(edge);
        let projection2 = polygon2.project(edge);
        let depth = get_depth_from_projections(projection1, projection2);
        assert(depth == axis_depth(*polygon1, *polygon2, all_axes[i as int]));
        if depth < 0 {
            assert(axis_depth(*polygon1, *polygon2, all_axes[i as int]) < 0);
            assert(separated_upto(*polygon1, *polygon2, all_axes, all_axes.len() as int));
            return (None, None);
        }
        if !found || depth < min_depth {
            let corrected = if polygon1.pos.minus(polygon2.pos).dot(edge) < 0 { edge.neg() } else { edge };
            min_depth = depth;
            min_normal = corrected;
            found = true;
        }
        assert(!separated_upto(*polygon1, *polygon2, all_axes, i + 1));
        i = i + 1;
    }
    let (a, b) = get_collision_pos(polygon1, polygon2, min_normal, margin);
    let first = CollisionInfo { pos: a, depth: min_depth, normal: min_normal };
    let second = match b {
        Some(p) => Some(CollisionInfo { pos: p, depth: min_depth, normal: min_normal }),
        None => None,
    };
    (Some(first), second)
}

fn closest_points_within(polygon1: &Polygon, polygon2: &Polygon, normal: Point, margin: i64) -> (r: (Point, Option<Point>))
    requires
        0 <= margin <= LIMIT,
        polygon1.wf(),
    ensures
        r == closest_points_spec(*polygon1, *polygon2, normal, margin),
        closest_points_hold(*polygon1, *polygon2, normal, margin, r),
{
    proof {
        lemma_closest_scan(polygon1.vertices@, normal, polygon2.pos.dot_spec(normal), polygon1.vertices@.len() as int, margin);
    }
    let mut closest: Option<(Point, i64)> = None;
    let mut second_closest: Option<(Point, i64)> = None;
    let comparison = polygon2.pos.dot(normal);
    let mut i: usize = 0;
    while i < polygon1.vertices.len()
        invariant
            i <= polygon1.vertices@.len(),
            0 <= margin <= LIMIT,
            comparison == polygon2.pos.dot_spec(normal),
            closest_scan(polygon1.vertices@, normal, comparison as int, i as int, margin) == (
                match closest {
                    Some((p, d)) => Some((p, d as int)),
                    None => None,
                },
                match second_closest {
                    Some((p, d)) => Some((p, d as int)),
                    None => None,
                },
            ),
            i > 0 ==> closest.is_some(),
            match closest {
                Some((_, d)) => 0 <= d <= LIMIT,
                None => true,
            },
            match second_closest {
                Some((_, d)) => 0 <= d <= LIMIT,
                None => true,
            },
        decreases polygon1.vertices@.len() - i,
    {
        let point = polygon1.vertices[i];
        let gap = fsub(point.dot(normal), comparison);
        let distance = if gap < 0 { -gap } else { gap };
        match closest {
            None => {
                closest = Some((point, distance));
            },
            Some((_, closest_distance)) => {
                if distance + margin < closest_distance {
                    second_closest = None;
                    closest = Some((point, distance));
                } else if distance < closest_distance {
                    second_closest = closest;
                    closest = Some((point, distance));
                } else if distance < closest_distance + margin {
                    second_closest = Some((point, distance));
                }
            },
        }
        i = i + 1;
    }
    let first = match closest {
        Some((p, _)) => p,
        None => polygon1.vertices[0],
    };
    let second = match second_closest {
        Some((p, _)) => Some(p),
        None => None,
    };
    proof {
        let vs = polygon1.vertices@;
        let c = comparison as int;
        assert(vs.len() == i);
        let j = choose|j: int| #[trigger] scan_holds(vs, normal, c, vs.len() as int, margin, j);
        assert(first == vs[j]);
        if second.is_none() {
            assert forall|k: int| 0 <= k < vs.len() && vs[k] != first implies
                feature_distance(first, normal, c) + margin <= #[trigger] feature_distance(vs[k], normal, c) by {
                assert(k != j);
            }
        }
    }
    (first, second)
}

fn get_collision_pos(polygon1: &Polygon, polygon2: &Polygon, normal: Point, margin: i64) -> (r: (Point, Option<Point>))
    requires
        0 <= margin <= LIMIT,
        polygon1.wf(),
        polygon2.wf(),
    ensures
        r == collision_pos_spec(*polygon1, *polygon2, normal, margin),
{
    let (closest1, second_closest_1) = closest_points_within(polygon1, polygon2, normal, margin);
    let (closest2, second_closest_2) = closest_points_within(polygon2, polygon1, normal, margin);
    match second_closest_1 {
        None => match second_closest_2 {
            None => (closest1.plus(closest2).times(crate::fixed::HALF), None),
            Some(_) => (closest1, None),
        },
        Some(second_closest_point_1) => match second_closest_2 {
            None => (closest2, None),
            Some(second_closest_point_2) => {
                let (point1, point2) = find_manifold(
                    closest1,
                    second_closest_point_1,
                    closest2,
                    second_closest_point_2,
                    normal,
                );
                (point1, Some(point2))
            },
        },
    }
}

fn find_manifold(p1: Point, q1: Point, p2: Point, q2: Point, normal: Point) -> (r: (Point, Point))
    ensures
        r == manifold_spec(p1, q1, p2, q2, normal),
{
    let line = normal.orth();
    let p1_projected = p1.dot(line);
    let q1_projected = q1.dot(line);
    let p2_projected = p2.dot(line);
    let q2_projected = q2.dot(line);
    let min1 = if p1_projected < q1_projected { p1_projected } else { q1_projected };
    let min2 = if p2_projected < q2_projected { p2_projected } else { q2_projected };
    let max1 = if p1_projected > q1_projected { p1_projected } else { q1_projected };
    let max2 = if p2_projected > q2_projected { p2_projected } else { q2_projected };
    let start_manifold_projected = if min1 > min2 { min1 } else { min2 };
    let end_manifold_projected = if max1 < max2 { max1 } else { max2 };
    let start_manifold = p1.plus(line.times(fsub(start_manifold_projected, p1_projected)));
    let end_manifold = p1.plus(line.times(fsub(end_manifold_projected, p1_projected)));
    (start_manifold, end_manifold)
}

fn get_depth_from_projections(projection1: [i64; 2], projection2: [i64; 2]) -> (r: i64)
    ensures
        r == depth_spec(projection1, projection2),
{
    let u = fsub(projection1[1], projection2[0]);
    let v = fsub(projection2[1], projection1[0]);
    if u < v {
        u
    } else {
        v
    }
}

/// Both coordinates of `n` lie within the saturation bounds.
pub open spec fn bounded(n: Point) -> bool {
    -LIMIT <= n.x <= LIMIT && -LIMIT <= n.y <= LIMIT
}

proof fn lemma_prod_neg(a: int, b: int)
    ensures
        prod_fx(a, -b) == -prod_fx(a, b),
{
    assert(a * (-b) == -(a * b)) by (nonlinear_arith);
    let m = a * b;
    assert(rdiv(-m, SCALE as int) == -rdiv(m, SCALE as int));
}

/// Projecting onto a reversed axis reverses the projection.
proof fn lemma_dot_neg(d: Point, n: Point)
    requires
        bounded(n),
    ensures
        d.dot_spec(n.neg_spec()) == -d.dot_spec(n),
{
    lemma_prod_neg(d.x as int, n.x as int);
    lemma_prod_neg(d.y as int, n.y as int);
}

/// The oriented axis points from the second centroid toward the first.
proof fn lemma_oriented(p1: Polygon, p2: Polygon, n: Point)
    requires
        bounded(n),
    ensures
        p1.pos.minus_spec(p2.pos).dot_spec(oriented(p1, p2, n)) >= 0,
{
    lemma_dot_neg(p1.pos.minus_spec(p2.pos), n);
}

proof fn lemma_least_overlap(p1: Polygon, p2: Polygon, axes: Seq<Point>, k: int)
    requires
        1 <= k <= axes.len(),
        !separated_upto(p1, p2, axes, k),
        forall|i: int| 0 <= i < axes.len() ==> bounded(#[trigger] axes[i]),
    ensures
        least_overlap(p1, p2, axes, k) is Some,
        0 <= least_overlap(p1, p2, axes, k).unwrap().0 <= LIMIT,
        p1.pos.minus_spec(p2.pos).dot_spec(least_overlap(p1, p2, axes, k).unwrap().1) >= 0,
    decreases k,
{
    let d = axis_depth(p1, p2, axes[k - 1]);
    assert(!(d < 0));
    lemma_oriented(p1, p2, axes[k - 1]);
    if k > 1 {
        assert(!separated_upto(p1, p2, axes, k - 1));
        lemma_least_overlap(p1, p2, axes, k - 1);
    }
}

/// Every contact that detection reports has a non-negative depth, and its normal
/// points from the second polygon's centroid toward the first's: `(c₁ − c₂) · n ≥ 0`.
pub proof fn lemma_contacts_depth_and_orientation(body1: Body, body2: Body, margin: i64)
    requires
        body1.wf(),
        body2.wf(),
    ensures
        forall|k: int| 0 <= k < contacts_spec(body1, body2, margin).len() ==> {
            let c = #[trigger] contacts_spec(body1, body2, margin)[k];
            &&& c.depth >= 0
            &&& match (body1.shape, body2.shape) {
                (Shape::Polygon(p1), Shape::Polygon(p2)) => p1.pos.minus_spec(p2.pos).dot_spec(c.normal) >= 0,
                _ => false,
            }
        },
{
    match (body1.shape, body2.shape) {
        (Shape::Polygon(p1), Shape::Polygon(p2)) => {
            let axes = sat_axes(p1, p2);
            if !separated_upto(p1, p2, axes, axes.len() as int) {
                assert forall|i: int| 0 <= i < axes.len() implies bounded(#[trigger] axes[i]) by {
                    if i < p1.vertices@.len() {
                        assert(axes[i] == edge_normal(p1.vertices@, i));
                    } else {
                        assert(axes[i] == edge_normal(p2.vertices@, i - p1.vertices@.len()));
                    }
                }
                lemma_least_overlap(p1, p2, axes, axes.len() as int);
            }
        },
        _ => {},
    }
}

/// Length of edge `i`, in fixed-point units, rounded down.
pub open spec fn edge_length(s: Seq<Point>, i: int) -> int {
    let e = s[i].minus_spec(s[next_index(s.len() as int, i)]);
    root(e.x * e.x + e.y * e.y)
}

/// Every edge of the vertex list is between one fixed-point unit and `LIMIT` long.
pub open spec fn edges_measurable(s: Seq<Point>) -> bool {
    forall|i: int| 0 <= i < s.len() ==> 1 <= #[trigger] edge_length(s, i) <= LIMIT
}

/// The edge normals, either way round, have unit length up to rounding.
proof fn lemma_edge_normal_unit(s: Seq<Point>, i: int)
    requires
        0 <= i < s.len(),
        edges_measurable(s),
    ensures
        1 <= edge_length(s, i) <= LIMIT,
        edge_normal(s, i).unit_within(edge_length(s, i)),
        edge_normal(s, i).neg_spec().unit_within(edge_length(s, i)),
{
    let e = s[i].minus_spec(s[next_index(s.len() as int, i)]);
    assert(1 <= edge_length(s, i) <= LIMIT);
    lemma_normalized_length(e);
    let n = e.normalized_spec();
    let o = n.orth_spec();
    assert(o.x == -n.y && o.y == n.x);
    assert(o.x * o.x + o.y * o.y == n.x * n.x + n.y * n.y) by (nonlinear_arith)
        requires
            o.x == -n.y,
            o.y == n.x,
    ;
    let g = o.neg_spec();
    assert(g.x == -o.x && g.y == -o.y);
    assert(g.x * g.x + g.y * g.y == o.x * o.x + o.y * o.y) by (nonlinear_arith)
        requires
            g.x == -o.x,
            g.y == -o.y,
    ;
}

proof fn lemma_least_overlap_axis(p1: Polygon, p2: Polygon, axes: Seq<Point>, k: int)
    requires
        1 <= k <= axes.len(),
    ensures
        exists|j: int| 0 <= j < k && #[trigger] oriented(p1, p2, axes[j]) == least_overlap(p1, p2, axes, k).unwrap().1,
    decreases k,
{
    let last = k - 1;
    if k > 1 {
        lemma_least_overlap_axis(p1, p2, axes, k - 1);
        let prev = least_overlap(p1, p2, axes, k - 1);
        let d = axis_depth(p1, p2, axes[last]);
        let j = choose|j: int| 0 <= j < k - 1 && #[trigger] oriented(p1, p2, axes[j]) == prev.unwrap().1;
        if prev.unwrap().0 <= d {
            assert(oriented(p1, p2, axes[j]) == least_overlap(p1, p2, axes, k).unwrap().1);
        } else {
            assert(oriented(p1, p2, axes[last]) == least_overlap(p1, p2, axes, k).unwrap().1);
        }
    } else {
        assert(oriented(p1, p2, axes[last]) == least_overlap(p1, p2, axes, k).unwrap().1);
    }
}

/// `n` has unit length up to the rounding of a normalization from some length
/// between one fixed-point unit and `LIMIT`.
pub open spec fn unit_normal(n: Point) -> bool {
    exists|len: int| 1 <= len <= LIMIT && #[trigger] n.unit_within(len)
}

/// Every contact normal has unit length up to rounding: when every edge of both
/// polygons is between one fixed-point unit and `LIMIT` long, each normal is
/// `unit_within` the length of the edge it was taken from.
pub proof fn lemma_contact_normals_are_unit(body1: Body, body2: Body, margin: i64)
    requires
        body1.wf(),
        body2.wf(),
        match (body1.shape, body2.shape) {
            (Shape::Polygon(p1), Shape::Polygon(p2)) => edges_measurable(p1.vertices@) && edges_measurable(p2.vertices@),
            _ => true,
        },
    ensures
        forall|k: int| 0 <= k < contacts_spec(body1, body2, margin).len() ==> #[trigger] unit_normal(contacts_spec(body1, body2, margin)[k].normal),
{
    match (body1.shape, body2.shape) {
        (Shape::Polygon(p1), Shape::Polygon(p2)) => {
            let axes = sat_axes(p1, p2);
            if !separated_upto(p1, p2, axes, axes.len() as int) {
                lemma_least_overlap_axis(p1, p2, axes, axes.len() as int);
                let normal = least_overlap(p1, p2, axes, axes.len() as int).unwrap().1;
                let j = choose|j: int| 0 <= j < axes.len() && #[trigger] oriented(p1, p2, axes[j]) == normal;
                let n1 = p1.vertices@.len() as int;
                let (s, i) = if j < n1 { (p1.vertices@, j) } else { (p2.vertices@, j - n1) };
                assert(axes[j] == edge_normal(s, i));
                lemma_edge_normal_unit(s, i);
                let len = edge_length(s, i);
                assert(normal.unit_within(len));
                assert forall|k: int| 0 <= k < contacts_spec(body1, body2, margin).len() implies
                    #[trigger] unit_normal(contacts_spec(body1, body2, margin)[k].normal) by {
                    assert(contacts_spec(body1, body2, margin)[k].normal == normal);
                    assert(1 <= len <= LIMIT && contacts_spec(body1, body2, margin)[k].normal.unit_within(len));
                }
            } else {
                assert(contacts_spec(body1, body2, margin).len() == 0);
            }
        },
        _ => {
            assert(contacts_spec(body1, body2, margin).len() == 0);
        },
    }
}

} // verus!
