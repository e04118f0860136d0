//! Two-dimensional vectors of fixed-point coordinates.
use vstd::prelude::*;
use vstd::arithmetic::div_mod::lemma_fundamental_div_mod;
use crate::fixed::{
    abs, cos, cos_fx, diff_fx, lemma_wide_product, rdiv, fadd, fdiv, fmul, fsub, isqrt, prod_fx, quot_fx, sat, sin, sin_fx, sum_fx,
    HALF, LIMIT, SCALE,
};

verus! {

/// `r` is the square root of `n`, rounded down.
pub open spec fn is_root(n: int, r: int) -> bool {
    0 <= r && r * r <= n < (r + 1) * (r + 1)
}

/// Exact square root of a natural number, rounded down.
pub open spec fn root(n: int) -> int {
    choose|r: int| #[trigger] is_root(n, r)
}

proof fn lemma_root_unique(n: int, r: int)
    requires
        0 <= r,
        r * r <= n < (r + 1) * (r + 1),
    ensures
        root(n) == r,
{
    assert(is_root(n, r));
    let s = root(n);
    if s < r {
        assert((s + 1) * (s + 1) <= r * r) by (nonlinear_arith)
            requires
                0 <= s < r,
        ;
    } else if s > r {
        assert((r + 1) * (r + 1) <= s * s) by (nonlinear_arith)
            requires
                0 <= r < s,
        ;
    }
}

/// A vector (or a position) in world space, each coordinate in fixed point.
#[derive(Clone, Copy, Debug, PartialEq, Eq, Structural)]
pub struct Point {
    pub x: i64,
    pub y: i64,
}

pub open spec fn pt(x: int, y: int) -> Point {
    Point { x: x as i64, y: y as i64 }
}

impl Point {
    pub open spec fn plus_spec(self, o: Point) -> Point {
        pt(sum_fx(self.x as int, o.x as int), sum_fx(self.y as int, o.y as int))
    }

    pub open spec fn minus_spec(self, o: Point) -> Point {
        pt(diff_fx(self.x as int, o.x as int), diff_fx(self.y as int, o.y as int))
    }

    pub open spec fn neg_spec(self) -> Point {
        pt(diff_fx(0, self.x as int), diff_fx(0, self.y as int))
    }

    /// The vector scaled by a fixed-point factor.
    pub open spec fn times_spec(self, k: i64) -> Point {
        pt(prod_fx(self.x as int, k as int), prod_fx(self.y as int, k as int))
    }

    /// The vector divided by a fixed-point divisor (zero when it is zero).
    pub open spec fn divided_spec(self, k: i64) -> Point {
        pt(quot_fx(self.x as int, k as int), quot_fx(self.y as int, k as int))
    }

    pub open spec fn dot_spec(self, o: Point) -> int {
        sum_fx(prod_fx(self.x as int, o.x as int), prod_fx(self.y as int, o.y as int))
    }

    /// The vector turned a quarter turn: `(-y, x)`.
    pub open spec fn orth_spec(self) -> Point {
        pt(diff_fx(0, self.y as int), self.x as int)
    }

    pub open spec fn middle_spec(self, o: Point) -> Point {
        self.plus_spec(o).times_spec(HALF)
    }

    /// The Euclidean length, rounded down to a fixed-point unit.
    pub open spec fn norm_spec(self) -> int {
        sat(root(self.x * self.x + self.y * self.y))
    }

    /// The vector divided by its length; the zero vector stays zero.
    pub open spec fn normalized_spec(self) -> Point {
        self.divided_spec(self.norm_spec() as i64)
    }

    /// The vector rotated by the fixed-point angle `a`.
    pub open spec fn rotated_spec(self, a: int) -> Point {
        let c = cos_fx(a);
        let s = sin_fx(a);
        pt(
            diff_fx(prod_fx(self.x as int, c), prod_fx(self.y as int, s)),
            sum_fx(prod_fx(self.x as int, s), prod_fx(self.y as int, c)),
        )
    }

    /// The squared length of the vector is one up to the rounding of a
    /// normalization from length `len`: with `S = SCALE` and `m = x² + y²`,
    /// `S² − 2S ≤ m` and `len²·(m − S²) ≤ S²·(2·len + 1) + 2S·len² + len²`.
    pub open spec fn unit_within(self, len: int) -> bool {
        let m = self.x * self.x + self.y * self.y;
        let s = SCALE as int;
        &&& s * s - 2 * s <= m
        &&& len * len * (m - s * s) <= s * s * (2 * len + 1) + 2 * s * len * len + len * len
    }

    pub fn new(x: i64, y: i64) -> (r: Point)
        ensures
            r.x == x,
            r.y == y,
    {
        Point { x, y }
    }

    pub fn plus(self, o: Point) -> (r: Point)
        ensures
            r == self.plus_spec(o),
    {
        Point { x: fadd(self.x, o.x), y: fadd(self.y, o.y) }
    }

    pub fn minus(self, o: Point) -> (r: Point)
        ensures
            r == self.minus_spec(o),
    {
        Point { x: fsub(self.x, o.x), y: fsub(self.y, o.y) }
    }

    pub fn neg(self) -> (r: Point)
        ensures
            r == self.neg_spec(),
    {
        Point { x: fsub(0, self.x), y: fsub(0, self.y) }
    }

    pub fn times(self, k: i64) -> (r: Point)
        ensures
            r == self.times_spec(k),
    {
        Point { x: fmul(self.x, k), y: fmul(self.y, k) }
    }

    pub fn divided(self, k: i64) -> (r: Point)
        ensures
            r == self.divided_spec(k),
    {
        Point { x: fdiv(self.x, k), y: fdiv(self.y, k) }
    }

    pub fn dot(self, o: Point) -> (r: i64)
        ensures
            r == self.dot_spec(o),
    {
        fadd(fmul(self.x, o.x), fmul(self.y, o.y))
    }

    pub fn orth(self) -> (r: Point)
        ensures
            r == self.orth_spec(),
    {
        Point { x: fsub(0, self.y), y: self.x }
    }

    pub fn middle(self, p: Point) -> (r: Point)
        ensures
            r == self.middle_spec(p),
    {
        self.plus(p).times(HALF)
    }

    pub fn norm(self) -> (r: i64)
        ensures
            r == self.norm_spec(),
            0 <= r <= LIMIT,
    {
        proof {
            lemma_wide_product(self.x as int, self.x as int);
            lemma_wide_product(self.y as int, self.y as int);
            assert(0 <= self.x * self.x) by (nonlinear_arith);
            assert(0 <= self.y * self.y) by (nonlinear_arith);
        }
        let xx: i128 = self.x as i128 * self.x as i128;
        let yy: i128 = self.y as i128 * self.y as i128;
        let n: u128 = xx as u128 + yy as u128;
        let r = isqrt(n);
        proof {
            lemma_root_unique(n as int, r as int);
        }
        if r > LIMIT as u128 {
            LIMIT
        } else {
            r as i64
        }
    }

    pub fn normalized(self) -> (r: Point)
        ensures
            r == self.normalized_spec(),
    {
        self.divided(self.norm())
    }

    pub fn rotate(self, a: i64) -> (r: Point)
        ensures
            r == self.rotated_spec(a as int),
    {
        let c = cos(a);
        let s = sin(a);
        Point {
            x: fsub(fmul(self.x, c), fmul(self.y, s)),
            y: fadd(fmul(self.x, s), fmul(self.y, c)),
        }
    }
}

proof fn lemma_root_exists(q: int)
    requires
        q >= 0,
    ensures
        is_root(q, root(q)),
    decreases q,
{
    if q == 0 {
        assert(is_root(0, 0));
    } else {
        lemma_root_exists(q - 1);
        let r = root(q - 1);
        if (r + 1) * (r + 1) <= q {
            assert(q < (r + 2) * (r + 2)) by (nonlinear_arith)
                requires
                    q - 1 < (r + 1) * (r + 1),
                    r >= 0,
            ;
            assert(is_root(q, r + 1));
        } else {
            assert(is_root(q, r));
        }
    }
}

/// Rounding a quotient errs by at most half the divisor: `|2·d·rdiv(n, d) − 2n| ≤ d`.
pub proof fn lemma_rdiv_error(n: int, d: int)
    requires
        d > 0,
    ensures
        abs(2 * d * rdiv(n, d) - 2 * n) <= d,
{
    let a = abs(n) + d / 2;
    lemma_fundamental_div_mod(a, d);
    let q = a / d;
    let r = a % d;
    assert(2 * d * q - 2 * abs(n) == 2 * (d / 2) - 2 * r) by (nonlinear_arith)
        requires
            a == d * q + r,
            a == abs(n) + d / 2,
    ;
    if n < 0 {
        assert(2 * d * (-q) - 2 * n == -(2 * d * q - 2 * abs(n))) by (nonlinear_arith)
            requires
                abs(n) == -n,
        ;
    }
}

proof fn lemma_square_of_rounded(len: int, r: int, x: int, s: int, u: int)
    requires
        u == 2 * len * r - 2 * x * s,
    ensures
        4 * ((len * len) * (r * r)) == 4 * ((s * s) * (x * x)) + 4 * (s * (x * u)) + u * u,
{
    let a = 2 * len * r;
    assert(a * a == 4 * ((len * len) * (r * r))) by (nonlinear_arith)
        requires
            a == 2 * len * r,
    ;
    let p = 2 * x * s;
    assert(a == p + u);
    assert(a * a == (p + u) * (p + u));
    assert((p + u) * (p + u) == p * p + 2 * (p * u) + u * u) by (nonlinear_arith);
    assert(p * p == 4 * ((s * s) * (x * x))) by (nonlinear_arith)
        requires
            p == 2 * x * s,
    ;
    assert(2 * (p * u) == 4 * (s * (x * u))) by (nonlinear_arith)
        requires
            p == 2 * x * s,
    ;
}

/// Normalizing a vector of length `N` (in fixed-point units, `1 ≤ N ≤ LIMIT`) gives
/// a vector whose squared length `m` is one up to rounding:
/// `S² − 2S ≤ m` and `N²·(m − S²) ≤ S²·(2N + 1) + 2S·N² + N²`, with `S = SCALE`.
pub proof fn lemma_normalized_length(v: Point)
    requires
        1 <= root(v.x * v.x + v.y * v.y) <= LIMIT,
    ensures
        v.normalized_spec().unit_within(root(v.x * v.x + v.y * v.y)),
{
    let q = v.x * v.x + v.y * v.y;
    assert(q >= 0) by (nonlinear_arith)
        requires
            q == v.x * v.x + v.y * v.y,
    ;
    lemma_root_exists(q);
    let len = root(q);
    let s = SCALE as int;
    let x = v.x as int;
    let y = v.y as int;
    assert(-len <= x <= len && -len <= y <= len) by (nonlinear_arith)
        requires
            q == x * x + y * y,
            q < (len + 1) * (len + 1),
            len >= 1,
    ;
    lemma_rdiv_error(x * s, len);
    lemma_rdiv_error(y * s, len);
    let rx = rdiv(x * s, len);
    let ry = rdiv(y * s, len);
    let u = 2 * len * rx - 2 * x * s;
    let w = 2 * len * ry - 2 * y * s;
    assert(-len <= u <= len && -len <= w <= len);
    assert(-s - 1 <= rx <= s + 1 && -s - 1 <= ry <= s + 1) by (nonlinear_arith)
        requires
            u == 2 * len * rx - 2 * x * s,
            w == 2 * len * ry - 2 * y * s,
            -len <= u <= len,
            -len <= w <= len,
            -len <= x <= len,
            -len <= y <= len,
            len >= 1,
            s == 1_000_000,
    ;
    let n = v.normalized_spec();
    assert(n.x == rx && n.y == ry);
    let m = rx * rx + ry * ry;
    lemma_square_of_rounded(len, rx, x, s, u);
    lemma_square_of_rounded(len, ry, y, s, w);
    let l2 = len * len;
    let s2 = s * s;
    assert(l2 * m == l2 * (rx * rx) + l2 * (ry * ry)) by (nonlinear_arith)
        requires
            m == rx * rx + ry * ry,
    ;
    assert(s2 * q == s2 * (x * x) + s2 * (y * y)) by (nonlinear_arith)
        requires
            q == x * x + y * y,
    ;
    assert(s * (x * u + y * w) == s * (x * u) + s * (y * w)) by (nonlinear_arith);
    assert(4 * (l2 * m) == 4 * (s2 * q) + 4 * (s * (x * u + y * w)) + u * u + w * w);
    assert(4 * len * len * m == 4 * s * s * q + 4 * s * (x * u + y * w) + u * u + w * w) by (nonlinear_arith)
        requires
            4 * (l2 * m) == 4 * (s2 * q) + 4 * (s * (x * u + y * w)) + u * u + w * w,
            l2 == len * len,
            s2 == s * s,
    ;
    assert(-2 * len * len <= x * u + y * w <= 2 * len * len) by (nonlinear_arith)
        requires
            -len <= u <= len,
            -len <= w <= len,
            -len <= x <= len,
            -len <= y <= len,
    ;
    assert(0 <= u * u + w * w <= 2 * len * len) by (nonlinear_arith)
        requires
            -len <= u <= len,
            -len <= w <= len,
    ;
    assert(len * len <= q < (len + 1) * (len + 1));
    assert(s * s - 2 * s <= m) by (nonlinear_arith)
        requires
            4 * len * len * m == 4 * s * s * q + 4 * s * (x * u + y * w) + u * u + w * w,
            -2 * len * len <= x * u + y * w,
            0 <= u * u + w * w,
            len * len <= q,
            len >= 1,
            s >= 0,
    ;
    let t = x * u + y * w;
    assert(q <= l2 + 2 * len) by (nonlinear_arith)
        requires
            q < (len + 1) * (len + 1),
            l2 == len * len,
    ;
    assert(s2 * (q - l2) <= s2 * (2 * len)) by (nonlinear_arith)
        requires
            q - l2 <= 2 * len,
            s2 >= 0,
    ;
    assert(t <= 2 * l2 && u * u + w * w <= 2 * l2) by (nonlinear_arith)
        requires
            t == x * u + y * w,
            x * u + y * w <= 2 * len * len,
            u * u + w * w <= 2 * len * len,
            l2 == len * len,
    ;
    assert(s * t <= s * (2 * l2)) by (nonlinear_arith)
        requires
            t <= 2 * l2,
            s >= 0,
    ;
    assert(4 * l2 * m == 4 * s2 * q + 4 * (s * t) + u * u + w * w) by (nonlinear_arith)
        requires
            4 * len * len * m == 4 * s * s * q + 4 * s * (x * u + y * w) + u * u + w * w,
            l2 == len * len,
            s2 == s * s,
            t == x * u + y * w,
    ;
    assert(l2 * (m - s2) == l2 * m - l2 * s2) by (nonlinear_arith);
    assert(4 * (l2 * m) - 4 * (l2 * s2) <= 4 * (s2 * (2 * len + 1)) + 8 * (s * l2) + 4 * l2) by (nonlinear_arith)
        requires
            4 * l2 * m == 4 * s2 * q + 4 * (s * t) + u * u + w * w,
            s2 * (q - l2) <= s2 * (2 * len),
            s * t <= s * (2 * l2),
            u * u + w * w <= 2 * l2,
            s2 >= 0,
            l2 >= 0,
    ;
    assert(len * len * (m - s * s) <= s * s * (2 * len + 1) + 2 * s * len * len + len * len) by (nonlinear_arith)
        requires
            4 * (l2 * m) - 4 * (l2 * s2) <= 4 * (s2 * (2 * len + 1)) + 8 * (s * l2) + 4 * l2,
            l2 * (m - s2) == l2 * m - l2 * s2,
            l2 == len * len,
            s2 == s * s,
    ;
}

} // verus!
