//! Fixed-point scalars: every length, angle, mass and time is an `i64`
//! counting millionths of a unit, and every operation saturates at `LIMIT`.
use vstd::prelude::*;
use vstd::arithmetic::div_mod::lemma_fundamental_div_mod;
use vstd::arithmetic::div_mod::lemma_fundamental_div_mod_converse;

verus! {

/// Fixed-point units in one world unit (and in one radian).
pub const SCALE: i64 = 1_000_000;

/// One half, in fixed point.
pub const HALF: i64 = 500_000;

/// Largest magnitude of a fixed-point result; operations saturate here.
pub const LIMIT: i64 = 1_000_000_000_000_000;

pub open spec fn abs(v: int) -> int {
    if v < 0 { -v } else { v }
}

/// Clamps an exact value into `[-LIMIT, LIMIT]`.
pub open spec fn sat(v: int) -> int {
    if v > LIMIT { LIMIT as int } else if v < -LIMIT { -LIMIT } else { v }
}

/// Division rounded to the nearest integer, halves away from zero.
pub open spec fn rdiv(n: int, d: int) -> int {
    let q = (abs(n) + abs(d) / 2) / abs(d);
    if (n < 0) == (d < 0) { q } else { -q }
}

pub open spec fn sum_fx(a: int, b: int) -> int {
    sat(a + b)
}

pub open spec fn diff_fx(a: int, b: int) -> int {
    sat(a - b)
}

pub open spec fn prod_fx(a: int, b: int) -> int {
    sat(rdiv(a * b, SCALE as int))
}

/// Quotient of two fixed-point values; a zero divisor gives zero.
pub open spec fn quot_fx(a: int, b: int) -> int {
    if b == 0 { 0 } else { sat(rdiv(a * SCALE, b)) }
}

fn clamp_wide(v: i128) -> (r: i64)
    ensures
        r == sat(v as int),
{
    if v > LIMIT as i128 {
        LIMIT
    } else if v < -(LIMIT as i128) {
        -LIMIT
    } else {
        v as i64
    }
}

fn round_div(n: i128, d: i128) -> (r: i128)
    requires
        d != 0,
        abs(n as int) <= 0x4000_0000_0000_0000_0000_0000_0000_0000,
        abs(d as int) <= 0x4000_0000_0000_0000_0000_0000_0000_0000,
    ensures
        r == rdiv(n as int, d as int),
{
    let an: i128 = if n < 0 { -n } else { n };
    let ad: i128 = if d < 0 { -d } else { d };
    let q: i128 = (an + ad / 2) / ad;
    if (n < 0) == (d < 0) {
        q
    } else {
        -q
    }
}

pub proof fn lemma_wide_product(a: int, b: int)
    requires
        -0x8000_0000_0000_0000 <= a <= 0x7fff_ffff_ffff_ffff,
        -0x8000_0000_0000_0000 <= b <= 0x7fff_ffff_ffff_ffff,
    ensures
        abs(a * b) <= 0x4000_0000_0000_0000_0000_0000_0000_0000,
{
    assert(abs(a) * abs(b) <= 0x8000_0000_0000_0000 * 0x8000_0000_0000_0000) by (nonlinear_arith)
        requires
            0 <= abs(a) <= 0x8000_0000_0000_0000,
            0 <= abs(b) <= 0x8000_0000_0000_0000,
    ;
    assert(abs(a * b) == abs(a) * abs(b)) by (nonlinear_arith);
}

pub fn fadd(a: i64, b: i64) -> (r: i64)
    ensures
        r == sum_fx(a as int, b as int),
{
    clamp_wide(a as i128 + b as i128)
}

pub fn fsub(a: i64, b: i64) -> (r: i64)
    ensures
        r == diff_fx(a as int, b as int),
{
    clamp_wide(a as i128 - b as i128)
}

pub fn fmul(a: i64, b: i64) -> (r: i64)
    ensures
        r == prod_fx(a as int, b as int),
{
    proof {
        lemma_wide_product(a as int, b as int);
    }
    let p: i128 = a as i128 * b as i128;
    clamp_wide(round_div(p, SCALE as i128))
}

pub fn fdiv(a: i64, b: i64) -> (r: i64)
    ensures
        r == quot_fx(a as int, b as int),
{
    if b == 0 {
        0
    } else {
        proof {
            lemma_wide_product(a as int, SCALE as int);
        }
        clamp_wide(round_div(a as i128 * SCALE as i128, b as i128))
    }
}

/// Half a turn, in fixed-point radians.
pub const PI_FX: i64 = 3_141_593;

/// A quarter turn, in fixed-point radians.
pub const HALF_PI_FX: i64 = 1_570_796;

/// A full turn, in fixed-point radians.
pub const TWO_PI_FX: i64 = 6_283_185;

/// One step of the Horner scheme `1 - y / k * c` for the Taylor series.
pub open spec fn horner_step(y: int, c: int, k: int) -> int {
    SCALE - rdiv(prod_fx(y, c), k)
}

/// Taylor polynomial of the cosine up to the twelfth power, for `0 <= t <= HALF_PI_FX`.
pub open spec fn cos_poly(t: int) -> int {
    let y = prod_fx(t, t);
    horner_step(y, horner_step(y, horner_step(y, horner_step(y, horner_step(y,
        horner_step(y, SCALE as int, 132), 90), 56), 30), 12), 2)
}

/// Taylor polynomial of the sine up to the thirteenth power, for `0 <= t <= HALF_PI_FX`.
pub open spec fn sin_poly(t: int) -> int {
    let y = prod_fx(t, t);
    prod_fx(t, horner_step(y, horner_step(y, horner_step(y, horner_step(y, horner_step(y,
        horner_step(y, SCALE as int, 156), 110), 72), 42), 20), 6))
}

/// Cosine of a fixed-point angle: the angle is brought into `[0, HALF_PI_FX]`
/// by the symmetries of the cosine, then the polynomial is evaluated.
pub open spec fn cos_fx(a: int) -> int {
    let r = a % (TWO_PI_FX as int);
    let t = if r > PI_FX { TWO_PI_FX - r } else { r };
    if t > HALF_PI_FX { -cos_poly(PI_FX - t) } else { cos_poly(t) }
}

/// Sine of a fixed-point angle, reduced as `cos_fx` is.
pub open spec fn sin_fx(a: int) -> int {
    let r = a % (TWO_PI_FX as int);
    let s = if r >= PI_FX { r - PI_FX } else { r };
    let t = if s > HALF_PI_FX { PI_FX - s } else { s };
    if r >= PI_FX { -sin_poly(t) } else { sin_poly(t) }
}

fn step(y: i64, c: i64, k: i64) -> (r: i64)
    requires
        0 < k <= 156,
    ensures
        r == horner_step(y as int, c as int, k as int),
{
    let p = fmul(y, c);
    SCALE - round_div(p as i128, k as i128) as i64
}

fn cos_poly_exec(t: i64) -> (r: i64)
    ensures
        r == cos_poly(t as int),
{
    let y = fmul(t, t);
    let c = step(y, SCALE, 132);
    let c = step(y, c, 90);
    let c = step(y, c, 56);
    let c = step(y, c, 30);
    let c = step(y, c, 12);
    step(y, c, 2)
}

fn sin_poly_exec(t: i64) -> (r: i64)
    ensures
        r == sin_poly(t as int),
{
    let y = fmul(t, t);
    let c = step(y, SCALE, 156);
    let c = step(y, c, 110);
    let c = step(y, c, 72);
    let c = step(y, c, 42);
    let c = step(y, c, 20);
    let c = step(y, c, 6);
    fmul(t, c)
}

/// The angle taken modulo a full turn, into `[0, TWO_PI_FX)`.
fn wrap_angle(a: i64) -> (r: i64)
    ensures
        r == a as int % (TWO_PI_FX as int),
        0 <= r < TWO_PI_FX,
{
    let w = a as i128;
    let t = TWO_PI_FX as i128;
    if w >= 0 {
        (w % t) as i64
    } else {
        let k = (-w) % t;
        proof {
            lemma_fundamental_div_mod(-w as int, t as int);
            let q = (-w as int) / (t as int);
            if k == 0 {
                lemma_fundamental_div_mod_converse(w as int, t as int, -q, 0);
            } else {
                lemma_fundamental_div_mod_converse(w as int, t as int, -q - 1, t - k);
            }
        }
        if k == 0 {
            0
        } else {
            (t - k) as i64
        }
    }
}

/// Fixed-point cosine.
pub fn cos(a: i64) -> (r: i64)
    ensures
        r == cos_fx(a as int),
{
    let r = wrap_angle(a);
    let t = if r > PI_FX { TWO_PI_FX - r } else { r };
    if t > HALF_PI_FX {
        -cos_poly_exec(PI_FX - t)
    } else {
        cos_poly_exec(t)
    }
}

/// Fixed-point sine.
pub fn sin(a: i64) -> (r: i64)
    ensures
        r == sin_fx(a as int),
{
    let r = wrap_angle(a);
    let s = if r >= PI_FX { r - PI_FX } else { r };
    let t = if s > HALF_PI_FX { PI_FX - s } else { s };
    let v = sin_poly_exec(t);
    if r >= PI_FX {
        -v
    } else {
        v
    }
}

/// The integer square root: the largest `r` with `r * r <= n`.
pub fn isqrt(n: u128) -> (r: u128)
    ensures
        r * r <= n < (r + 1) * (r + 1),
{
    let mut lo: u128 = 0;
    let mut hi: u128 = 0x1_0000_0000_0000_0000;
    assert(n < hi * hi) by (nonlinear_arith)
        requires
            n <= u128::MAX,
            hi == 0x1_0000_0000_0000_0000u128,
    ;
    while hi - lo > 1
        invariant
            lo < hi <= 0x1_0000_0000_0000_0000,
            lo * lo <= n < hi * hi,
        decreases hi - lo,
    {
        let mid = lo + (hi - lo) / 2;
        assert(mid * mid < 0x1_0000_0000_0000_0000 * 0x1_0000_0000_0000_0000) by (nonlinear_arith)
            requires
                mid < 0x1_0000_0000_0000_0000,
        ;
        if mid * mid <= n {
            lo = mid;
        } else {
            hi = mid;
        }
    }
    lo
}

/// An exact value shared out over `n` parts, rounded and clamped.
pub open spec fn share_fx(a: int, n: int) -> int {
    sat(rdiv(a, n))
}

pub fn div_count(a: i64, n: usize) -> (r: i64)
    requires
        n > 0,
    ensures
        r == share_fx(a as int, n as int),
{
    clamp_wide(round_div(a as i128, n as i128))
}

/// The angle of `j` parts out of `n` of a full turn, rounded.
pub fn turn_fraction(j: usize, n: usize) -> (r: i64)
    requires
        j < n,
    ensures
        r == share_fx(TWO_PI_FX * j, n as int),
{
    assert(TWO_PI_FX * j <= TWO_PI_FX * 0x1_0000_0000_0000_0000) by (nonlinear_arith)
        requires
            0 <= j < 0x1_0000_0000_0000_0000,
    ;
    clamp_wide(round_div(TWO_PI_FX as i128 * j as i128, n as i128))
}

} // verus!
