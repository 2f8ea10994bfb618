//! Fixed-point scalars, vectors, and integer square roots.
//!
//! A scalar is an `i64` number of raw length units; [`SCALE`] raw units make
//! one world unit. Every scalar the narrow phase computes with is bounded by
//! [`SCALAR_LIMIT`], which keeps all intermediate products inside `i128` /
//! `u128` range.

use vstd::arithmetic::div_mod::{
    lemma_div_by_multiple, lemma_div_is_ordered, lemma_fundamental_div_mod,
};
use vstd::arithmetic::mul::lemma_mul_inequality;
use vstd::prelude::*;

verus! {

/// Raw length units per world unit.
pub const SCALE: i64 = 1_000_000;

/// Largest magnitude allowed for a well-formed scalar (one million world units).
pub const SCALAR_LIMIT: i64 = 1_000_000_000_000;

/// Two to the 126th power: every squared norm handed to [`isqrt`] stays below it.
pub const NORM_BOUND: u128 = 0x4000_0000_0000_0000_0000_0000_0000_0000;

/// Two to the 63rd power: an upper bound for square roots of [`NORM_BOUND`].
pub const SQRT_HI: u128 = 0x8000_0000_0000_0000;

/// A well-formed scalar is bounded by [`SCALAR_LIMIT`] in magnitude.
pub open spec fn scalar_ok(s: i64) -> bool {
    -SCALAR_LIMIT <= s <= SCALAR_LIMIT
}

/// `r` is the integer square root of `n`, rounded toward zero.
pub open spec fn is_sqrt(n: int, r: int) -> bool {
    0 <= r && r * r <= n < (r + 1) * (r + 1)
}

/// The integer square root of `n`, rounded toward zero.
pub open spec fn sqrt_of(n: int) -> int {
    choose|r: int| is_sqrt(n, r)
}

/// The integer square root of `n`, rounded away from zero.
pub open spec fn ceil_sqrt_of(n: int) -> int {
    if sqrt_of(n) * sqrt_of(n) == n {
        sqrt_of(n)
    } else {
        sqrt_of(n) + 1
    }
}

/// Every nonnegative integer has an integer square root.
pub proof fn lemma_sqrt_exists(n: int) -> (r: int)
    requires
        0 <= n,
    ensures
        is_sqrt(n, r),
    decreases n,
{
    if n == 0 {
        assert(is_sqrt(0, 0)) by (nonlinear_arith);
        0
    } else {
        let p = lemma_sqrt_exists(n - 1);
        if n < (p + 1) * (p + 1) {
            assert(is_sqrt(n, p));
            p
        } else {
            assert(n == (p + 1) * (p + 1));
            assert(is_sqrt(n, p + 1)) by (nonlinear_arith)
                requires
                    n == (p + 1) * (p + 1),
                    0 <= p,
            ;
            p + 1
        }
    }
}

/// The integer square root is unique.
pub proof fn lemma_sqrt_unique(n: int, a: int, b: int)
    requires
        is_sqrt(n, a),
        is_sqrt(n, b),
    ensures
        a == b,
{
    if a < b {
        assert((a + 1) * (a + 1) <= b * b) by (nonlinear_arith)
            requires
                0 <= a < b,
        ;
    }
    if b < a {
        assert((b + 1) * (b + 1) <= a * a) by (nonlinear_arith)
            requires
                0 <= b < a,
        ;
    }
}

/// A witness for `is_sqrt` pins down `sqrt_of`.
pub proof fn lemma_sqrt_is(n: int, r: int)
    requires
        is_sqrt(n, r),
    ensures
        sqrt_of(n) == r,
{
    assert(is_sqrt(n, sqrt_of(n)));
    lemma_sqrt_unique(n, sqrt_of(n), r);
}

/// The integer square root of a perfect square.
pub proof fn lemma_sqrt_square(c: int)
    requires
        0 <= c,
    ensures
        sqrt_of(c * c) == c,
{
    assert(is_sqrt(c * c, c)) by (nonlinear_arith)
        requires
            0 <= c,
    ;
    lemma_sqrt_is(c * c, c);
}

/// The integer square root is monotonic.
pub proof fn lemma_sqrt_monotonic(n: int, m: int)
    requires
        0 <= n <= m,
    ensures
        is_sqrt(n, sqrt_of(n)),
        is_sqrt(m, sqrt_of(m)),
        sqrt_of(n) <= sqrt_of(m),
{
    let a = lemma_sqrt_exists(n);
    lemma_sqrt_is(n, a);
    let b = lemma_sqrt_exists(m);
    lemma_sqrt_is(m, b);
    if b < a {
        assert((b + 1) * (b + 1) <= a * a) by (nonlinear_arith)
            requires
                0 <= b < a,
        ;
    }
}

/// When `n` exceeds `cap * cap`, the ceiling square root of `n` exceeds `cap`.
pub proof fn lemma_ceil_sqrt_above(n: int, cap: int)
    requires
        0 <= cap,
        cap * cap < n,
    ensures
        cap < ceil_sqrt_of(n),
        n <= ceil_sqrt_of(n) * ceil_sqrt_of(n),
{
    let f = lemma_sqrt_exists(n);
    lemma_sqrt_is(n, f);
    if f < cap {
        assert((f + 1) * (f + 1) <= cap * cap) by (nonlinear_arith)
            requires
                0 <= f < cap,
        ;
    }
    let s = ceil_sqrt_of(n);
    if f * f == n {
        assert(f > cap) by (nonlinear_arith)
            requires
                0 <= cap <= f,
                cap * cap < f * f,
        ;
    } else {
        assert(s == f + 1);
        assert(n <= s * s) by (nonlinear_arith)
            requires
                n < (f + 1) * (f + 1),
                s == f + 1,
        ;
    }
}

/// Integer square root, rounded toward zero.
pub fn isqrt(n: u128) -> (r: u64)
    requires
        n < NORM_BOUND,
    ensures
        is_sqrt(n as int, r as int),
        r as int == sqrt_of(n as int),
{
    let mut lo: u128 = 0;
    let mut hi: u128 = SQRT_HI;
    proof {
        assert(SQRT_HI * SQRT_HI == NORM_BOUND);
    }
    while lo + 1 < hi
        invariant
            lo < hi <= SQRT_HI,
            (lo as int) * (lo as int) <= n as int,
            (n as int) < (hi as int) * (hi as int),
            n < NORM_BOUND,
        decreases hi - lo,
    {
        let mid: u128 = lo + (hi - lo) / 2;
        proof {
            assert(SQRT_HI * SQRT_HI == NORM_BOUND);
            assert((mid as int) * (mid as int) < NORM_BOUND) by (nonlinear_arith)
                requires
                    0 <= mid < SQRT_HI,
                    SQRT_HI * SQRT_HI == NORM_BOUND,
            ;
        }
        let sq: u128 = mid * mid;
        if sq <= n {
            lo = mid;
        } else {
            hi = mid;
        }
    }
    proof {
        assert(hi == lo + 1);
        assert(lo < SQRT_HI);
        assert(SQRT_HI <= u64::MAX as u128);
        lemma_sqrt_is(n as int, lo as int);
    }
    lo as u64
}

/// Integer square root, rounded away from zero.
pub fn ceil_sqrt(n: u128) -> (r: u64)
    requires
        n < NORM_BOUND,
    ensures
        r as int == ceil_sqrt_of(n as int),
        n as int <= (r as int) * (r as int),
{
    let f = isqrt(n);
    let fsq: u128 = (f as u128) * (f as u128);
    if fsq == n {
        f
    } else {
        proof {
            assert(SQRT_HI * SQRT_HI == NORM_BOUND);
            assert((f as int) < SQRT_HI) by (nonlinear_arith)
                requires
                    (f as int) * (f as int) <= n as int,
                    (n as int) < NORM_BOUND,
                    SQRT_HI * SQRT_HI == NORM_BOUND,
                    0 <= f as int,
            ;
            assert(SQRT_HI <= u64::MAX);
        }
        f + 1
    }
}

/// A three-component fixed-point vector.
#[derive(Clone, Copy, PartialEq, Eq, Structural, Debug)]
pub struct Vec3 {
    pub x: i64,
    pub y: i64,
    pub z: i64,
}

impl Vec3 {
    /// All components are well-formed scalars.
    pub open spec fn ok(self) -> bool {
        scalar_ok(self.x) && scalar_ok(self.y) && scalar_ok(self.z)
    }

    /// The squared Euclidean norm.
    pub open spec fn norm_sq(self) -> int {
        self.x * self.x + self.y * self.y + self.z * self.z
    }

    /// The integer length: the square root of the squared norm, rounded
    /// toward zero.
    pub open spec fn len_spec(self) -> int {
        sqrt_of(self.norm_sq())
    }

    /// The squared distance between `self` and `other`.
    pub open spec fn dist_sq(self, other: Vec3) -> int {
        (self.x - other.x) * (self.x - other.x) + (self.y - other.y) * (self.y - other.y) + (
        self.z - other.z) * (self.z - other.z)
    }
}

/// A square of a bounded value is bounded.
pub proof fn lemma_sq_bound(x: int, b: int)
    requires
        -b <= x <= b,
        0 <= b,
    ensures
        0 <= x * x <= b * b,
    decreases 0int,
{
    assert(0 <= x * x <= b * b) by (nonlinear_arith)
        requires
            -b <= x <= b,
            0 <= b,
    ;
}

/// If `x * x <= n` then the magnitude of `x` is at most the square root of `n`.
proof fn lemma_abs_le_sqrt(x: int, n: int, l: int)
    requires
        x * x <= n,
        is_sqrt(n, l),
    ensures
        -l <= x <= l,
{
    if x > l {
        assert((l + 1) * (l + 1) <= x * x) by (nonlinear_arith)
            requires
                0 <= l < x,
        ;
    }
    if x < -l {
        assert((l + 1) * (l + 1) <= x * x) by (nonlinear_arith)
            requires
                0 <= l,
                x < -l,
        ;
    }
}

/// Squared distance is symmetric.
pub proof fn lemma_dist_sq_symmetric(a: Vec3, b: Vec3)
    ensures
        a.dist_sq(b) == b.dist_sq(a),
{
    assert((a.x - b.x) * (a.x - b.x) == (b.x - a.x) * (b.x - a.x)) by (nonlinear_arith);
    assert((a.y - b.y) * (a.y - b.y) == (b.y - a.y) * (b.y - a.y)) by (nonlinear_arith);
    assert((a.z - b.z) * (a.z - b.z) == (b.z - a.z) * (b.z - a.z)) by (nonlinear_arith);
}

/// Each component of the difference `a - b` is bounded by the rounded
/// length of the difference.
pub proof fn lemma_diff_component_le(a: Vec3, b: Vec3)
    requires
        a.ok(),
        b.ok(),
    ensures
        is_sqrt(a.dist_sq(b), sqrt_of(a.dist_sq(b))),
        0 <= sqrt_of(a.dist_sq(b)),
        -sqrt_of(a.dist_sq(b)) <= a.x - b.x <= sqrt_of(a.dist_sq(b)),
        -sqrt_of(a.dist_sq(b)) <= a.y - b.y <= sqrt_of(a.dist_sq(b)),
        -sqrt_of(a.dist_sq(b)) <= a.z - b.z <= sqrt_of(a.dist_sq(b)),
{
    let n = a.dist_sq(b);
    lemma_sq_bound(a.x - b.x, 2 * SCALAR_LIMIT as int);
    lemma_sq_bound(a.y - b.y, 2 * SCALAR_LIMIT as int);
    lemma_sq_bound(a.z - b.z, 2 * SCALAR_LIMIT as int);
    let l = lemma_sqrt_exists(n);
    lemma_sqrt_is(n, l);
    lemma_abs_le_sqrt(a.x - b.x, n, l);
    lemma_abs_le_sqrt(a.y - b.y, n, l);
    lemma_abs_le_sqrt(a.z - b.z, n, l);
}

/// Scales a nonnegative numerator bounded by the denominator: the result
/// never exceeds `num`.
pub fn scale_dir_abs(xa: u64, num: u64, den: u64) -> (r: u64)
    requires
        0 < den,
        xa <= den,
    ensures
        r as int == ((xa as int) * (num as int)) / (den as int),
        r <= num,
{
    proof {
        assert((xa as int) * (num as int) <= (u64::MAX as int) * (u64::MAX as int))
            by (nonlinear_arith)
            requires
                0 <= xa <= u64::MAX,
                0 <= num <= u64::MAX,
        ;
    }
    let q: u128 = (xa as u128) * (num as u128) / (den as u128);
    proof {
        let xi = xa as int;
        let ni = num as int;
        let di = den as int;
        lemma_mul_inequality(xi, di, ni);
        assert(xi * ni == ni * xi) by (nonlinear_arith);
        assert(di * ni == ni * di) by (nonlinear_arith);
        lemma_div_is_ordered(xi * ni, di * ni, di);
        lemma_div_by_multiple(ni, di);
    }
    q as u64
}

/// Computes the squared norm of the difference `a - b` exactly, as a `u128`.
fn diff_norm_sq(a: Vec3, b: Vec3) -> (r: u128)
    requires
        a.ok(),
        b.ok(),
    ensures
        r as int == a.dist_sq(b),
        r < NORM_BOUND,
{
    let dx: i128 = a.x as i128 - b.x as i128;
    let dy: i128 = a.y as i128 - b.y as i128;
    let dz: i128 = a.z as i128 - b.z as i128;
    proof {
        lemma_sq_bound(dx as int, 2 * SCALAR_LIMIT as int);
        lemma_sq_bound(dy as int, 2 * SCALAR_LIMIT as int);
        lemma_sq_bound(dz as int, 2 * SCALAR_LIMIT as int);
        assert(3 * (2 * SCALAR_LIMIT as int) * (2 * SCALAR_LIMIT as int) < NORM_BOUND);
    }
    (dx * dx + dy * dy + dz * dz) as u128
}

/// The length of `a - b`, rounded toward zero.
pub fn vec_len_diff(a: Vec3, b: Vec3) -> (r: u64)
    requires
        a.ok(),
        b.ok(),
    ensures
        r as int == sqrt_of(a.dist_sq(b)),
        is_sqrt(a.dist_sq(b), r as int),
{
    let n = diff_norm_sq(a, b);
    isqrt(n)
}

/// The squared distance between `a` and `b`, computed exactly.
pub fn dist_sq_val(a: Vec3, b: Vec3) -> (r: u128)
    requires
        a.ok(),
        b.ok(),
    ensures
        r as int == a.dist_sq(b),
        r < NORM_BOUND,
{
    diff_norm_sq(a, b)
}

/// The component of the vector `v` scaled by `num / den`, rounded toward zero.
pub open spec fn scaled_toward_zero(x: int, num: int, den: int) -> int {
    if x >= 0 {
        (x * num) / den
    } else {
        -((-x * num) / den)
    }
}

/// The vector `v` clamped so that its length does not exceed `cap`.
///
/// When the squared norm already fits below `cap * cap`, the vector is
/// returned unchanged; otherwise every component is scaled by
/// `cap / ceil_sqrt(norm_sq)`, rounded toward zero.
pub open spec fn clamped_component(x: int, v: Vec3, cap: int) -> int {
    if v.norm_sq() <= cap * cap {
        x
    } else {
        scaled_toward_zero(x, cap, ceil_sqrt_of(v.norm_sq()))
    }
}

/// The vector `v` clamped to length `cap`, component by component.
pub open spec fn clamped_vec(v: Vec3, cap: int) -> Vec3 {
    Vec3 {
        x: clamped_component(v.x as int, v, cap) as i64,
        y: clamped_component(v.y as int, v, cap) as i64,
        z: clamped_component(v.z as int, v, cap) as i64,
    }
}

/// Scales a nonnegative numerator by `cap / den` with truncation.
fn scale_abs(xa: u64, cap: u64, den: u64) -> (r: u64)
    requires
        0 < den,
        cap <= den,
    ensures
        r as int == ((xa as int) * (cap as int)) / (den as int),
        r <= xa,
{
    proof {
        assert((xa as int) * (cap as int) <= (u64::MAX as int) * (u64::MAX as int))
            by (nonlinear_arith)
            requires
                0 <= xa <= u64::MAX,
                0 <= cap <= u64::MAX,
        ;
    }
    let q: u128 = (xa as u128) * (cap as u128) / (den as u128);
    proof {
        let xi = xa as int;
        let ci = cap as int;
        let di = den as int;
        lemma_mul_inequality(ci, di, xi);
        assert(xi * ci == ci * xi) by (nonlinear_arith);
        assert(xi * di == di * xi) by (nonlinear_arith);
        lemma_div_is_ordered(xi * ci, xi * di, di);
        lemma_div_by_multiple(xi, di);
    }
    q as u64
}

/// Clamps `v` so that its integer length does not exceed `cap`.
pub fn clamp_len(v: Vec3, cap: i64) -> (r: Vec3)
    requires
        v.ok(),
        0 <= cap,
    ensures
        r == clamped_vec(v, cap as int),
        r.ok(),
        r.norm_sq() <= (cap as int) * (cap as int),
        r.len_spec() <= cap,
        v.norm_sq() <= (cap as int) * (cap as int) ==> r == v,
{
    let nsq: u128 = diff_norm_sq(v, Vec3 { x: 0, y: 0, z: 0 });
    proof {
        assert(v.dist_sq(Vec3 { x: 0, y: 0, z: 0 }) == v.norm_sq());
    }
    proof {
        assert((cap as int) * (cap as int) < NORM_BOUND) by (nonlinear_arith)
            requires
                0 <= cap < SQRT_HI,
                SQRT_HI * SQRT_HI == NORM_BOUND,
        ;
        assert(SQRT_HI * SQRT_HI == NORM_BOUND);
    }
    let capsq: u128 = (cap as u128) * (cap as u128);
    if nsq <= capsq {
        proof {
            lemma_len_from_norm(v, cap as int);
            assert(clamped_vec(v, cap as int) == v);
        }
        v
    } else {
        proof {
            lemma_ceil_sqrt_above(nsq as int, cap as int);
        }
        let s: u64 = ceil_sqrt(nsq);
        let xa: u64 = abs_u64(v.x);
        let ya: u64 = abs_u64(v.y);
        let za: u64 = abs_u64(v.z);
        let xq: u64 = scale_abs(xa, cap as u64, s);
        let yq: u64 = scale_abs(ya, cap as u64, s);
        let zq: u64 = scale_abs(za, cap as u64, s);
        let rx: i64 = apply_sign(v.x, xq);
        let ry: i64 = apply_sign(v.y, yq);
        let rz: i64 = apply_sign(v.z, zq);
        let r = Vec3 { x: rx, y: ry, z: rz };
        proof {
            let si = s as int;
            let ci = cap as int;
            lemma_scaled_sq(v.x as int, ci, si, rx as int);
            lemma_scaled_sq(v.y as int, ci, si, ry as int);
            lemma_scaled_sq(v.z as int, ci, si, rz as int);
            assert(r.norm_sq() * (si * si) <= v.norm_sq() * (ci * ci)) by (nonlinear_arith)
                requires
                    (rx as int) * (rx as int) * (si * si) <= (v.x as int) * (v.x as int) * (ci
                        * ci),
                    (ry as int) * (ry as int) * (si * si) <= (v.y as int) * (v.y as int) * (ci
                        * ci),
                    (rz as int) * (rz as int) * (si * si) <= (v.z as int) * (v.z as int) * (ci
                        * ci),
                    r.norm_sq() == (rx as int) * (rx as int) + (ry as int) * (ry as int) + (
                    rz as int) * (rz as int),
                    v.norm_sq() == (v.x as int) * (v.x as int) + (v.y as int) * (v.y as int) + (
                    v.z as int) * (v.z as int),
            ;
            assert(v.norm_sq() * (ci * ci) <= (si * si) * (ci * ci)) by (nonlinear_arith)
                requires
                    v.norm_sq() <= si * si,
                    0 <= ci,
            ;
            assert(r.norm_sq() <= ci * ci) by (nonlinear_arith)
                requires
                    r.norm_sq() * (si * si) <= (si * si) * (ci * ci),
                    0 < si,
            ;
            lemma_len_from_norm(r, cap as int);
            assert(clamped_vec(v, cap as int).x == r.x);
            assert(clamped_vec(v, cap as int).y == r.y);
            assert(clamped_vec(v, cap as int).z == r.z);
        }
        r
    }
}

/// Relates a truncation-scaled component to the squared bound it satisfies.
proof fn lemma_scaled_sq(x: int, cap: int, s: int, q: int)
    requires
        0 < s,
        0 <= cap <= s,
        q == scaled_toward_zero(x, cap, s),
    ensures
        q * q * (s * s) <= x * x * (cap * cap),
{
    let xa = if x >= 0 {
        x
    } else {
        -x
    };
    let qa = (xa * cap) / s;
    lemma_fundamental_div_mod(xa * cap, s);
    assert(qa * s <= xa * cap) by (nonlinear_arith)
        requires
            xa * cap == s * ((xa * cap) / s) + (xa * cap) % s,
            0 <= (xa * cap) % s,
            qa == (xa * cap) / s,
    ;
    assert(0 <= qa) by (nonlinear_arith)
        requires
            0 <= xa * cap || (0 <= xa && 0 <= cap),
            0 <= xa,
            0 <= cap,
            0 < s,
            qa == (xa * cap) / s,
    ;
    assert((qa * s) * (qa * s) <= (xa * cap) * (xa * cap)) by (nonlinear_arith)
        requires
            0 <= qa * s <= xa * cap,
    ;
    assert(q * q * (s * s) <= x * x * (cap * cap)) by (nonlinear_arith)
        requires
            (qa * s) * (qa * s) <= (xa * cap) * (xa * cap),
            q == qa || q == -qa,
            x == xa || x == -xa,
    ;
}

/// From a squared-norm bound to a length bound.
proof fn lemma_len_from_norm(v: Vec3, cap: int)
    requires
        v.norm_sq() <= cap * cap,
        0 <= cap,
    ensures
        v.len_spec() <= cap,
        0 <= v.norm_sq(),
{
    assert(0 <= v.norm_sq()) by (nonlinear_arith);
    lemma_sqrt_monotonic(v.norm_sq(), cap * cap);
    lemma_sqrt_square(cap);
}

/// The absolute value of a well-formed scalar, as a `u64`.
fn abs_u64(x: i64) -> (r: u64)
    requires
        scalar_ok(x),
    ensures
        r as int == if x >= 0 {
            x as int
        } else {
            -(x as int)
        },
{
    if x >= 0 {
        x as u64
    } else {
        (-x) as u64
    }
}

/// Reapplies the sign of `x` to the magnitude `q`.
fn apply_sign(x: i64, q: u64) -> (r: i64)
    requires
        q <= SCALAR_LIMIT as u64,
    ensures
        r as int == if x >= 0 {
            q as int
        } else {
            -(q as int)
        },
        scalar_ok(r),
{
    if x >= 0 {
        q as i64
    } else {
        -(q as i64)
    }
}

} // verus!
