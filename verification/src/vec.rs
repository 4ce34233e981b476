//! Three-component vectors over fixed-point scalars, used both for
//! geometry and for RGB color. Each executable operation carries an exact
//! contract over the mathematical mirror type `V3`.

use vstd::prelude::*;
use crate::num::{
    is_sqrt, isqrt_u128, lemma_sqrt_floor_exists, lemma_sqrt_floor_is, lemma_tdiv_bounds,
    lemma_tdiv_shrinks, sqrt_floor, tdiv, tdiv_i128, SCALE,
};
use vstd::arithmetic::div_mod::{
    lemma_div_is_ordered, lemma_div_multiples_vanish, lemma_div_pos_is_pos,
    lemma_fundamental_div_mod, lemma_mod_division_less_than_divisor,
};

verus! {

/// Geometry handed to the tracer stays within this many fixed-point units
/// per component (250.0 in real terms).
pub const COORD_LIMIT: i64 = 250_000_000;

/// Componentwise bound under which a dot product and its descaled result
/// are exact in `i64`/`i128` arithmetic.
pub const DOT_LIMIT: i64 = 1_000_000_000_000;

/// Componentwise bound under which a squared length fits an `i128`; this is
/// the admission bound for `length` and `unit`.
pub const NORM_LIMIT: i64 = 300_000_000_000_000_000;

/// The mathematical value of a `Vec3`: its components as unbounded integers.
pub struct V3 {
    pub x: int,
    pub y: int,
    pub z: int,
}

/// Every component of `a` lies in `[-m, m]`.
pub open spec fn in_bounds(a: V3, m: int) -> bool {
    &&& -m <= a.x <= m
    &&& -m <= a.y <= m
    &&& -m <= a.z <= m
}

/// Componentwise sum.
pub open spec fn vadd(a: V3, b: V3) -> V3 {
    V3 { x: a.x + b.x, y: a.y + b.y, z: a.z + b.z }
}

/// Componentwise difference.
pub open spec fn vsub(a: V3, b: V3) -> V3 {
    V3 { x: a.x - b.x, y: a.y - b.y, z: a.z - b.z }
}

/// Multiplication by a fixed-point scalar: each component picks up the
/// factor `s / SCALE`, rounded toward zero.
pub open spec fn vscale(a: V3, s: int) -> V3 {
    V3 {
        x: tdiv(a.x * s, SCALE as int),
        y: tdiv(a.y * s, SCALE as int),
        z: tdiv(a.z * s, SCALE as int),
    }
}

/// Componentwise product of two fixed-point vectors (used to attenuate a
/// color by an albedo).
pub open spec fn vmul(a: V3, b: V3) -> V3 {
    V3 {
        x: tdiv(a.x * b.x, SCALE as int),
        y: tdiv(a.y * b.y, SCALE as int),
        z: tdiv(a.z * b.z, SCALE as int),
    }
}

/// Division by a positive fixed-point scalar, rounded toward zero.
pub open spec fn vdiv(a: V3, s: int) -> V3 {
    V3 {
        x: tdiv(a.x * (SCALE as int), s),
        y: tdiv(a.y * (SCALE as int), s),
        z: tdiv(a.z * (SCALE as int), s),
    }
}

/// The raw dot product: scaled by `SCALE` twice, with no rounding at all.
pub open spec fn dot_raw(a: V3, b: V3) -> int {
    a.x * b.x + a.y * b.y + a.z * b.z
}

/// The raw squared length, scaled by `SCALE` twice.
pub open spec fn len_sq_raw(a: V3) -> int {
    dot_raw(a, a)
}

/// The dot product as a fixed-point scalar.
pub open spec fn vdot(a: V3, b: V3) -> int {
    tdiv(dot_raw(a, b), SCALE as int)
}

/// The length as a fixed-point scalar: the integer square root of the raw
/// squared length is exactly the length scaled by `SCALE`, rounded down.
pub open spec fn vlen(a: V3) -> int {
    sqrt_floor(len_sq_raw(a))
}

/// The unit vector in the direction of `a`, each component rounded toward
/// zero. Meaningful only for nonzero `a`.
pub open spec fn vunit(a: V3) -> V3 {
    V3 {
        x: tdiv(a.x * (SCALE as int), vlen(a)),
        y: tdiv(a.y * (SCALE as int), vlen(a)),
        z: tdiv(a.z * (SCALE as int), vlen(a)),
    }
}

/// Mirror reflection of `v` about the normal `n`: `v - n * (v . n) * 2`,
/// with the two scalings rounded exactly as the executable code rounds them.
pub open spec fn vreflect(v: V3, n: V3) -> V3 {
    vsub(v, vscale(vscale(n, vdot(v, n)), 2 * (SCALE as int)))
}

/// A product of values bounded in magnitude is bounded by the product of
/// the bounds.
pub proof fn lemma_abs_mul_bound(a: int, b: int, ba: int, bb: int)
    by (nonlinear_arith)
    requires
        -ba <= a <= ba,
        -bb <= b <= bb,
        0 <= ba,
        0 <= bb,
    ensures
        -(ba * bb) <= a * b <= ba * bb,
{
}

/// A three-component fixed-point vector; also serves as an RGB color with
/// `SCALE` standing for channel value 1.0.
#[derive(Debug, Clone, Copy, PartialEq, Eq, Structural)]
pub struct Vec3 {
    pub x: i64,
    pub y: i64,
    pub z: i64,
}

impl View for Vec3 {
    type V = V3;

    open spec fn view(&self) -> V3 {
        V3 { x: self.x as int, y: self.y as int, z: self.z as int }
    }
}

impl Vec3 {
    pub fn new(x: i64, y: i64, z: i64) -> (r: Vec3)
        ensures
            r@ == (V3 { x: x as int, y: y as int, z: z as int }),
    {
        Vec3 { x, y, z }
    }

    /// The all-ones color (1.0, 1.0, 1.0).
    pub fn ones() -> (r: Vec3)
        ensures
            r@ == (V3 { x: SCALE as int, y: SCALE as int, z: SCALE as int }),
    {
        Vec3::new(SCALE, SCALE, SCALE)
    }

    /// The zero vector, also black.
    pub fn zeros() -> (r: Vec3)
        ensures
            r@ == (V3 { x: 0, y: 0, z: 0 }),
    {
        Vec3::new(0, 0, 0)
    }

    pub fn x(self) -> (r: i64)
        ensures
            r == self@.x,
    {
        self.x
    }

    pub fn y(self) -> (r: i64)
        ensures
            r == self@.y,
    {
        self.y
    }

    pub fn z(self) -> (r: i64)
        ensures
            r == self@.z,
    {
        self.z
    }

    pub fn r(self) -> (r: i64)
        ensures
            r == self@.x,
    {
        self.x
    }

    pub fn g(self) -> (r: i64)
        ensures
            r == self@.y,
    {
        self.y
    }

    pub fn b(self) -> (r: i64)
        ensures
            r == self@.z,
    {
        self.z
    }

    /// Componentwise sum.
    pub fn add(self, rhs: Vec3) -> (r: Vec3)
        requires
            i64::MIN <= self@.x + rhs@.x <= i64::MAX,
            i64::MIN <= self@.y + rhs@.y <= i64::MAX,
            i64::MIN <= self@.z + rhs@.z <= i64::MAX,
        ensures
            r@ == vadd(self@, rhs@),
    {
        Vec3 { x: self.x + rhs.x, y: self.y + rhs.y, z: self.z + rhs.z }
    }

    /// Componentwise difference.
    pub fn sub(self, rhs: Vec3) -> (r: Vec3)
        requires
            i64::MIN <= self@.x - rhs@.x <= i64::MAX,
            i64::MIN <= self@.y - rhs@.y <= i64::MAX,
            i64::MIN <= self@.z - rhs@.z <= i64::MAX,
        ensures
            r@ == vsub(self@, rhs@),
    {
        Vec3 { x: self.x - rhs.x, y: self.y - rhs.y, z: self.z - rhs.z }
    }

    /// Multiplication by a fixed-point scalar.
    pub fn scale(self, s: i64) -> (r: Vec3)
        requires
            -(i64::MAX as int) * (SCALE as int) <= self@.x * s <= (i64::MAX as int) * (SCALE as int),
            -(i64::MAX as int) * (SCALE as int) <= self@.y * s <= (i64::MAX as int) * (SCALE as int),
            -(i64::MAX as int) * (SCALE as int) <= self@.z * s <= (i64::MAX as int) * (SCALE as int),
        ensures
            r@ == vscale(self@, s as int),
    {
        Vec3 {
            x: scale_component(self.x, s),
            y: scale_component(self.y, s),
            z: scale_component(self.z, s),
        }
    }

    /// Componentwise product, attenuating one color by another.
    pub fn mul(self, rhs: Vec3) -> (r: Vec3)
        requires
            -(i64::MAX as int) * (SCALE as int) <= self@.x * rhs@.x <= (i64::MAX as int) * (
            SCALE as int),
            -(i64::MAX as int) * (SCALE as int) <= self@.y * rhs@.y <= (i64::MAX as int) * (
            SCALE as int),
            -(i64::MAX as int) * (SCALE as int) <= self@.z * rhs@.z <= (i64::MAX as int) * (
            SCALE as int),
        ensures
            r@ == vmul(self@, rhs@),
    {
        Vec3 {
            x: scale_component(self.x, rhs.x),
            y: scale_component(self.y, rhs.y),
            z: scale_component(self.z, rhs.z),
        }
    }

    /// Division by a positive fixed-point scalar.
    pub fn div(self, s: i64) -> (r: Vec3)
        requires
            1 <= s,
            in_bounds(self@, DOT_LIMIT as int),
        ensures
            r@ == vdiv(self@, s as int),
    {
        Vec3 {
            x: div_component(self.x, s),
            y: div_component(self.y, s),
            z: div_component(self.z, s),
        }
    }

    /// The dot product as a fixed-point scalar.
    pub fn dot(self, v: Vec3) -> (r: i64)
        requires
            in_bounds(self@, DOT_LIMIT as int),
            in_bounds(v@, DOT_LIMIT as int),
        ensures
            r == vdot(self@, v@),
    {
        let raw = dot_raw_i128(&self, &v);
        proof {
            assert(3 * (DOT_LIMIT as int) * (DOT_LIMIT as int) == 3_000_000_000_000_000_000int * (
            SCALE as int));
            lemma_tdiv_bounds(dot_raw(self@, v@), SCALE as int, 3_000_000_000_000_000_000int);
        }
        tdiv_i128(raw, SCALE as i128) as i64
    }

    /// The squared length as a fixed-point scalar.
    pub fn length_squared(self) -> (r: i64)
        requires
            in_bounds(self@, DOT_LIMIT as int),
        ensures
            r == vdot(self@, self@),
    {
        self.dot(self)
    }

    /// The length as a fixed-point scalar.
    pub fn length(self) -> (r: i64)
        requires
            in_bounds(self@, NORM_LIMIT as int),
        ensures
            r == vlen(self@),
            r >= 0,
    {
        let raw = len_sq_raw_i128(&self);
        let s = isqrt_u128(raw as u128);
        proof {
            lemma_sqrt_floor_is(len_sq_raw(self@), s as int);
            assert(s as int <= 600_000_000_000_000_000int) by (nonlinear_arith)
                requires
                    (s as int) * (s as int) <= 3 * (NORM_LIMIT as int) * (NORM_LIMIT as int),
                    0 <= s as int,
            ;
        }
        s as i64
    }

    /// The unit vector in this vector's direction. The vector must be
    /// nonzero: a zero direction has no unit and is the caller's fault to
    /// avoid. The result is exact truncating arithmetic, so its length is
    /// within `UNIT_LEN_TOL` of one unit only for vectors at least
    /// `UNIT_LEN_FLOOR` long; below that floor the rounding dominates and
    /// the result may be far from unit length.
    pub fn unit(self) -> (r: Vec3)
        requires
            in_bounds(self@, NORM_LIMIT as int),
            len_sq_raw(self@) > 0,
        ensures
            r@ == vunit(self@),
            in_bounds(r@, SCALE as int),
            vlen(self@) >= UNIT_LEN_FLOOR ==> (SCALE as int) - UNIT_LEN_TOL <= vlen(r@) <= (
            SCALE as int) + UNIT_LEN_TOL,
    {
        let raw = len_sq_raw_i128(&self);
        let s = isqrt_u128(raw as u128);
        proof {
            lemma_sqrt_floor_is(len_sq_raw(self@), s as int);
            if vlen(self@) >= UNIT_LEN_FLOOR {
                lemma_vunit_length(self@);
            }
            lemma_unit_component_bounds(self@, s as int);
            assert(s as int >= 1) by (nonlinear_arith)
                requires
                    0 < len_sq_raw(self@),
                    len_sq_raw(self@) < ((s as int) + 1) * ((s as int) + 1),
                    0 <= s as int,
            ;
            lemma_abs_mul_bound(self@.x, SCALE as int, NORM_LIMIT as int, SCALE as int);
            lemma_abs_mul_bound(self@.y, SCALE as int, NORM_LIMIT as int, SCALE as int);
            lemma_abs_mul_bound(self@.z, SCALE as int, NORM_LIMIT as int, SCALE as int);
            lemma_tdiv_bounds(self@.x * (SCALE as int), s as int, SCALE as int);
            lemma_tdiv_bounds(self@.y * (SCALE as int), s as int, SCALE as int);
            lemma_tdiv_bounds(self@.z * (SCALE as int), s as int, SCALE as int);
        }
        let sx = tdiv_i128((self.x as i128) * (SCALE as i128), s as i128);
        let sy = tdiv_i128((self.y as i128) * (SCALE as i128), s as i128);
        let sz = tdiv_i128((self.z as i128) * (SCALE as i128), s as i128);
        Vec3 { x: sx as i64, y: sy as i64, z: sz as i64 }
    }

    /// Mirror reflection about the normal `n`: `v - n * (v . n) * 2`.
    pub fn reflect(self, n: Vec3) -> (r: Vec3)
        requires
            in_bounds(self@, DOT_LIMIT as int),
            in_bounds(n@, 2 * (SCALE as int)),
        ensures
            r@ == vreflect(self@, n@),
            in_bounds(r@, 49_000_000_000_000int),
    {
        let d = self.dot(n);
        proof {
            lemma_abs_mul_bound(self@.x, n@.x, DOT_LIMIT as int, 2 * (SCALE as int));
            lemma_abs_mul_bound(self@.y, n@.y, DOT_LIMIT as int, 2 * (SCALE as int));
            lemma_abs_mul_bound(self@.z, n@.z, DOT_LIMIT as int, 2 * (SCALE as int));
            lemma_tdiv_bounds(dot_raw(self@, n@), SCALE as int, 6_000_000_000_000int);
            lemma_abs_mul_bound(n@.x, d as int, 2 * (SCALE as int), 6_000_000_000_000int);
            lemma_abs_mul_bound(n@.y, d as int, 2 * (SCALE as int), 6_000_000_000_000int);
            lemma_abs_mul_bound(n@.z, d as int, 2 * (SCALE as int), 6_000_000_000_000int);
        }
        let nd = n.scale(d);
        proof {
            lemma_tdiv_bounds(n@.x * d, SCALE as int, 12_000_000_000_000_000_000int / (
            SCALE as int));
            lemma_tdiv_bounds(n@.y * d, SCALE as int, 12_000_000_000_000_000_000int / (
            SCALE as int));
            lemma_tdiv_bounds(n@.z * d, SCALE as int, 12_000_000_000_000_000_000int / (
            SCALE as int));
            lemma_abs_mul_bound(nd@.x, 2 * (SCALE as int), 12_000_000_000_000int, 2 * (
            SCALE as int));
            lemma_abs_mul_bound(nd@.y, 2 * (SCALE as int), 12_000_000_000_000int, 2 * (
            SCALE as int));
            lemma_abs_mul_bound(nd@.z, 2 * (SCALE as int), 12_000_000_000_000int, 2 * (
            SCALE as int));
        }
        let nd2 = nd.scale(2 * SCALE);
        proof {
            lemma_tdiv_bounds(nd@.x * (2 * (SCALE as int)), SCALE as int, 48_000_000_000_000int);
            lemma_tdiv_bounds(nd@.y * (2 * (SCALE as int)), SCALE as int, 48_000_000_000_000int);
            lemma_tdiv_bounds(nd@.z * (2 * (SCALE as int)), SCALE as int, 48_000_000_000_000int);
        }
        self.sub(nd2)
    }

    /// Whether this point of the sampling cube falls strictly inside the
    /// unit sphere; the rejection test of the diffuse sampler.
    pub fn in_unit_sphere(self) -> (r: bool)
        requires
            in_bounds(self@, NORM_LIMIT as int),
        ensures
            r == (len_sq_raw(self@) < (SCALE as int) * (SCALE as int)),
    {
        let raw = len_sq_raw_i128(&self);
        raw < (SCALE as i128) * (SCALE as i128)
    }
}

/// One fixed-point scaling step: `c * s / SCALE`, rounded toward zero.
fn scale_component(c: i64, s: i64) -> (r: i64)
    requires
        -(i64::MAX as int) * (SCALE as int) <= (c as int) * (s as int) <= (i64::MAX as int) * (
        SCALE as int),
    ensures
        r == tdiv((c as int) * (s as int), SCALE as int),
{
    let p = (c as i128) * (s as i128);
    proof {
        lemma_abs_mul_bound(c as int, s as int, i64::MAX as int + 1, i64::MAX as int + 1);
        lemma_tdiv_bounds(p as int, SCALE as int, i64::MAX as int);
    }
    tdiv_i128(p, SCALE as i128) as i64
}

/// One fixed-point division step: `c * SCALE / s`, rounded toward zero.
fn div_component(c: i64, s: i64) -> (r: i64)
    requires
        1 <= s,
        -(DOT_LIMIT as int) <= c <= DOT_LIMIT as int,
    ensures
        r == tdiv((c as int) * (SCALE as int), s as int),
{
    let p = (c as i128) * (SCALE as i128);
    proof {
        lemma_abs_mul_bound(c as int, SCALE as int, DOT_LIMIT as int, SCALE as int);
        crate::num::lemma_tdiv_shrinks(p as int, s as int);
    }
    tdiv_i128(p, s as i128) as i64
}

/// The raw dot product in `i128`, exact under the `DOT_LIMIT` bound.
pub(crate) fn dot_raw_i128(a: &Vec3, b: &Vec3) -> (r: i128)
    requires
        in_bounds(a@, DOT_LIMIT as int),
        in_bounds(b@, DOT_LIMIT as int),
    ensures
        r == dot_raw(a@, b@),
        -3 * (DOT_LIMIT as int) * (DOT_LIMIT as int) <= r <= 3 * (DOT_LIMIT as int) * (
        DOT_LIMIT as int),
{
    proof {
        lemma_abs_mul_bound(a@.x, b@.x, DOT_LIMIT as int, DOT_LIMIT as int);
        lemma_abs_mul_bound(a@.y, b@.y, DOT_LIMIT as int, DOT_LIMIT as int);
        lemma_abs_mul_bound(a@.z, b@.z, DOT_LIMIT as int, DOT_LIMIT as int);
    }
    (a.x as i128) * (b.x as i128) + (a.y as i128) * (b.y as i128) + (a.z as i128) * (b.z as i128)
}

/// The raw squared length in `i128`, exact under the `NORM_LIMIT` bound.
pub fn len_sq_raw_i128(v: &Vec3) -> (r: i128)
    requires
        in_bounds(v@, NORM_LIMIT as int),
    ensures
        r == len_sq_raw(v@),
        0 <= r <= 3 * (NORM_LIMIT as int) * (NORM_LIMIT as int),
{
    proof {
        lemma_abs_mul_bound(v@.x, v@.x, NORM_LIMIT as int, NORM_LIMIT as int);
        lemma_abs_mul_bound(v@.y, v@.y, NORM_LIMIT as int, NORM_LIMIT as int);
        lemma_abs_mul_bound(v@.z, v@.z, NORM_LIMIT as int, NORM_LIMIT as int);
        assert(v@.x * v@.x >= 0) by (nonlinear_arith);
        assert(v@.y * v@.y >= 0) by (nonlinear_arith);
        assert(v@.z * v@.z >= 0) by (nonlinear_arith);
    }
    (v.x as i128) * (v.x as i128) + (v.y as i128) * (v.y as i128) + (v.z as i128) * (v.z as i128)
}

/// Normalization is meaningful only above this length (a tenth of a
/// unit): shorter vectors sit too close to the fixed-point granularity
/// for `unit` to carry any accuracy promise.
pub const UNIT_LEN_FLOOR: i64 = 100_000;

/// How far, in fixed-point units, the length of a unit vector may sit
/// from one (ten millionths on either side).
pub const UNIT_LEN_TOL: i64 = 10;

/// A truncating quotient, scaled back by the divisor, squares to at most
/// the dividend's square, and undershoots it by at most twice the
/// divisor times the dividend's magnitude.
proof fn lemma_tdiv_sq_bounds(t: int, b: int)
    requires
        0 < b,
    ensures
        (b * tdiv(t, b)) * (b * tdiv(t, b)) <= t * t,
        t >= 0 ==> (b * tdiv(t, b)) * (b * tdiv(t, b)) >= t * t - 2 * b * t,
        t < 0 ==> (b * tdiv(t, b)) * (b * tdiv(t, b)) >= t * t + 2 * b * t,
{
    if t >= 0 {
        let q = t / b;
        let m = t % b;
        lemma_fundamental_div_mod(t, b);
        lemma_mod_division_less_than_divisor(t, b);
        lemma_div_pos_is_pos(t, b);
        assert((b * q) * (b * q) <= t * t && (b * q) * (b * q) >= t * t - 2 * b * t)
            by (nonlinear_arith)
            requires
                t == b * q + m,
                0 <= m < b,
                0 <= q,
                0 < b,
        ;
    } else {
        let u = -t;
        let q = u / b;
        let m = u % b;
        lemma_fundamental_div_mod(u, b);
        lemma_mod_division_less_than_divisor(u, b);
        lemma_div_pos_is_pos(u, b);
        assert((b * q) * (b * q) <= u * u && (b * q) * (b * q) >= u * u - 2 * b * u)
            by (nonlinear_arith)
            requires
                u == b * q + m,
                0 <= m < b,
                0 <= q,
                0 < b,
        ;
        assert(tdiv(t, b) == -q);
        assert((b * -q) * (b * -q) == (b * q) * (b * q) && u * u == t * t && 2 * b * u == -(2 * b
            * t)) by (nonlinear_arith)
            requires
                u == -t,
        ;
    }
}

/// Above `UNIT_LEN_FLOOR`, normalization is accurate: the unit vector's
/// own length sits within `UNIT_LEN_TOL` of one unit. Below the floor
/// the componentwise rounding can dominate, and no accuracy is promised.
pub proof fn lemma_vunit_length(a: V3)
    requires
        in_bounds(a, NORM_LIMIT as int),
        vlen(a) >= UNIT_LEN_FLOOR,
    ensures
        (SCALE as int) - UNIT_LEN_TOL <= vlen(vunit(a)) <= (SCALE as int) + UNIT_LEN_TOL,
{
    lemma_len_sq_nonneg(a);
    let raw = len_sq_raw(a);
    lemma_sqrt_floor_exists(raw);
    let s = vlen(a);
    lemma_unit_component_bounds(a, s);
    let tx = a.x * (SCALE as int);
    let ty = a.y * (SCALE as int);
    let tz = a.z * (SCALE as int);
    let qx = tdiv(tx, s);
    let qy = tdiv(ty, s);
    let qz = tdiv(tz, s);
    lemma_tdiv_sq_bounds(tx, s);
    lemma_tdiv_sq_bounds(ty, s);
    lemma_tdiv_sq_bounds(tz, s);
    let u = vunit(a);
    assert(u.x == qx && u.y == qy && u.z == qz);
    let lsq = len_sq_raw(u);
    // scale each componentwise quotient bound up by the length squared
    assert((s * s) * (qx * qx) <= 1_000_000_000_000int * (a.x * a.x) && (s * s) * (qx * qx)
        >= 1_000_000_000_000int * (a.x * a.x) - 2 * (s * s) * 1_000_000int) by (nonlinear_arith)
        requires
            tx == a.x * 1_000_000int,
            (s * qx) * (s * qx) <= tx * tx,
            tx >= 0 ==> (s * qx) * (s * qx) >= tx * tx - 2 * s * tx,
            tx < 0 ==> (s * qx) * (s * qx) >= tx * tx + 2 * s * tx,
            -s <= a.x <= s,
            0 < s,
    ;
    assert((s * s) * (qy * qy) <= 1_000_000_000_000int * (a.y * a.y) && (s * s) * (qy * qy)
        >= 1_000_000_000_000int * (a.y * a.y) - 2 * (s * s) * 1_000_000int) by (nonlinear_arith)
        requires
            ty == a.y * 1_000_000int,
            (s * qy) * (s * qy) <= ty * ty,
            ty >= 0 ==> (s * qy) * (s * qy) >= ty * ty - 2 * s * ty,
            ty < 0 ==> (s * qy) * (s * qy) >= ty * ty + 2 * s * ty,
            -s <= a.y <= s,
            0 < s,
    ;
    assert((s * s) * (qz * qz) <= 1_000_000_000_000int * (a.z * a.z) && (s * s) * (qz * qz)
        >= 1_000_000_000_000int * (a.z * a.z) - 2 * (s * s) * 1_000_000int) by (nonlinear_arith)
        requires
            tz == a.z * 1_000_000int,
            (s * qz) * (s * qz) <= tz * tz,
            tz >= 0 ==> (s * qz) * (s * qz) >= tz * tz - 2 * s * tz,
            tz < 0 ==> (s * qz) * (s * qz) >= tz * tz + 2 * s * tz,
            -s <= a.z <= s,
            0 < s,
    ;
    // sum the three components
    assert(s * s * lsq <= 1_000_000_000_000int * raw && s * s * lsq >= 1_000_000_000_000int * raw
        - 6 * (s * s) * 1_000_000int) by (nonlinear_arith)
        requires
            lsq == qx * qx + qy * qy + qz * qz,
            raw == a.x * a.x + a.y * a.y + a.z * a.z,
            (s * s) * (qx * qx) <= 1_000_000_000_000int * (a.x * a.x),
            (s * s) * (qy * qy) <= 1_000_000_000_000int * (a.y * a.y),
            (s * s) * (qz * qz) <= 1_000_000_000_000int * (a.z * a.z),
            (s * s) * (qx * qx) >= 1_000_000_000_000int * (a.x * a.x) - 2 * (s * s) * 1_000_000int,
            (s * s) * (qy * qy) >= 1_000_000_000_000int * (a.y * a.y) - 2 * (s * s) * 1_000_000int,
            (s * s) * (qz * qz) >= 1_000_000_000_000int * (a.z * a.z) - 2 * (s * s) * 1_000_000int,
    ;
    // squeeze the squared length between two ground squares
    assert(lsq >= (1_000_000int - 4) * (1_000_000int - 4) && lsq < (1_000_000int + 10) * (
    1_000_000int + 10)) by (nonlinear_arith)
        requires
            s * s * lsq <= 1_000_000_000_000int * raw,
            s * s * lsq >= 1_000_000_000_000int * raw - 6 * (s * s) * 1_000_000int,
            s * s <= raw,
            raw < (s + 1) * (s + 1),
            100_000 <= s,
    ;
    lemma_len_sq_nonneg(u);
    lemma_sqrt_floor_exists(lsq);
    let w = vlen(u);
    assert(w >= 1_000_000int - 10) by (nonlinear_arith)
        requires
            lsq >= (1_000_000int - 4) * (1_000_000int - 4),
            lsq < (w + 1) * (w + 1),
            0 <= w,
    ;
    assert(w <= 1_000_000int + 10) by (nonlinear_arith)
        requires
            lsq < (1_000_000int + 10) * (1_000_000int + 10),
            w * w <= lsq,
            0 <= w,
    ;
}

/// A squared length is never negative, and vanishes exactly on the zero
/// vector.
pub proof fn lemma_len_sq_nonneg(a: V3)
    by (nonlinear_arith)
    ensures
        len_sq_raw(a) >= 0,
        len_sq_raw(a) > 0 <==> (a.x != 0 || a.y != 0 || a.z != 0),
{
}

/// The unit vector of a nonzero bounded vector keeps every component
/// within one unit.
pub proof fn lemma_vunit_bounded(a: V3)
    requires
        in_bounds(a, NORM_LIMIT as int),
        len_sq_raw(a) > 0,
    ensures
        in_bounds(vunit(a), SCALE as int),
{
    lemma_sqrt_floor_exists(len_sq_raw(a));
    let s = vlen(a);
    assert(s >= 1) by (nonlinear_arith)
        requires
            0 < len_sq_raw(a),
            len_sq_raw(a) < (s + 1) * (s + 1),
            0 <= s,
    ;
    lemma_unit_component_bounds(a, s);
    lemma_tdiv_bounds(a.x * (SCALE as int), s, SCALE as int);
    lemma_tdiv_bounds(a.y * (SCALE as int), s, SCALE as int);
    lemma_tdiv_bounds(a.z * (SCALE as int), s, SCALE as int);
}

/// One descaled quotient-times-component term of `unit(a) . a` is never
/// negative: the quotient carries the component's sign.
proof fn lemma_unit_term_nonneg(c: int, s: int)
    requires
        1 <= s,
    ensures
        tdiv(c * (SCALE as int), s) * c >= 0,
{
    lemma_tdiv_shrinks(c * (SCALE as int), s);
    if c >= 0 {
        assert(c * (SCALE as int) >= 0) by (nonlinear_arith)
            requires
                c >= 0,
        ;
        assert(tdiv(c * (SCALE as int), s) * c >= 0) by (nonlinear_arith)
            requires
                tdiv(c * (SCALE as int), s) >= 0,
                c >= 0,
        ;
    } else {
        assert(c * (SCALE as int) < 0) by (nonlinear_arith)
            requires
                c < 0,
        ;
        assert(tdiv(c * (SCALE as int), s) * c >= 0) by (nonlinear_arith)
            requires
                tdiv(c * (SCALE as int), s) <= 0,
                c < 0,
        ;
    }
}

/// When a component is at least half the length, its term of
/// `unit(a) . a` contributes at least one whole unit.
proof fn lemma_unit_term_pos(c: int, s: int)
    requires
        1 <= s,
        s <= 2 * c || s <= -2 * c,
    ensures
        tdiv(c * (SCALE as int), s) * c >= 1,
{
    if c > 0 {
        assert(c * (SCALE as int) >= s);
        lemma_div_is_ordered(s, c * (SCALE as int), s);
        lemma_div_multiples_vanish(1, s);
        assert(tdiv(c * (SCALE as int), s) >= 1);
        assert(tdiv(c * (SCALE as int), s) * c >= 1) by (nonlinear_arith)
            requires
                tdiv(c * (SCALE as int), s) >= 1,
                c >= 1,
        ;
    } else {
        assert(c < 0);
        let m = -c;
        assert(m * (SCALE as int) >= s);
        lemma_div_is_ordered(s, m * (SCALE as int), s);
        lemma_div_multiples_vanish(1, s);
        assert(tdiv(m * (SCALE as int), s) >= 1);
        assert(c * (SCALE as int) == -(m * (SCALE as int)));
        assert(tdiv(c * (SCALE as int), s) == -tdiv(m * (SCALE as int), s));
        assert((-tdiv(m * (SCALE as int), s)) * c >= 1) by (nonlinear_arith)
            requires
                tdiv(m * (SCALE as int), s) >= 1,
                c <= -1,
        ;
    }
}

/// The unit vector of a nonzero vector points along it: their raw dot
/// product is strictly positive.
pub proof fn lemma_vunit_outward(a: V3)
    requires
        in_bounds(a, NORM_LIMIT as int),
        len_sq_raw(a) > 0,
    ensures
        dot_raw(vunit(a), a) > 0,
{
    lemma_sqrt_floor_exists(len_sq_raw(a));
    let s = vlen(a);
    assert(s >= 1) by (nonlinear_arith)
        requires
            0 < len_sq_raw(a),
            len_sq_raw(a) < (s + 1) * (s + 1),
            0 <= s,
    ;
    lemma_unit_term_nonneg(a.x, s);
    lemma_unit_term_nonneg(a.y, s);
    lemma_unit_term_nonneg(a.z, s);
    let xx = a.x * a.x;
    let yy = a.y * a.y;
    let zz = a.z * a.z;
    if xx >= yy && xx >= zz {
        assert(s <= 2 * a.x || s <= -2 * a.x) by (nonlinear_arith)
            requires
                s * s <= 3 * (a.x * a.x),
                0 <= s,
        ;
        lemma_unit_term_pos(a.x, s);
    } else if yy >= zz {
        assert(s <= 2 * a.y || s <= -2 * a.y) by (nonlinear_arith)
            requires
                s * s <= 3 * (a.y * a.y),
                0 <= s,
        ;
        lemma_unit_term_pos(a.y, s);
    } else {
        assert(s <= 2 * a.z || s <= -2 * a.z) by (nonlinear_arith)
            requires
                s * s <= 3 * (a.z * a.z),
                0 <= s,
        ;
        lemma_unit_term_pos(a.z, s);
    }
}

/// No component of a vector outruns the vector's own length, so each
/// component of the unit vector stays within one unit.
proof fn lemma_unit_component_bounds(a: V3, s: int)
    requires
        is_sqrt(len_sq_raw(a), s),
    ensures
        -s <= a.x <= s,
        -s <= a.y <= s,
        -s <= a.z <= s,
        -(s * (SCALE as int)) <= a.x * (SCALE as int) <= s * (SCALE as int),
        -(s * (SCALE as int)) <= a.y * (SCALE as int) <= s * (SCALE as int),
        -(s * (SCALE as int)) <= a.z * (SCALE as int) <= s * (SCALE as int),
{
    assert(-s <= a.x <= s && -s <= a.y <= s && -s <= a.z <= s) by (nonlinear_arith)
        requires
            is_sqrt(len_sq_raw(a), s),
    ;
    lemma_abs_mul_bound(a.x, SCALE as int, s, SCALE as int);
    lemma_abs_mul_bound(a.y, SCALE as int, s, SCALE as int);
    lemma_abs_mul_bound(a.z, SCALE as int, s, SCALE as int);
}

} // verus!
