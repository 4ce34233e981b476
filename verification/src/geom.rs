//! Scene geometry and materials: the sphere primitive with its quadratic
//! intersection test, hit records, and the two material models.

use vstd::prelude::*;
use crate::num::{
    isqrt_u128, lemma_sqrt_floor_is, lemma_tdiv_bounds, sqrt_floor, tdiv, tdiv_i128, SCALE,
};
use crate::ray::{lemma_point_at_bounded, point_at, Ray, RayV, POINT_LIMIT, T_LIMIT};
use crate::vec::{
    dot_raw, dot_raw_i128, in_bounds, lemma_abs_mul_bound, lemma_len_sq_nonneg,
    lemma_vunit_outward, len_sq_raw, len_sq_raw_i128, vadd, vlen, vreflect,
    vscale, vsub, vunit, Vec3, COORD_LIMIT, UNIT_LEN_FLOOR, UNIT_LEN_TOL, V3,
};

verus! {

/// Hits closer along the ray than this are rejected, so a scattered ray
/// does not immediately re-intersect the surface it left (0.001 units).
pub const EPS_T: i64 = 1_000;

/// Magnitude of the perturbation a metal surface adds to its mirror
/// reflection (0.1 units).
pub const FUZZ: i64 = 100_000;

/// A diffuse material: scatters around the surface normal, tinting by its
/// albedo.
#[derive(Debug, Clone, Copy, PartialEq, Eq, Structural)]
pub struct Lambertian {
    pub albedo: Vec3,
}

/// A glossy reflective material: mirrors the incoming ray with a small
/// fuzz, tinting by its albedo.
#[derive(Debug, Clone, Copy, PartialEq, Eq, Structural)]
pub struct Metal {
    pub albedo: Vec3,
}

/// The closed set of materials a surface can carry.
#[derive(Debug, Clone, Copy, PartialEq, Eq, Structural)]
pub enum Material {
    Lambertian(Lambertian),
    Metal(Metal),
}

/// The reflectance color of a material.
pub open spec fn albedo_of(m: Material) -> V3 {
    match m {
        Material::Lambertian(l) => l.albedo@,
        Material::Metal(l) => l.albedo@,
    }
}

/// One presampled random perturbation: a point of the unit sphere's
/// surface for diffuse scattering, and a point strictly inside the unit
/// sphere for metal fuzz.
#[derive(Debug, Clone, Copy, PartialEq, Eq, Structural)]
pub struct ScatterSample {
    pub unit: Vec3,
    pub ball: Vec3,
}

/// Both perturbation vectors stay within twice the unit scale.
pub open spec fn wf_sample(s: ScatterSample) -> bool {
    &&& in_bounds(s.unit@, 2 * (SCALE as int))
    &&& in_bounds(s.ball@, 2 * (SCALE as int))
}

/// The direction a material scatters into, given the incoming direction,
/// the outward unit normal, and the presampled perturbation.
pub open spec fn scatter_dir(m: Material, in_dir: V3, normal: V3, s: ScatterSample) -> V3 {
    match m {
        Material::Lambertian(_) => vadd(normal, s.unit@),
        Material::Metal(_) => vadd(vreflect(in_dir, normal), vscale(s.ball@, FUZZ as int)),
    }
}

impl Material {
    /// Scatter an incoming ray at a hit: the returned attenuation is this
    /// material's albedo, and the returned ray starts at the intersection
    /// and points along the material's scatter rule.
    pub fn scatter(&self, r_in: &Ray, intersection: &Vec3, normal: &Vec3, sample: &ScatterSample)
        -> (out: (Vec3, Ray))
        requires
            in_bounds(r_in@.direction, COORD_LIMIT as int),
            in_bounds(normal@, 2 * (SCALE as int)),
            wf_sample(*sample),
        ensures
            out.0@ == albedo_of(*self),
            out.1@.origin == intersection@,
            out.1@.direction == scatter_dir(*self, r_in@.direction, normal@, *sample),
    {
        match self {
            Material::Lambertian(l) => {
                let dir = normal.add(sample.unit);
                (l.albedo, Ray::new(*intersection, dir))
            },
            Material::Metal(m) => {
                let refl = r_in.direction.reflect(*normal);
                proof {
                    lemma_abs_mul_bound(
                        sample.ball@.x,
                        FUZZ as int,
                        2 * (SCALE as int),
                        FUZZ as int,
                    );
                    lemma_abs_mul_bound(
                        sample.ball@.y,
                        FUZZ as int,
                        2 * (SCALE as int),
                        FUZZ as int,
                    );
                    lemma_abs_mul_bound(
                        sample.ball@.z,
                        FUZZ as int,
                        2 * (SCALE as int),
                        FUZZ as int,
                    );
                    lemma_tdiv_bounds(sample.ball@.x * (FUZZ as int), SCALE as int, 200_000int);
                    lemma_tdiv_bounds(sample.ball@.y * (FUZZ as int), SCALE as int, 200_000int);
                    lemma_tdiv_bounds(sample.ball@.z * (FUZZ as int), SCALE as int, 200_000int);
                }
                let fuzz = sample.ball.scale(FUZZ);
                let dir = refl.add(fuzz);
                (m.albedo, Ray::new(*intersection, dir))
            },
        }
    }
}

/// What a successful intersection reports, mathematically.
pub struct HitV {
    pub t: int,
    pub intersection: V3,
    pub normal: V3,
    pub mat: Material,
}

/// What a successful intersection reports: the ray parameter, the point,
/// the outward unit normal there, and the material of the surface.
#[derive(Debug, Clone, Copy)]
pub struct HitRecord {
    pub t: i64,
    pub intersection: Vec3,
    pub normal: Vec3,
    pub mat: Material,
}

impl View for HitRecord {
    type V = HitV;

    open spec fn view(&self) -> HitV {
        HitV {
            t: self.t as int,
            intersection: self.intersection@,
            normal: self.normal@,
            mat: self.mat,
        }
    }
}

/// The mathematical value of an optional hit record.
pub open spec fn opt_hit_view(h: Option<HitRecord>) -> Option<HitV> {
    match h {
        Option::None => Option::None,
        Option::Some(rec) => Option::Some(rec@),
    }
}

/// The mathematical value of a `Sphere`.
pub struct SphereV {
    pub center: V3,
    pub radius: int,
    pub mat: Material,
}

/// A sphere: center, radius, and the material of its surface.
#[derive(Debug, Clone, Copy, PartialEq, Eq, Structural)]
pub struct Sphere {
    pub center: Vec3,
    pub radius: i64,
    pub mat: Material,
}

impl View for Sphere {
    type V = SphereV;

    open spec fn view(&self) -> SphereV {
        SphereV { center: self.center@, radius: self.radius as int, mat: self.mat }
    }
}

/// A vector the tracer's exact arithmetic admits.
pub open spec fn wf_vec(v: V3) -> bool {
    in_bounds(v, COORD_LIMIT as int)
}

/// A ray the tracer's exact arithmetic admits: bounded, with a nonzero
/// direction.
pub open spec fn wf_ray(r: RayV) -> bool {
    &&& wf_vec(r.origin)
    &&& wf_vec(r.direction)
    &&& len_sq_raw(r.direction) > 0
}

/// Every channel of an albedo lies in `[0, 1]`.
pub open spec fn albedo_ok(a: V3) -> bool {
    &&& 0 <= a.x <= SCALE as int
    &&& 0 <= a.y <= SCALE as int
    &&& 0 <= a.z <= SCALE as int
}

/// A material whose albedo reflects no more light than arrived.
pub open spec fn wf_material(m: Material) -> bool {
    albedo_ok(albedo_of(m))
}

/// A sphere the tracer's exact arithmetic admits.
pub open spec fn wf_sphere(s: SphereV) -> bool {
    &&& wf_vec(s.center)
    &&& 0 < s.radius <= COORD_LIMIT as int
    &&& wf_material(s.mat)
}

/// `a` of the intersection quadratic `a t^2 + b t + c = 0` (raw scale).
pub open spec fn hit_qa(s: SphereV, r: RayV) -> int {
    len_sq_raw(r.direction)
}

/// `b` of the intersection quadratic (raw scale).
pub open spec fn hit_qb(s: SphereV, r: RayV) -> int {
    2 * dot_raw(r.direction, vsub(r.origin, s.center))
}

/// `c` of the intersection quadratic (raw scale).
pub open spec fn hit_qc(s: SphereV, r: RayV) -> int {
    len_sq_raw(vsub(r.origin, s.center)) - s.radius * s.radius
}

/// The discriminant `b^2 - 4 a c` of the intersection quadratic. Its sign
/// agrees with the sign of the real discriminant, since the raw scale
/// enters both terms four times.
pub open spec fn hit_disc(s: SphereV, r: RayV) -> int {
    hit_qb(s, r) * hit_qb(s, r) - 4 * hit_qa(s, r) * hit_qc(s, r)
}

/// The smaller quadratic root `(-b - sqrt(disc)) / (2 a)` as a fixed-point
/// ray parameter, rounded toward zero.
pub open spec fn hit_root(s: SphereV, r: RayV) -> int {
    tdiv((-hit_qb(s, r) - sqrt_floor(hit_disc(s, r))) * (SCALE as int), 2 * hit_qa(s, r))
}

/// The one no-hit case exact arithmetic adds beyond the real-valued rule
/// (discriminant not positive, or root outside the guard window): the
/// rounded hit point landing exactly on the sphere's center, where no
/// outward normal exists. Real-valued arithmetic has no such case; here
/// it can arise only for geometry near the fixed-point granularity, and
/// the tracer reports it as a miss rather than divide by zero. This is a
/// deliberate, visible deviation from the real-valued characterization
/// of "no hit".
pub open spec fn degenerate_hit(s: SphereV, r: RayV) -> bool {
    len_sq_raw(vsub(point_at(r, hit_root(s, r)), s.center)) == 0
}

/// The full intersection rule of a sphere: a hit exists exactly when the
/// discriminant is positive, the smaller root lies strictly between the
/// acne guard and `t_max`, and the rounded hit point is not degenerate
/// (see `degenerate_hit`). The normal is the outward unit vector at the
/// hit point.
pub open spec fn sphere_hit(s: SphereV, r: RayV, t_max: int) -> Option<HitV> {
    let disc = hit_disc(s, r);
    if disc <= 0 {
        Option::None
    } else {
        let t = hit_root(s, r);
        if EPS_T < t && t < t_max && !degenerate_hit(s, r) {
            let p = point_at(r, t);
            Option::Some(
                HitV { t, intersection: p, normal: vunit(vsub(p, s.center)), mat: s.mat },
            )
        } else {
            Option::None
        }
    }
}

/// Whether a vector lies within the tracer's working bounds.
pub fn wf_vec_check(v: &Vec3) -> (b: bool)
    ensures
        b == wf_vec(v@),
{
    -COORD_LIMIT <= v.x && v.x <= COORD_LIMIT && -COORD_LIMIT <= v.y && v.y <= COORD_LIMIT
        && -COORD_LIMIT <= v.z && v.z <= COORD_LIMIT
}

/// Whether a ray lies within the tracer's working bounds and has a
/// nonzero direction.
pub fn wf_ray_check(r: &Ray) -> (b: bool)
    ensures
        b == wf_ray(r@),
{
    if wf_vec_check(&r.origin) && wf_vec_check(&r.direction) {
        let raw = len_sq_raw_i128(&r.direction);
        raw > 0
    } else {
        false
    }
}

/// Whether both perturbation vectors of a sample lie within bounds.
pub fn wf_sample_check(s: &ScatterSample) -> (b: bool)
    ensures
        b == wf_sample(*s),
{
    let m = 2 * SCALE;
    -m <= s.unit.x && s.unit.x <= m && -m <= s.unit.y && s.unit.y <= m && -m <= s.unit.z
        && s.unit.z <= m && -m <= s.ball.x && s.ball.x <= m && -m <= s.ball.y && s.ball.y <= m
        && -m <= s.ball.z && s.ball.z <= m
}

/// A ray whose discriminant against a sphere is not positive misses it:
/// no hit is reported, whatever the search bound.
pub proof fn lemma_no_hit_when_disc_nonpositive(s: SphereV, r: RayV, t_max: int)
    requires
        hit_disc(s, r) <= 0,
    ensures
        sphere_hit(s, r, t_max) is None,
{
}

/// Any accepted hit's normal points outward: its raw dot product with the
/// vector from the sphere's center to the intersection is strictly
/// positive.
pub proof fn lemma_hit_normal_outward(s: SphereV, r: RayV, t_max: int)
    requires
        wf_sphere(s),
        wf_ray(r),
        0 <= t_max <= T_LIMIT as int,
    ensures
        sphere_hit(s, r, t_max) matches Option::Some(h) ==> dot_raw(
            h.normal,
            vsub(h.intersection, s.center),
        ) > 0,
{
    match sphere_hit(s, r, t_max) {
        Option::Some(h) => {
            let t = hit_root(s, r);
            let p = point_at(r, t);
            let d = vsub(p, s.center);
            lemma_point_at_bounded(r, t);
            lemma_len_sq_nonneg(d);
            lemma_vunit_outward(d);
        },
        Option::None => {},
    }
}

impl Sphere {
    /// Intersect a ray with this sphere, accepting only parameters in
    /// `(EPS_T, t_max)`; the result is exactly `sphere_hit`.
    #[verifier::rlimit(30)]
    pub fn hit(&self, r: &Ray, t_max: i64) -> (h: Option<HitRecord>)
        requires
            wf_sphere(self@),
            wf_ray(r@),
            0 <= t_max <= T_LIMIT,
        ensures
            opt_hit_view(h) == sphere_hit(self@, r@, t_max as int),
            h is None <==> (hit_disc(self@, r@) <= 0 || hit_root(self@, r@) <= EPS_T || hit_root(
                self@,
                r@,
            ) >= t_max || degenerate_hit(self@, r@)),
            h matches Some(rec) ==> {
                &&& EPS_T < rec@.t < t_max
                &&& in_bounds(rec@.normal, SCALE as int)
                &&& in_bounds(rec@.intersection, POINT_LIMIT as int)
                &&& rec@.mat == self@.mat
                &&& (vlen(vsub(rec@.intersection, self@.center)) >= UNIT_LEN_FLOOR ==> (
                SCALE as int) - UNIT_LEN_TOL <= vlen(rec@.normal) <= (SCALE as int) + UNIT_LEN_TOL)
            },
    {
        let oc = r.origin.sub(self.center);
        proof {
            lemma_abs_mul_bound(r@.direction.x, r@.direction.x, COORD_LIMIT as int, COORD_LIMIT as int);
            lemma_abs_mul_bound(r@.direction.y, r@.direction.y, COORD_LIMIT as int, COORD_LIMIT as int);
            lemma_abs_mul_bound(r@.direction.z, r@.direction.z, COORD_LIMIT as int, COORD_LIMIT as int);
            lemma_abs_mul_bound(r@.direction.x, oc@.x, COORD_LIMIT as int, 2 * (COORD_LIMIT as int));
            lemma_abs_mul_bound(r@.direction.y, oc@.y, COORD_LIMIT as int, 2 * (COORD_LIMIT as int));
            lemma_abs_mul_bound(r@.direction.z, oc@.z, COORD_LIMIT as int, 2 * (COORD_LIMIT as int));
            lemma_abs_mul_bound(oc@.x, oc@.x, 2 * (COORD_LIMIT as int), 2 * (COORD_LIMIT as int));
            lemma_abs_mul_bound(oc@.y, oc@.y, 2 * (COORD_LIMIT as int), 2 * (COORD_LIMIT as int));
            lemma_abs_mul_bound(oc@.z, oc@.z, 2 * (COORD_LIMIT as int), 2 * (COORD_LIMIT as int));
            lemma_abs_mul_bound(self@.radius, self@.radius, COORD_LIMIT as int, COORD_LIMIT as int);
        }
        let a128 = len_sq_raw_i128(&r.direction);
        let half_b = dot_raw_i128(&r.direction, &oc);
        let oc_sq = len_sq_raw_i128(&oc);
        let rsq = (self.radius as i128) * (self.radius as i128);
        let b128 = 2 * half_b;
        let c128 = oc_sq - rsq;
        proof {
            lemma_abs_mul_bound(b128 as int, b128 as int, 750_000_000_000_000_000int, 750_000_000_000_000_000int);
            lemma_abs_mul_bound(4 * (a128 as int), c128 as int, 750_000_000_000_000_000int, 812_500_000_000_000_000int);
        }
        let disc = b128 * b128 - 4 * a128 * c128;
        assert(disc == hit_disc(self@, r@));
        if disc <= 0 {
            Option::None
        } else {
            let sq = isqrt_u128(disc as u128);
            proof {
                lemma_sqrt_floor_is(disc as int, sq as int);
                assert(sq as int <= 1_200_000_000_000_000_000int) by (nonlinear_arith)
                    requires
                        (sq as int) * (sq as int) <= disc as int,
                        disc as int <= 1_400_000_000_000_000_000_000_000_000_000_000_000int,
                        0 <= sq as int,
                ;
            }
            let nb = -b128 - (sq as i128);
            proof {
                lemma_abs_mul_bound(
                    nb as int,
                    SCALE as int,
                    2_000_000_000_000_000_000int,
                    SCALE as int,
                );
            }
            let num = nb * (SCALE as i128);
            let t128 = tdiv_i128(num, 2 * a128);
            assert(t128 == hit_root(self@, r@));
            if (EPS_T as i128) < t128 && t128 < (t_max as i128) {
                let t = t128 as i64;
                let p = r.point_at_parameter(t);
                let d = p.sub(self.center);
                let dsq = len_sq_raw_i128(&d);
                if dsq == 0 {
                    Option::None
                } else {
                    let n = d.unit();
                    Option::Some(HitRecord { t, intersection: p, normal: n, mat: self.mat })
                }
            } else {
                Option::None
            }
        }
    }
}

} // verus!
