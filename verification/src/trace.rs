//! The recursive radiance estimator: walk the scene for the nearest hit,
//! scatter at the material, recurse with a decremented depth budget, or
//! fall back to the sky gradient when nothing is hit.

use vstd::prelude::*;
use crate::geom::{
    albedo_of, albedo_ok, scatter_dir, wf_ray, wf_ray_check, wf_sample, ScatterSample, Sphere,
};
use crate::num::{
    lemma_sqrt_square, lemma_tdiv_le_factor, lemma_tdiv_multiple, lemma_tdiv_multiple_left, tdiv,
    SCALE,
};
use crate::ray::{Ray, RayV, T_LIMIT};
use crate::scene::{lemma_scene_hit_material, nearest_hit, scene_hit, wf_scene, Scene};
use crate::vec::{
    in_bounds, lemma_abs_mul_bound, lemma_vunit_bounded, len_sq_raw, vadd, vlen, vmul, vscale,
    vunit, Vec3, COORD_LIMIT, NORM_LIMIT, V3,
};

verus! {

/// Black: no radiance.
pub open spec fn black_v() -> V3 {
    V3 { x: 0, y: 0, z: 0 }
}

/// White, the bottom of the sky gradient.
pub open spec fn white_v() -> V3 {
    V3 { x: SCALE as int, y: SCALE as int, z: SCALE as int }
}

/// Sky blue, the top of the sky gradient.
pub open spec fn sky_v() -> V3 {
    V3 { x: 500_000, y: 700_000, z: 1_000_000 }
}

/// The gradient parameter: the unit direction's vertical component,
/// mapped from `[-1, 1]` to `[0, 1]`.
pub open spec fn background_t(dir: V3) -> int {
    tdiv(vunit(dir).y + SCALE as int, 2)
}

/// The background a missed ray sees: white blended toward sky blue as the
/// direction tilts upward.
pub open spec fn background(dir: V3) -> V3 {
    vadd(vscale(white_v(), SCALE as int - background_t(dir)), vscale(sky_v(), background_t(dir)))
}

/// One light path, mathematically. A zero depth budget returns black; a
/// missed ray returns the background; a hit scatters at the material,
/// consuming the perturbation at index `at`, and tints the recursively
/// estimated light by the albedo. A scattered ray that leaves the
/// tracer's exact-arithmetic bounds ends the path with black, as an
/// exhausted depth budget would.
pub open spec fn radiance(
    objs: Seq<Sphere>,
    r: RayV,
    depth: int,
    samples: Seq<ScatterSample>,
    at: int,
) -> V3
    decreases depth,
{
    if depth <= 0 {
        black_v()
    } else {
        match scene_hit(objs, r, T_LIMIT as int) {
            Option::None => background(r.direction),
            Option::Some(h) => {
                let d = scatter_dir(h.mat, r.direction, h.normal, samples[at]);
                let r2 = RayV { origin: h.intersection, direction: d };
                if wf_ray(r2) {
                    vmul(albedo_of(h.mat), radiance(objs, r2, depth - 1, samples, at + 1))
                } else {
                    black_v()
                }
            },
        }
    }
}

/// How many presampled perturbations one light path consumes: one per
/// bounce actually taken.
pub open spec fn samples_used(
    objs: Seq<Sphere>,
    r: RayV,
    depth: int,
    samples: Seq<ScatterSample>,
    at: int,
) -> int
    decreases depth,
{
    if depth <= 0 {
        0
    } else {
        match scene_hit(objs, r, T_LIMIT as int) {
            Option::None => 0,
            Option::Some(h) => {
                let d = scatter_dir(h.mat, r.direction, h.normal, samples[at]);
                let r2 = RayV { origin: h.intersection, direction: d };
                if wf_ray(r2) {
                    1 + samples_used(objs, r2, depth - 1, samples, at + 1)
                } else {
                    1
                }
            },
        }
    }
}

/// One step of the estimator, written out: with depth budget left, a ray
/// that hits a surface returns the surface's albedo multiplied
/// componentwise into the estimate for the scattered ray at one less
/// depth — the attenuation-multiply rule — provided the scattered ray
/// stays within the tracer's working bounds (else the path ends black);
/// a ray that hits nothing returns the background.
pub proof fn lemma_radiance_scatter_step(
    objs: Seq<Sphere>,
    r: RayV,
    depth: int,
    samples: Seq<ScatterSample>,
    at: int,
)
    requires
        depth > 0,
    ensures
        match scene_hit(objs, r, T_LIMIT as int) {
            Option::Some(h) => radiance(objs, r, depth, samples, at) == ({
                let r2 = (RayV {
                    origin: h.intersection,
                    direction: scatter_dir(h.mat, r.direction, h.normal, samples[at]),
                });
                if wf_ray(r2) {
                    vmul(albedo_of(h.mat), radiance(objs, r2, depth - 1, samples, at + 1))
                } else {
                    black_v()
                }
            }),
            Option::None => radiance(objs, r, depth, samples, at) == background(r.direction),
        },
{
}

/// A path never consumes more perturbations than its depth budget.
pub proof fn lemma_samples_used_bounds(
    objs: Seq<Sphere>,
    r: RayV,
    depth: int,
    samples: Seq<ScatterSample>,
    at: int,
)
    requires
        0 <= depth,
    ensures
        0 <= samples_used(objs, r, depth, samples, at) <= depth,
    decreases depth,
{
    if depth > 0 {
        match scene_hit(objs, r, T_LIMIT as int) {
            Option::None => {},
            Option::Some(h) => {
                let d = scatter_dir(h.mat, r.direction, h.normal, samples[at]);
                let r2 = RayV { origin: h.intersection, direction: d };
                if wf_ray(r2) {
                    lemma_samples_used_bounds(objs, r2, depth - 1, samples, at + 1);
                }
            },
        }
    }
}

/// The background never leaves `[0, 1]` in any channel.
pub proof fn lemma_background_bounded(dir: V3)
    requires
        in_bounds(dir, NORM_LIMIT as int),
        len_sq_raw(dir) > 0,
    ensures
        albedo_ok(background(dir)),
{
    lemma_vunit_bounded(dir);
    let t = background_t(dir);
    assert(0 <= t <= SCALE as int);
    lemma_tdiv_multiple_left(SCALE as int, SCALE as int - t);
    lemma_tdiv_le_factor(500_000int, SCALE as int, t);
    lemma_tdiv_le_factor(700_000int, SCALE as int, t);
    lemma_tdiv_le_factor(1_000_000int, SCALE as int, t);
}

/// A ray straight up against an empty sky sees exactly the sky color; a
/// ray straight down, exactly white — whatever the direction's length.
pub proof fn lemma_background_vertical(k: int)
    requires
        0 < k <= NORM_LIMIT as int,
    ensures
        background(V3 { x: 0, y: k, z: 0 }) == sky_v(),
        background(V3 { x: 0, y: -k, z: 0 }) == white_v(),
{
    let up = V3 { x: 0, y: k, z: 0 };
    let dn = V3 { x: 0, y: -k, z: 0 };
    assert((-k) * (-k) == k * k && (-k) * (SCALE as int) == -(k * (SCALE as int)) && k * (
    SCALE as int) > 0) by (nonlinear_arith)
        requires
            k >= 1,
    ;
    assert(len_sq_raw(up) == k * k);
    assert(len_sq_raw(dn) == k * k);
    lemma_sqrt_square(k);
    assert(vlen(up) == k && vlen(dn) == k);
    lemma_tdiv_multiple_left(k, SCALE as int);
    lemma_tdiv_multiple(0, k);
    assert(vunit(up).y == SCALE as int);
    assert(tdiv((-k) * (SCALE as int), k) == -(SCALE as int));
    assert(vunit(dn).y == -(SCALE as int));
    assert(background_t(up) == SCALE as int);
    assert(background_t(dn) == 0);
    lemma_tdiv_multiple(500_000int, SCALE as int);
    lemma_tdiv_multiple(700_000int, SCALE as int);
    lemma_tdiv_multiple(1_000_000int, SCALE as int);
    lemma_tdiv_multiple_left(SCALE as int, SCALE as int);
    lemma_tdiv_multiple_left(SCALE as int, 0);
    lemma_tdiv_multiple(0, SCALE as int);
}

/// Energy conservation: with a well-formed scene (all albedos within
/// `[0, 1]`), no path returns a color outside `[0, 1]` in any channel,
/// and a path that scatters returns no more than the albedo of the first
/// surface it hit — the incoming light, itself at most one unit from the
/// background, shrinks under every attenuation along the path.
pub proof fn lemma_radiance_energy_bound(
    objs: Seq<Sphere>,
    r: RayV,
    depth: int,
    samples: Seq<ScatterSample>,
    at: int,
)
    requires
        wf_scene(objs),
        wf_ray(r),
    ensures
        albedo_ok(radiance(objs, r, depth, samples, at)),
        depth > 0 ==> match scene_hit(objs, r, T_LIMIT as int) {
            Option::Some(h) => {
                &&& radiance(objs, r, depth, samples, at).x <= albedo_of(h.mat).x
                &&& radiance(objs, r, depth, samples, at).y <= albedo_of(h.mat).y
                &&& radiance(objs, r, depth, samples, at).z <= albedo_of(h.mat).z
            },
            Option::None => true,
        },
    decreases depth,
{
    if depth <= 0 {
    } else {
        match scene_hit(objs, r, T_LIMIT as int) {
            Option::None => {
                lemma_background_bounded(r.direction);
            },
            Option::Some(h) => {
                lemma_scene_hit_material(objs, r, T_LIMIT as int);
                let a = albedo_of(h.mat);
                let d = scatter_dir(h.mat, r.direction, h.normal, samples[at]);
                let r2 = RayV { origin: h.intersection, direction: d };
                if wf_ray(r2) {
                    lemma_radiance_energy_bound(objs, r2, depth - 1, samples, at + 1);
                    let c = radiance(objs, r2, depth - 1, samples, at + 1);
                    lemma_tdiv_le_factor(c.x, SCALE as int, a.x);
                    lemma_tdiv_le_factor(c.y, SCALE as int, a.y);
                    lemma_tdiv_le_factor(c.z, SCALE as int, a.z);
                }
            },
        }
    }
}

/// The sky gradient for a missed ray.
pub fn background_color(dir: &Vec3) -> (c: Vec3)
    requires
        in_bounds(dir@, COORD_LIMIT as int),
        len_sq_raw(dir@) > 0,
    ensures
        c@ == background(dir@),
        albedo_ok(c@),
{
    let u = dir.unit();
    let y = u.y();
    let t = (((y + SCALE) as u64) / 2) as i64;
    let st = SCALE - t;
    let white = Vec3::ones();
    let sky = Vec3::new(500_000, 700_000, 1_000_000);
    proof {
        assert(t == background_t(dir@));
        assert(0 <= t <= SCALE);
        lemma_abs_mul_bound(white@.x, st as int, 1_000_000int, 1_000_000int);
        lemma_abs_mul_bound(white@.y, st as int, 1_000_000int, 1_000_000int);
        lemma_abs_mul_bound(white@.z, st as int, 1_000_000int, 1_000_000int);
        lemma_abs_mul_bound(sky@.x, t as int, 1_000_000int, 1_000_000int);
        lemma_abs_mul_bound(sky@.y, t as int, 1_000_000int, 1_000_000int);
        lemma_abs_mul_bound(sky@.z, t as int, 1_000_000int, 1_000_000int);
        lemma_tdiv_multiple_left(SCALE as int, st as int);
        lemma_tdiv_le_factor(500_000int, SCALE as int, t as int);
        lemma_tdiv_le_factor(700_000int, SCALE as int, t as int);
        lemma_tdiv_le_factor(1_000_000int, SCALE as int, t as int);
    }
    let a = white.scale(st);
    let b = sky.scale(t);
    a.add(b)
}

/// Estimate the light arriving along `r` through `scene`: the entry point
/// of the tracer. `samples` supplies one presampled perturbation per
/// possible bounce, starting at index `at`; the result carries the color
/// and the index of the first unconsumed perturbation. A zero depth
/// budget yields exactly black.
pub fn estimate_radiance(
    r: &Ray,
    scene: &Scene,
    depth: u32,
    samples: &Vec<ScatterSample>,
    at: usize,
) -> (out: (Vec3, usize))
    requires
        wf_scene(scene@),
        wf_ray(r@),
        forall|i: int| 0 <= i < samples@.len() ==> wf_sample(#[trigger] samples@[i]),
        at + depth <= samples@.len(),
    ensures
        out.0@ == radiance(scene@, r@, depth as int, samples@, at as int),
        out.1 == at + samples_used(scene@, r@, depth as int, samples@, at as int),
        depth == 0 ==> out.0@ == black_v(),
        albedo_ok(out.0@),
    decreases depth,
{
    proof {
        lemma_radiance_energy_bound(scene@, r@, depth as int, samples@, at as int);
        lemma_samples_used_bounds(scene@, r@, depth as int, samples@, at as int);
    }
    let n = samples.len();
    if depth == 0 {
        (Vec3::zeros(), at)
    } else {
        match nearest_hit(scene, r, T_LIMIT) {
            Option::None => (background_color(&r.direction), at),
            Option::Some(rec) => {
                let samp = samples[at];
                let (att, r2) = rec.mat.scatter(r, &rec.intersection, &rec.normal, &samp);
                if wf_ray_check(&r2) {
                    let (c, at2) = estimate_radiance(&r2, scene, depth - 1, samples, at + 1);
                    proof {
                        lemma_abs_mul_bound(
                            albedo_of(rec@.mat).x,
                            c@.x,
                            SCALE as int,
                            SCALE as int,
                        );
                        lemma_abs_mul_bound(
                            albedo_of(rec@.mat).y,
                            c@.y,
                            SCALE as int,
                            SCALE as int,
                        );
                        lemma_abs_mul_bound(
                            albedo_of(rec@.mat).z,
                            c@.z,
                            SCALE as int,
                            SCALE as int,
                        );
                    }
                    (att.mul(c), at2)
                } else {
                    (Vec3::zeros(), at + 1)
                }
            },
        }
    }
}

} // verus!
