//! Scenes: an ordered collection of spheres, the nearest-hit scan over
//! them, and the fixed world the driver renders.

use vstd::prelude::*;
use crate::geom::{
    albedo_of, degenerate_hit, hit_disc, hit_root, opt_hit_view, sphere_hit, wf_material, wf_ray,
    wf_sphere, HitRecord, HitV, Lambertian, Material, Sphere, SphereV, EPS_T,
};
use crate::num::SCALE;
use crate::ray::{Ray, RayV, POINT_LIMIT, T_LIMIT};
use crate::vec::{in_bounds, Vec3, V3};

verus! {

/// An ordered, read-only collection of spheres.
#[derive(Debug)]
pub struct Scene {
    pub objects: Vec<Sphere>,
}

impl View for Scene {
    type V = Seq<Sphere>;

    open spec fn view(&self) -> Seq<Sphere> {
        self.objects@
    }
}

/// Every sphere of the scene is one the tracer's arithmetic admits.
pub open spec fn wf_scene(objs: Seq<Sphere>) -> bool {
    forall|i: int| 0 <= i < objs.len() ==> wf_sphere(#[trigger] objs[i]@)
}

/// The nearest-hit fold over the scene in scan order: each accepted hit
/// narrows the search bound for the spheres scanned after it, so a later
/// hit replaces an earlier one only when it is strictly closer.
pub open spec fn scene_hit(objs: Seq<Sphere>, r: RayV, t_max: int) -> Option<HitV>
    decreases objs.len(),
{
    if objs.len() == 0 {
        Option::<HitV>::None
    } else {
        let prev = scene_hit(objs.drop_last(), r, t_max);
        let bound = match prev {
            Option::None => t_max,
            Option::Some(h) => h.t,
        };
        match sphere_hit(objs.last()@, r, bound) {
            Option::Some(h) => Option::Some(h),
            Option::None => prev,
        }
    }
}

/// The candidate parameter a sphere offers a ray, independent of any
/// search bound: the smaller quadratic root, provided the discriminant is
/// positive, the root clears the acne guard, and the rounded hit point is
/// not degenerate (see `degenerate_hit`).
pub open spec fn sphere_cand(s: SphereV, r: RayV) -> Option<int> {
    let disc = hit_disc(s, r);
    if disc <= 0 {
        Option::<int>::None
    } else {
        let t = hit_root(s, r);
        if EPS_T < t && !degenerate_hit(s, r) {
            Option::Some(t)
        } else {
            Option::<int>::None
        }
    }
}

/// A sphere hits under a bound exactly when its candidate parameter
/// exists and lies under the bound.
pub proof fn lemma_sphere_hit_cand(s: SphereV, r: RayV, b: int)
    ensures
        match sphere_hit(s, r, b) {
            Option::Some(h) => sphere_cand(s, r) == Option::Some(h.t) && h.t < b,
            Option::None => !(sphere_cand(s, r) matches Option::Some(t) && t < b),
        },
{
}

/// The nearest-hit scan is nearest: whatever it returns is some sphere's
/// candidate hit, and no sphere of the scene offers a strictly closer
/// candidate under the bound — so the returned parameter is the minimum
/// of the candidate parameters, whatever order the spheres stand in.
pub proof fn lemma_scene_hit_nearest(objs: Seq<Sphere>, r: RayV, t_max: int)
    ensures
        match scene_hit(objs, r, t_max) {
            Option::Some(h) => {
                &&& exists|i: int|
                    0 <= i < objs.len() && sphere_cand(#[trigger] objs[i]@, r) == Option::Some(h.t)
                &&& h.t < t_max
                &&& forall|i: int|
                    0 <= i < objs.len() ==> match #[trigger] sphere_cand(objs[i]@, r) {
                        Option::Some(ti) => ti < t_max ==> h.t <= ti,
                        Option::None => true,
                    }
            },
            Option::None => forall|i: int|
                0 <= i < objs.len() ==> match #[trigger] sphere_cand(objs[i]@, r) {
                    Option::Some(ti) => ti >= t_max,
                    Option::None => true,
                },
        },
    decreases objs.len(),
{
    if objs.len() > 0 {
        let init = objs.drop_last();
        let s_last = objs.last();
        lemma_scene_hit_nearest(init, r, t_max);
        let prev = scene_hit(init, r, t_max);
        let bound = match prev {
            Option::None => t_max,
            Option::Some(h) => h.t,
        };
        lemma_sphere_hit_cand(s_last@, r, bound);
        assert(forall|i: int| 0 <= i < init.len() ==> init[i] == objs[i]);
        assert(objs[objs.len() - 1] == s_last);
        match scene_hit(objs, r, t_max) {
            Option::Some(h) => {
                match sphere_hit(s_last@, r, bound) {
                    Option::Some(hl) => {
                        assert(h == hl);
                        assert(sphere_cand(objs[objs.len() - 1]@, r) == Option::Some(h.t));
                        match prev {
                            Option::Some(hp) => {
                                assert(h.t < hp.t);
                            },
                            Option::None => {},
                        }
                    },
                    Option::None => {
                        assert(Option::Some(h) == prev);
                        let wp = choose|i: int|
                            0 <= i < init.len() && sphere_cand(#[trigger] init[i]@, r)
                                == Option::Some(h.t);
                        assert(sphere_cand(objs[wp]@, r) == Option::Some(h.t));
                    },
                }
            },
            Option::None => {},
        }
    }
}

/// Two overlapping spheres along one ray: in either insertion order the
/// scan returns a hit whose parameter is the smaller of the two candidate
/// roots.
pub proof fn lemma_two_sphere_tie_break(s1: Sphere, s2: Sphere, r: RayV, t_max: int, t1: int, t2: int)
    requires
        sphere_cand(s1@, r) == Option::Some(t1),
        sphere_cand(s2@, r) == Option::Some(t2),
        t1 < t_max,
        t2 < t_max,
    ensures
        scene_hit(seq![s1, s2], r, t_max) matches Option::Some(h) && h.t == (if t1 <= t2 {
            t1
        } else {
            t2
        }),
        scene_hit(seq![s2, s1], r, t_max) matches Option::Some(h) && h.t == (if t1 <= t2 {
            t1
        } else {
            t2
        }),
{
    let lo = if t1 <= t2 { t1 } else { t2 };
    let a = seq![s1, s2];
    let b = seq![s2, s1];
    lemma_scene_hit_nearest(a, r, t_max);
    lemma_scene_hit_nearest(b, r, t_max);
    assert(a[0] == s1 && a[1] == s2 && a.len() == 2);
    assert(b[0] == s2 && b[1] == s1 && b.len() == 2);
    match scene_hit(a, r, t_max) {
        Option::Some(h) => {
            let wi = choose|i: int|
                0 <= i < a.len() && sphere_cand(#[trigger] a[i]@, r) == Option::Some(h.t);
            assert(h.t == t1 || h.t == t2);
            assert(h.t <= t1 && h.t <= t2);
        },
        Option::None => {
            assert(false);
        },
    }
    match scene_hit(b, r, t_max) {
        Option::Some(h) => {
            let wi = choose|i: int|
                0 <= i < b.len() && sphere_cand(#[trigger] b[i]@, r) == Option::Some(h.t);
            assert(h.t == t1 || h.t == t2);
            assert(h.t <= t1 && h.t <= t2);
        },
        Option::None => {
            assert(false);
        },
    }
}

/// The material an accepted scene hit reports belongs to one of the
/// scene's spheres, so it is well-formed whenever the scene is.
pub proof fn lemma_scene_hit_material(objs: Seq<Sphere>, r: RayV, t_max: int)
    requires
        wf_scene(objs),
    ensures
        scene_hit(objs, r, t_max) matches Option::Some(h) ==> wf_material(h.mat),
    decreases objs.len(),
{
    if objs.len() > 0 {
        let init = objs.drop_last();
        assert forall|i: int| 0 <= i < init.len() implies wf_sphere(#[trigger] init[i]@) by {
            assert(init[i] == objs[i]);
        }
        lemma_scene_hit_material(init, r, t_max);
        assert(objs[objs.len() - 1] == objs.last());
    }
}

/// Scan every sphere for the closest accepted hit; the result is exactly
/// `scene_hit` over the whole scene in scan order.
pub fn nearest_hit(scene: &Scene, r: &Ray, t_max: i64) -> (h: Option<HitRecord>)
    requires
        wf_scene(scene@),
        wf_ray(r@),
        0 <= t_max <= T_LIMIT,
    ensures
        opt_hit_view(h) == scene_hit(scene@, r@, t_max as int),
        h matches Some(rec) ==> {
            &&& EPS_T < rec@.t < t_max
            &&& in_bounds(rec@.normal, SCALE as int)
            &&& in_bounds(rec@.intersection, POINT_LIMIT as int)
            &&& wf_material(rec@.mat)
        },
{
    let mut best: Option<HitRecord> = Option::None;
    let n = scene.objects.len();
    let mut i: usize = 0;
    while i < n
        invariant
            0 <= i <= n,
            n == scene@.len(),
            wf_scene(scene@),
            wf_ray(r@),
            0 <= t_max <= T_LIMIT,
            opt_hit_view(best) == scene_hit(scene@.take(i as int), r@, t_max as int),
            best matches Some(rec) ==> {
                &&& EPS_T < rec@.t < t_max
                &&& in_bounds(rec@.normal, SCALE as int)
                &&& in_bounds(rec@.intersection, POINT_LIMIT as int)
                &&& wf_material(rec@.mat)
            },
        decreases n - i,
    {
        let bound = match &best {
            Option::None => t_max,
            Option::Some(rec) => rec.t,
        };
        let s = scene.objects[i];
        let h = s.hit(r, bound);
        proof {
            assert(scene@.take(i + 1).drop_last() =~= scene@.take(i as int));
            assert(scene@.take(i + 1).last() == scene@[i as int]);
        }
        if h.is_some() {
            best = h;
        }
        i += 1;
    }
    proof {
        assert(scene@.take(n as int) =~= scene@);
    }
    best
}

/// The world the driver renders: two small diffuse spheres resting above
/// a large diffuse ground sphere.
pub fn build_scene() -> (s: Scene)
    ensures
        s@.len() == 3,
        wf_scene(s@),
        s@[0]@.center == (V3 { x: 0, y: 0, z: -1_500_000int }),
        s@[0]@.radius == 500_000,
        s@[0]@.mat matches Material::Lambertian(_),
        albedo_of(s@[0]@.mat) == (V3 { x: 800_000int, y: 100_000int, z: 100_000int }),
        s@[1]@.center == (V3 { x: 700_000int, y: 0, z: -1_500_000int }),
        s@[1]@.radius == 300_000,
        s@[1]@.mat matches Material::Lambertian(_),
        albedo_of(s@[1]@.mat) == (V3 { x: 1_000_000int, y: 1_000_000int, z: 1_000_000int }),
        s@[2]@.center == (V3 { x: 0, y: -100_500_000int, z: -1_000_000int }),
        s@[2]@.radius == 100_000_000,
        s@[2]@.mat matches Material::Lambertian(_),
        albedo_of(s@[2]@.mat) == (V3 { x: 300_000int, y: 800_000int, z: 100_000int }),
{
    let mut objects: Vec<Sphere> = Vec::new();
    objects.push(
        Sphere {
            center: Vec3::new(0, 0, -1_500_000),
            radius: 500_000,
            mat: Material::Lambertian(Lambertian { albedo: Vec3::new(800_000, 100_000, 100_000) }),
        },
    );
    objects.push(
        Sphere {
            center: Vec3::new(700_000, 0, -1_500_000),
            radius: 300_000,
            mat: Material::Lambertian(
                Lambertian { albedo: Vec3::new(1_000_000, 1_000_000, 1_000_000) },
            ),
        },
    );
    objects.push(
        Sphere {
            center: Vec3::new(0, -100_500_000, -1_000_000),
            radius: 100_000_000,
            mat: Material::Lambertian(Lambertian { albedo: Vec3::new(300_000, 800_000, 100_000) }),
        },
    );
    Scene { objects }
}

} // verus!
