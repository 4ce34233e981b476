//! End-to-end behavior of the tracer: intersection, nearest-hit
//! selection, scattering, the radiance estimator, and the pixel mapping.
//! One fixed-point unit is 1_000_000.

use rays::camera::Simple;
use rays::geom::{Lambertian, Material, Metal, ScatterSample, Sphere};
use rays::geom::{wf_ray_check, wf_sample_check, wf_vec_check};
use rays::pixel::{average_color, to_pixel};
use rays::ray::{Ray, T_LIMIT};
use rays::scene::{build_scene, nearest_hit, Scene};
use rays::trace::estimate_radiance;
use rays::vec::Vec3;

fn lambertian(r: i64, g: i64, b: i64) -> Material {
    Material::Lambertian(Lambertian { albedo: Vec3::new(r, g, b) })
}

fn still_sample() -> ScatterSample {
    ScatterSample { unit: Vec3::new(0, 1_000_000, 0), ball: Vec3::new(0, 0, 0) }
}

#[test]
fn hit_intersection_exact() {
    let s = Sphere {
        center: Vec3::new(0, 0, -1_500_000),
        radius: 500_000,
        mat: lambertian(800_000, 300_000, 300_000),
    };
    let r = Ray::new(Vec3::new(0, 0, 0), Vec3::new(0, 0, -1_000_000));
    let h = s.hit(&r, T_LIMIT).unwrap();
    assert_eq!(h.t, 1_000_000);
    assert_eq!(h.intersection, Vec3::new(0, 0, -1_000_000));
    assert_eq!(h.normal, Vec3::new(0, 0, 1_000_000));
    // the hit point lies exactly one radius from the center
    assert_eq!(h.intersection.sub(s.center).length(), s.radius);
}

#[test]
fn hit_normal_outward() {
    let s = Sphere {
        center: Vec3::new(0, 0, -1_500_000),
        radius: 500_000,
        mat: lambertian(800_000, 300_000, 300_000),
    };
    let r = Ray::new(Vec3::new(100_000, -50_000, 0), Vec3::new(30_000, 20_000, -1_000_000));
    let h = s.hit(&r, T_LIMIT).unwrap();
    assert!(h.normal.dot(h.intersection.sub(s.center)) > 0);
}

#[test]
fn no_hit_when_aimed_away() {
    let s = Sphere {
        center: Vec3::new(0, 0, -1_000_000),
        radius: 500_000,
        mat: lambertian(800_000, 300_000, 300_000),
    };
    let r = Ray::new(Vec3::new(0, 0, 0), Vec3::new(0, 1_000_000, 0));
    assert!(s.hit(&r, T_LIMIT).is_none());
}

#[test]
fn nearest_hit_tie_break() {
    // two overlapping spheres along -z: candidate roots 1.5 and 1.6
    let near = Sphere {
        center: Vec3::new(0, 0, -2_000_000),
        radius: 500_000,
        mat: lambertian(800_000, 100_000, 100_000),
    };
    let far = Sphere {
        center: Vec3::new(0, 0, -2_600_000),
        radius: 1_000_000,
        mat: lambertian(100_000, 100_000, 800_000),
    };
    let r = Ray::new(Vec3::new(0, 0, 0), Vec3::new(0, 0, -1_000_000));

    let a = Scene { objects: vec![near, far] };
    let b = Scene { objects: vec![far, near] };
    let ha = nearest_hit(&a, &r, T_LIMIT).unwrap();
    let hb = nearest_hit(&b, &r, T_LIMIT).unwrap();
    assert_eq!(ha.t, 1_500_000);
    assert_eq!(hb.t, 1_500_000);
    assert_eq!(ha.mat, near.mat);
    assert_eq!(hb.mat, near.mat);
}

#[test]
fn nearest_hit_empty_scene() {
    let scene = Scene { objects: vec![] };
    let r = Ray::new(Vec3::new(0, 0, 0), Vec3::new(0, 0, -1_000_000));
    assert!(nearest_hit(&scene, &r, T_LIMIT).is_none());
}

#[test]
fn depth_zero_returns_black() {
    let scene = build_scene();
    let samples: Vec<ScatterSample> = vec![];
    let r = Ray::new(Vec3::new(0, 0, 0), Vec3::new(0, 0, -1_000_000));
    let (c, at) = estimate_radiance(&r, &scene, 0, &samples, 0);
    assert_eq!(c, Vec3::new(0, 0, 0));
    assert_eq!(at, 0);
}

#[test]
fn background_gradient_vertical() {
    let scene = Scene { objects: vec![] };
    let samples: Vec<ScatterSample> = vec![still_sample(); 8];

    let up = Ray::new(Vec3::new(0, 0, 0), Vec3::new(0, 1_000_000, 0));
    let (c, at) = estimate_radiance(&up, &scene, 8, &samples, 0);
    assert_eq!(c, Vec3::new(500_000, 700_000, 1_000_000));
    assert_eq!(at, 0);

    let down = Ray::new(Vec3::new(0, 0, 0), Vec3::new(0, -1_000_000, 0));
    let (c, _) = estimate_radiance(&down, &scene, 8, &samples, 0);
    assert_eq!(c, Vec3::new(1_000_000, 1_000_000, 1_000_000));

    // the gradient does not depend on the direction's length
    let up_long = Ray::new(Vec3::new(0, 0, 0), Vec3::new(0, 5_000_000, 0));
    let (c, _) = estimate_radiance(&up_long, &scene, 8, &samples, 0);
    assert_eq!(c, Vec3::new(500_000, 700_000, 1_000_000));
}

#[test]
fn background_gradient_level() {
    let scene = Scene { objects: vec![] };
    let samples: Vec<ScatterSample> = vec![still_sample(); 4];
    let level = Ray::new(Vec3::new(0, 0, 0), Vec3::new(0, 0, -1_000_000));
    let (c, _) = estimate_radiance(&level, &scene, 4, &samples, 0);
    assert_eq!(c, Vec3::new(750_000, 850_000, 1_000_000));
}

#[test]
fn energy_stays_bounded() {
    let scene = build_scene();
    let samples: Vec<ScatterSample> = vec![still_sample(); 4];
    let r = Ray::new(Vec3::new(0, 0, 0), Vec3::new(0, -400_000, -1_000_000));
    let (c, _) = estimate_radiance(&r, &scene, 4, &samples, 0);
    assert!(0 <= c.x() && c.x() <= 1_000_000);
    assert!(0 <= c.y() && c.y() <= 1_000_000);
    assert!(0 <= c.z() && c.z() <= 1_000_000);
}

#[test]
fn attenuation_multiplies_bounce() {
    let sphere = Sphere {
        center: Vec3::new(0, 0, -1_000_000),
        radius: 500_000,
        mat: lambertian(800_000, 300_000, 300_000),
    };
    let scene = Scene { objects: vec![sphere] };
    let samples: Vec<ScatterSample> = vec![still_sample(); 2];
    let r = Ray::new(Vec3::new(0, 0, 0), Vec3::new(0, 0, -1_000_000));

    let (full, consumed_to) = estimate_radiance(&r, &scene, 2, &samples, 0);

    // replay the single bounce by hand
    let h = nearest_hit(&scene, &r, T_LIMIT).unwrap();
    assert_eq!(h.t, 500_000);
    let (attenuation, scattered) = h.mat.scatter(&r, &h.intersection, &h.normal, &samples[0]);
    assert_eq!(attenuation, Vec3::new(800_000, 300_000, 300_000));
    let (bounce, _) = estimate_radiance(&scattered, &scene, 1, &samples, 1);

    assert_eq!(full, attenuation.mul(bounce));
    assert_eq!(consumed_to, 1);
}

#[test]
fn scatter_lambertian_perturbs_normal() {
    let mat = lambertian(800_000, 300_000, 300_000);
    let r = Ray::new(Vec3::new(0, 0, 0), Vec3::new(0, 0, -1_000_000));
    let p = Vec3::new(0, 0, -500_000);
    let n = Vec3::new(0, 0, 1_000_000);
    let sample = ScatterSample { unit: Vec3::new(0, 1_000_000, 0), ball: Vec3::new(0, 0, 0) };
    let (attenuation, scattered) = mat.scatter(&r, &p, &n, &sample);
    assert_eq!(attenuation, Vec3::new(800_000, 300_000, 300_000));
    assert_eq!(scattered.origin, p);
    assert_eq!(scattered.direction, Vec3::new(0, 1_000_000, 1_000_000));
}

#[test]
fn scatter_metal_reflects() {
    let mat = Material::Metal(Metal { albedo: Vec3::new(900_000, 900_000, 900_000) });
    let r = Ray::new(Vec3::new(-1_000_000, 1_000_000, 0), Vec3::new(1_000_000, -1_000_000, 0));
    let p = Vec3::new(0, 0, 0);
    let n = Vec3::new(0, 1_000_000, 0);
    let quiet = ScatterSample { unit: Vec3::new(0, 1_000_000, 0), ball: Vec3::new(0, 0, 0) };
    let (attenuation, scattered) = mat.scatter(&r, &p, &n, &quiet);
    assert_eq!(attenuation, Vec3::new(900_000, 900_000, 900_000));
    assert_eq!(scattered.origin, p);
    assert_eq!(scattered.direction, Vec3::new(1_000_000, 1_000_000, 0));

    // the fuzz sample shifts the mirror direction by a tenth of itself
    let fuzzed = ScatterSample { unit: Vec3::new(0, 1_000_000, 0), ball: Vec3::new(500_000, 0, 0) };
    let (_, scattered) = mat.scatter(&r, &p, &n, &fuzzed);
    assert_eq!(scattered.direction, Vec3::new(1_050_000, 1_000_000, 0));
}

#[test]
fn camera_center_ray() {
    let cam = Simple::new(Vec3::new(0, 0, 0), 4_000_000, 2_000_000, -1_000_000);
    let center = cam.get_ray(500_000, 500_000);
    assert_eq!(center.origin, Vec3::new(0, 0, 0));
    assert_eq!(center.direction, Vec3::new(0, 0, -1_000_000));
    let corner = cam.get_ray(0, 0);
    assert_eq!(corner.direction, Vec3::new(-2_000_000, -1_000_000, -1_000_000));
}

#[test]
fn built_scene_contents() {
    let scene = build_scene();
    assert_eq!(scene.objects.len(), 3);
    assert_eq!(scene.objects[0].center, Vec3::new(0, 0, -1_500_000));
    assert_eq!(scene.objects[0].radius, 500_000);
    match scene.objects[0].mat {
        Material::Lambertian(l) => assert_eq!(l.albedo, Vec3::new(800_000, 100_000, 100_000)),
        Material::Metal(_) => panic!("expected a diffuse sphere"),
    }
    assert_eq!(scene.objects[2].radius, 100_000_000);
}

#[test]
fn pixel_average_is_mean() {
    let colors = vec![Vec3::new(1_000_000, 0, 500_000), Vec3::new(0, 1_000_000, 500_000)];
    assert_eq!(average_color(&colors), Vec3::new(500_000, 500_000, 500_000));
    let colors = vec![
        Vec3::new(1_000_000, 1_000_000, 1_000_000),
        Vec3::new(0, 0, 0),
        Vec3::new(1_000_000, 1_000_000, 1_000_000),
    ];
    assert_eq!(average_color(&colors), Vec3::new(666_666, 666_666, 666_666));
}

#[test]
fn pixel_tone_mapping() {
    assert_eq!(to_pixel(&Vec3::new(1_000_000, 250_000, 0)), (255, 127, 0));
    assert_eq!(to_pixel(&Vec3::new(640_000, 640_000, 640_000)), (204, 204, 204));
}

#[test]
fn well_formedness_checks() {
    let ok = Ray::new(Vec3::new(0, 0, 0), Vec3::new(0, 0, -1_000_000));
    assert!(wf_ray_check(&ok));
    let zero_dir = Ray::new(Vec3::new(0, 0, 0), Vec3::new(0, 0, 0));
    assert!(!wf_ray_check(&zero_dir));
    let far = Ray::new(Vec3::new(300_000_000_000, 0, 0), Vec3::new(0, 0, -1_000_000));
    assert!(!wf_ray_check(&far));
    assert!(wf_vec_check(&Vec3::new(250_000_000, 0, 0)));
    assert!(!wf_vec_check(&Vec3::new(250_000_001, 0, 0)));
    assert!(wf_sample_check(&still_sample()));
    let wild = ScatterSample { unit: Vec3::new(3_000_000, 0, 0), ball: Vec3::new(0, 0, 0) };
    assert!(!wf_sample_check(&wild));
}
