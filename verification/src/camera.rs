//! The driver's simple axis-aligned camera: a screen rectangle in front
//! of the origin, rays fanned across it by two screen coordinates.

use vstd::prelude::*;
use crate::num::{lemma_tdiv_bounds, lemma_tdiv_shrinks, SCALE};
use crate::ray::Ray;
use crate::vec::{
    in_bounds, lemma_abs_mul_bound, vadd, vdiv, vscale, vsub, Vec3, COORD_LIMIT, V3,
};

verus! {

/// The mathematical value of a `Simple` camera.
pub struct SimpleV {
    pub origin: V3,
    pub lower_left_corner: V3,
    pub horizontal: V3,
    pub vertical: V3,
}

/// Rays leave `origin` toward a screen rectangle that spans `horizontal`
/// and `vertical` from its lower-left corner.
pub struct Simple {
    origin: Vec3,
    lower_left_corner: Vec3,
    horizontal: Vec3,
    vertical: Vec3,
}

impl View for Simple {
    type V = SimpleV;

    closed spec fn view(&self) -> SimpleV {
        SimpleV {
            origin: self.origin@,
            lower_left_corner: self.lower_left_corner@,
            horizontal: self.horizontal@,
            vertical: self.vertical@,
        }
    }
}

/// A camera whose screen geometry stays within the tracer's working
/// bounds.
pub open spec fn wf_camera(c: SimpleV) -> bool {
    &&& in_bounds(c.origin, COORD_LIMIT as int)
    &&& in_bounds(c.horizontal, COORD_LIMIT as int)
    &&& in_bounds(c.vertical, COORD_LIMIT as int)
    &&& in_bounds(c.lower_left_corner, 3 * (COORD_LIMIT as int))
}

impl Simple {
    /// Build a camera whose screen is `width` by `height` units, centered
    /// `depth` units in front of (or, negative, behind) `origin`.
    pub fn new(origin: Vec3, width: i64, height: i64, depth: i64) -> (cam: Simple)
        requires
            in_bounds(origin@, COORD_LIMIT as int),
            -COORD_LIMIT <= width <= COORD_LIMIT,
            -COORD_LIMIT <= height <= COORD_LIMIT,
            -COORD_LIMIT <= depth <= COORD_LIMIT,
        ensures
            cam@.origin == origin@,
            cam@.horizontal == (V3 { x: width as int, y: 0, z: 0 }),
            cam@.vertical == (V3 { x: 0, y: height as int, z: 0 }),
            cam@.lower_left_corner == vadd(
                vsub(
                    vsub(origin@, vdiv(V3 { x: width as int, y: 0, z: 0 }, 2 * (SCALE as int))),
                    vdiv(V3 { x: 0, y: height as int, z: 0 }, 2 * (SCALE as int)),
                ),
                V3 { x: 0, y: 0, z: depth as int },
            ),
            wf_camera(cam@),
    {
        let horizontal = Vec3::new(width, 0, 0);
        let vertical = Vec3::new(0, height, 0);
        let back = Vec3::new(0, 0, depth);
        proof {
            lemma_abs_mul_bound(width as int, SCALE as int, COORD_LIMIT as int, SCALE as int);
            lemma_abs_mul_bound(height as int, SCALE as int, COORD_LIMIT as int, SCALE as int);
            lemma_abs_mul_bound(0, SCALE as int, COORD_LIMIT as int, SCALE as int);
            lemma_tdiv_bounds(
                (width as int) * (SCALE as int),
                2 * (SCALE as int),
                COORD_LIMIT as int,
            );
            lemma_tdiv_bounds(
                (height as int) * (SCALE as int),
                2 * (SCALE as int),
                COORD_LIMIT as int,
            );
            lemma_tdiv_bounds(0 * (SCALE as int), 2 * (SCALE as int), COORD_LIMIT as int);
        }
        let half_h = horizontal.div(2 * SCALE);
        let half_v = vertical.div(2 * SCALE);
        let lower_left_corner = origin.sub(half_h).sub(half_v).add(back);
        Simple { origin, lower_left_corner, horizontal, vertical }
    }

    /// The ray from the camera's origin toward screen position `(u, v)`,
    /// both coordinates fixed-point fractions of the screen's extent.
    pub fn get_ray(&self, u: i64, v: i64) -> (r: Ray)
        requires
            wf_camera(self@),
            -2 * SCALE <= u <= 2 * SCALE,
            -2 * SCALE <= v <= 2 * SCALE,
        ensures
            r@.origin == self@.origin,
            r@.direction == vadd(
                vadd(self@.lower_left_corner, vscale(self@.horizontal, u as int)),
                vscale(self@.vertical, v as int),
            ),
    {
        proof {
            lemma_abs_mul_bound(self@.horizontal.x, u as int, COORD_LIMIT as int, 2 * (
            SCALE as int));
            lemma_abs_mul_bound(self@.horizontal.y, u as int, COORD_LIMIT as int, 2 * (
            SCALE as int));
            lemma_abs_mul_bound(self@.horizontal.z, u as int, COORD_LIMIT as int, 2 * (
            SCALE as int));
            lemma_abs_mul_bound(self@.vertical.x, v as int, COORD_LIMIT as int, 2 * (SCALE as int));
            lemma_abs_mul_bound(self@.vertical.y, v as int, COORD_LIMIT as int, 2 * (SCALE as int));
            lemma_abs_mul_bound(self@.vertical.z, v as int, COORD_LIMIT as int, 2 * (SCALE as int));
            lemma_tdiv_shrinks(self@.horizontal.x * (u as int), SCALE as int);
            lemma_tdiv_shrinks(self@.horizontal.y * (u as int), SCALE as int);
            lemma_tdiv_shrinks(self@.horizontal.z * (u as int), SCALE as int);
            lemma_tdiv_shrinks(self@.vertical.x * (v as int), SCALE as int);
            lemma_tdiv_shrinks(self@.vertical.y * (v as int), SCALE as int);
            lemma_tdiv_shrinks(self@.vertical.z * (v as int), SCALE as int);
        }
        let hu = self.horizontal.scale(u);
        let vv = self.vertical.scale(v);
        let direction = self.lower_left_corner.add(hu).add(vv);
        Ray::new(self.origin, direction)
    }
}

} // verus!
