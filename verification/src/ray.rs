//! Rays: an origin and an (unnormalized) direction, with parametric point
//! evaluation.

use vstd::prelude::*;
use crate::num::SCALE;
use crate::vec::{
    in_bounds, lemma_abs_mul_bound, vadd, vscale, Vec3, COORD_LIMIT, V3,
};
use crate::num::lemma_tdiv_bounds;

verus! {

/// Ray parameters handled exactly stay below this bound (one million units
/// of distance in real terms); it stands in for "infinity" as the initial
/// search bound of the tracer.
pub const T_LIMIT: i64 = 1_000_000_000_000;

/// Components of an evaluated ray point stay within this bound whenever the
/// ray is within `COORD_LIMIT` and the parameter within `T_LIMIT`.
pub const POINT_LIMIT: i64 = 251_000_000_000_000;

/// The mathematical value of a `Ray`.
pub struct RayV {
    pub origin: V3,
    pub direction: V3,
}

/// The point `origin + direction * t`, the scaling rounded toward zero.
pub open spec fn point_at(r: RayV, t: int) -> V3 {
    vadd(r.origin, vscale(r.direction, t))
}

/// A bounded ray evaluated within the parameter bound stays within
/// `POINT_LIMIT`.
pub proof fn lemma_point_at_bounded(r: RayV, t: int)
    requires
        in_bounds(r.origin, COORD_LIMIT as int),
        in_bounds(r.direction, COORD_LIMIT as int),
        -T_LIMIT <= t <= T_LIMIT,
    ensures
        in_bounds(point_at(r, t), POINT_LIMIT as int),
{
    lemma_abs_mul_bound(r.direction.x, t, COORD_LIMIT as int, T_LIMIT as int);
    lemma_abs_mul_bound(r.direction.y, t, COORD_LIMIT as int, T_LIMIT as int);
    lemma_abs_mul_bound(r.direction.z, t, COORD_LIMIT as int, T_LIMIT as int);
    lemma_tdiv_bounds(
        r.direction.x * t,
        SCALE as int,
        (COORD_LIMIT as int) * (T_LIMIT as int) / (SCALE as int),
    );
    lemma_tdiv_bounds(
        r.direction.y * t,
        SCALE as int,
        (COORD_LIMIT as int) * (T_LIMIT as int) / (SCALE as int),
    );
    lemma_tdiv_bounds(
        r.direction.z * t,
        SCALE as int,
        (COORD_LIMIT as int) * (T_LIMIT as int) / (SCALE as int),
    );
}

/// A ray: origin plus direction, the direction not required to be
/// normalized.
#[derive(Debug, Clone, Copy, PartialEq, Eq, Structural)]
pub struct Ray {
    pub origin: Vec3,
    pub direction: Vec3,
}

impl View for Ray {
    type V = RayV;

    open spec fn view(&self) -> RayV {
        RayV { origin: self.origin@, direction: self.direction@ }
    }
}

impl Ray {
    pub fn new(origin: Vec3, direction: Vec3) -> (r: Ray)
        ensures
            r@.origin == origin@,
            r@.direction == direction@,
    {
        Ray { origin, direction }
    }

    /// The point this ray reaches at parameter `t`.
    pub fn point_at_parameter(&self, t: i64) -> (p: Vec3)
        requires
            in_bounds(self@.origin, COORD_LIMIT as int),
            in_bounds(self@.direction, COORD_LIMIT as int),
            -T_LIMIT <= t <= T_LIMIT,
        ensures
            p@ == point_at(self@, t as int),
            in_bounds(p@, POINT_LIMIT as int),
    {
        proof {
            lemma_abs_mul_bound(self@.direction.x, t as int, COORD_LIMIT as int, T_LIMIT as int);
            lemma_abs_mul_bound(self@.direction.y, t as int, COORD_LIMIT as int, T_LIMIT as int);
            lemma_abs_mul_bound(self@.direction.z, t as int, COORD_LIMIT as int, T_LIMIT as int);
            lemma_tdiv_bounds(
                self@.direction.x * t,
                SCALE as int,
                (COORD_LIMIT as int) * (T_LIMIT as int) / (SCALE as int),
            );
            lemma_tdiv_bounds(
                self@.direction.y * t,
                SCALE as int,
                (COORD_LIMIT as int) * (T_LIMIT as int) / (SCALE as int),
            );
            lemma_tdiv_bounds(
                self@.direction.z * t,
                SCALE as int,
                (COORD_LIMIT as int) * (T_LIMIT as int) / (SCALE as int),
            );
        }
        let d = self.direction.scale(t);
        self.origin.add(d)
    }
}

} // verus!
