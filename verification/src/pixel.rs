//! The driver-side pixel mapping: a linear color in `[0, 1]` per channel
//! becomes one byte, through the square-root tone curve and the 255.99
//! scaling the plain-text image format expects.

use vstd::prelude::*;
use crate::geom::albedo_ok;
use crate::num::{isqrt_u128, lemma_sqrt_floor_is, lemma_tdiv_bounds, sqrt_floor, tdiv, SCALE};
use crate::vec::{lemma_abs_mul_bound, vadd, Vec3, V3};

verus! {

/// The componentwise sum of a pixel's sample colors.
pub open spec fn color_sum(s: Seq<Vec3>) -> V3
    decreases s.len(),
{
    if s.len() == 0 {
        V3 { x: 0, y: 0, z: 0 }
    } else {
        vadd(color_sum(s.drop_last()), s.last()@)
    }
}

/// A pixel's final color is the arithmetic mean of its samples,
/// componentwise and rounded toward zero.
pub fn average_color(colors: &Vec<Vec3>) -> (avg: Vec3)
    requires
        0 < colors@.len() <= 1_000_000_000,
        forall|i: int| 0 <= i < colors@.len() ==> albedo_ok(#[trigger] colors@[i]@),
    ensures
        avg@.x == tdiv(color_sum(colors@).x, colors@.len() as int),
        avg@.y == tdiv(color_sum(colors@).y, colors@.len() as int),
        avg@.z == tdiv(color_sum(colors@).z, colors@.len() as int),
        albedo_ok(avg@),
{
    let n = colors.len();
    let mut sx: i64 = 0;
    let mut sy: i64 = 0;
    let mut sz: i64 = 0;
    let mut i: usize = 0;
    while i < n
        invariant
            0 <= i <= n,
            n == colors@.len(),
            0 < n <= 1_000_000_000,
            forall|k: int| 0 <= k < colors@.len() ==> albedo_ok(#[trigger] colors@[k]@),
            sx == color_sum(colors@.take(i as int)).x,
            sy == color_sum(colors@.take(i as int)).y,
            sz == color_sum(colors@.take(i as int)).z,
            0 <= sx <= (i as int) * (SCALE as int),
            0 <= sy <= (i as int) * (SCALE as int),
            0 <= sz <= (i as int) * (SCALE as int),
        decreases n - i,
    {
        let c = colors[i];
        proof {
            assert(albedo_ok(colors@[i as int]@));
            assert(colors@.take(i + 1).drop_last() =~= colors@.take(i as int));
            assert(colors@.take(i + 1).last() == colors@[i as int]);
            assert(((i as int) + 1) * (SCALE as int) == (i as int) * (SCALE as int) + (
            SCALE as int)) by (nonlinear_arith);
            assert((i as int) * (SCALE as int) <= 1_000_000_000int * (SCALE as int))
                by (nonlinear_arith)
                requires
                    0 <= i as int <= 1_000_000_000,
            ;
        }
        sx = sx + c.x;
        sy = sy + c.y;
        sz = sz + c.z;
        i += 1;
    }
    proof {
        assert(colors@.take(n as int) =~= colors@);
        assert((n as int) * (SCALE as int) == (SCALE as int) * (n as int)) by (nonlinear_arith);
        lemma_tdiv_bounds(sx as int, n as int, SCALE as int);
        lemma_tdiv_bounds(sy as int, n as int, SCALE as int);
        lemma_tdiv_bounds(sz as int, n as int, SCALE as int);
    }
    let ax = ((sx as u64) / (n as u64)) as i64;
    let ay = ((sy as u64) / (n as u64)) as i64;
    let az = ((sz as u64) / (n as u64)) as i64;
    Vec3 { x: ax, y: ay, z: az }
}

/// One channel's byte: `255.99 * sqrt(v)` truncated, with `v` a
/// fixed-point channel value in `[0, 1]`.
pub open spec fn tone(v: int) -> int {
    tdiv(25_599 * sqrt_floor(v * (SCALE as int)), 100_000_000)
}

/// One channel of a pixel.
fn tone_channel(v: i64) -> (b: u8)
    requires
        0 <= v <= SCALE,
    ensures
        b == tone(v as int),
{
    proof {
        lemma_abs_mul_bound(v as int, SCALE as int, 1_000_000int, 1_000_000int);
    }
    let raw = (v as u128) * (SCALE as u128);
    let s = isqrt_u128(raw);
    proof {
        lemma_sqrt_floor_is(raw as int, s as int);
        assert(s as int <= 1_000_000int) by (nonlinear_arith)
            requires
                (s as int) * (s as int) <= 1_000_000_000_000int,
                0 <= s as int,
        ;
    }
    ((25_599u128 * s) / 100_000_000u128) as u8
}

/// Map an averaged linear color to the three bytes of one image pixel.
pub fn to_pixel(c: &Vec3) -> (p: (u8, u8, u8))
    requires
        albedo_ok(c@),
    ensures
        p.0 == tone(c@.x),
        p.1 == tone(c@.y),
        p.2 == tone(c@.z),
{
    (tone_channel(c.x), tone_channel(c.y), tone_channel(c.z))
}

} // verus!
