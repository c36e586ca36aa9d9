//! Fixed-point 3D vectors: distances, axis-angle rotation, and random
//! directions.
//!
//! Coordinates are fixed-point values (see [`crate::fixed::FP`]) held in
//! `i64`, kept within [`CMAX`] so that every intermediate product fits a
//! 128-bit integer.  Rotation follows the axis-angle (Rodrigues) formula;
//! random directions are drawn with the uniform-over-the-sphere
//! construction: a uniform height and a uniform azimuth.

use crate::fixed::{
    spec_clamp, spec_cos, spec_isqrt, spec_sin, clamp_i128, cos_fp, isqrt, sin_fp, FP, TAU_FP,
};
use crate::rng::Rng;
use vstd::prelude::*;

verus! {

/// Largest coordinate magnitude the library works with, in fixed-point
/// units.  Wide enough for any sphere this crate is asked to fill, and small
/// enough that products of coordinates stay far from the 128-bit limits.
pub const CMAX: i64 = 0x10000000000;

/// A point or direction in 3-space, in fixed-point coordinates.
#[derive(Clone, Copy, PartialEq, Eq, Structural, Debug)]
pub struct Vec3 {
    pub x: i64,
    pub y: i64,
    pub z: i64,
}

/// Truncating (round-toward-zero) division, as Rust computes it.
pub open spec fn spec_div_trunc(v: int, d: int) -> int {
    if v >= 0 {
        v / d
    } else {
        -((-v) / d)
    }
}

/// Truncating division of a wide intermediate by a positive scale.
pub fn div_trunc(v: i128, d: i128) -> (r: i128)
    requires
        d > 0,
        v > i128::MIN,
    ensures
        r as int == spec_div_trunc(v as int, d as int),
{
    if v >= 0 {
        ((v as u128) / (d as u128)) as i128
    } else {
        let q = ((-v) as u128) / (d as u128);
        -(q as i128)
    }
}

/// Product of two bounded wide integers; the bounds keep it inside `i128`.
pub fn mul_i128(a: i128, b: i128, ab: i128, bb: i128) -> (r: i128)
    requires
        -ab <= a <= ab,
        -bb <= b <= bb,
        0 <= ab,
        0 <= bb,
        (ab as int) * (bb as int) <= i128::MAX as int,
    ensures
        r as int == (a as int) * (b as int),
        -((ab as int) * (bb as int)) <= r as int <= (ab as int) * (bb as int),
{
    proof {
        assert(-((ab as int) * (bb as int)) <= (a as int) * (b as int) && (a as int) * (b as int)
            <= (ab as int) * (bb as int)) by (nonlinear_arith)
            requires
                -ab <= a <= ab,
                -bb <= b <= bb,
                0 <= ab,
                0 <= bb,
        ;
    }
    a * b
}

impl Vec3 {
    /// All coordinates within the working range.
    pub open spec fn in_bounds(self) -> bool {
        &&& -CMAX <= self.x <= CMAX
        &&& -CMAX <= self.y <= CMAX
        &&& -CMAX <= self.z <= CMAX
    }

    /// Squared Euclidean (chord) distance between two points.
    pub open spec fn spec_dist2(self, other: Vec3) -> int {
        let dx = self.x - other.x;
        let dy = self.y - other.y;
        let dz = self.z - other.z;
        dx * dx + dy * dy + dz * dz
    }

    /// Squared Euclidean (chord) distance, computed exactly in 128 bits.
    pub fn dist2(&self, other: &Vec3) -> (r: i128)
        requires
            self.in_bounds(),
            other.in_bounds(),
        ensures
            r as int == self.spec_dist2(*other),
            r >= 0,
    {
        let dx = self.x as i128 - other.x as i128;
        let dy = self.y as i128 - other.y as i128;
        let dz = self.z as i128 - other.z as i128;
        let b: i128 = 2 * CMAX as i128;
        let xx = mul_i128(dx, dx, b, b);
        let yy = mul_i128(dy, dy, b, b);
        let zz = mul_i128(dz, dz, b, b);
        proof {
            assert(dx * dx >= 0 && dy * dy >= 0 && dz * dz >= 0) by (nonlinear_arith);
            assert(dx * dx <= 4 * (CMAX as int) * (CMAX as int) && dy * dy <= 4 * (CMAX as int)
                * (CMAX as int) && dz * dz <= 4 * (CMAX as int) * (CMAX as int))
                by (nonlinear_arith)
                requires
                    -2 * (CMAX as int) <= dx <= 2 * (CMAX as int),
                    -2 * (CMAX as int) <= dy <= 2 * (CMAX as int),
                    -2 * (CMAX as int) <= dz <= 2 * (CMAX as int),
            ;
        }
        xx + yy + zz
    }
}

/// The rotation of `v` by `angle` about the direction `axis`, by the
/// axis-angle formula `v cos a + (k x v) sin a + k (k . v) (1 - cos a)`,
/// evaluated in fixed point with each coordinate clamped into the working
/// range.  `axis` is a fixed-point near-unit vector.
pub open spec fn spec_rotate(v: Vec3, axis: Vec3, angle: int) -> Vec3 {
    let c = spec_cos(angle);
    let s = spec_sin(angle);
    let dot = axis.x * v.x + axis.y * v.y + axis.z * v.z;
    let dotc = spec_div_trunc(dot, FP as int);
    let cx = axis.y * v.z - axis.z * v.y;
    let cy = axis.z * v.x - axis.x * v.z;
    let cz = axis.x * v.y - axis.y * v.x;
    let rx = v.x * c + spec_div_trunc(cx * s, FP as int) + spec_div_trunc(
        axis.x * dotc * (FP - c),
        FP as int,
    );
    let ry = v.y * c + spec_div_trunc(cy * s, FP as int) + spec_div_trunc(
        axis.y * dotc * (FP - c),
        FP as int,
    );
    let rz = v.z * c + spec_div_trunc(cz * s, FP as int) + spec_div_trunc(
        axis.z * dotc * (FP - c),
        FP as int,
    );
    Vec3 {
        x: spec_clamp(spec_div_trunc(rx, FP as int), -CMAX as int, CMAX as int) as i64,
        y: spec_clamp(spec_div_trunc(ry, FP as int), -CMAX as int, CMAX as int) as i64,
        z: spec_clamp(spec_div_trunc(rz, FP as int), -CMAX as int, CMAX as int) as i64,
    }
}

/// An axis is acceptable for rotation when its coordinates are within twice
/// the unit scale.
pub open spec fn axis_in_range(axis: Vec3) -> bool {
    &&& -2 * FP <= axis.x <= 2 * FP
    &&& -2 * FP <= axis.y <= 2 * FP
    &&& -2 * FP <= axis.z <= 2 * FP
}

/// Rotate `v` by `angle` about `axis` (axis-angle formula, fixed point).
pub fn rotate(v: &Vec3, axis: &Vec3, angle: i64) -> (r: Vec3)
    requires
        v.in_bounds(),
        axis_in_range(*axis),
        0 <= angle < TAU_FP,
    ensures
        r == spec_rotate(*v, *axis, angle as int),
        r.in_bounds(),
{
    let c = cos_fp(angle);
    let s = sin_fp(angle);
    let kx = axis.x as i128;
    let ky = axis.y as i128;
    let kz = axis.z as i128;
    let vx = v.x as i128;
    let vy = v.y as i128;
    let vz = v.z as i128;
    let kb: i128 = 2 * FP as i128;
    let vb: i128 = CMAX as i128;
    let fpw: i128 = FP as i128;

    // dot and cross products of the axis with v: at most 2^17 * 2^40 each.
    let dot = mul_i128(kx, vx, kb, vb) + mul_i128(ky, vy, kb, vb) + mul_i128(kz, vz, kb, vb);
    let dotc = div_trunc(dot, fpw);
    let cx = mul_i128(ky, vz, kb, vb) - mul_i128(kz, vy, kb, vb);
    let cy = mul_i128(kz, vx, kb, vb) - mul_i128(kx, vz, kb, vb);
    let cz = mul_i128(kx, vy, kb, vb) - mul_i128(ky, vx, kb, vb);

    let cb: i128 = 2 * kb * vb;
    let sb: i128 = FP as i128;
    let db: i128 = 3 * kb * vb / fpw + 1;

    let rx = mul_i128(vx, c as i128, vb, sb) + div_trunc(mul_i128(cx, s as i128, cb, sb), fpw)
        + div_trunc(
        mul_i128(mul_i128(kx, dotc, kb, db), (FP - c) as i128, kb * db, 2 * fpw),
        fpw,
    );
    let ry = mul_i128(vy, c as i128, vb, sb) + div_trunc(mul_i128(cy, s as i128, cb, sb), fpw)
        + div_trunc(
        mul_i128(mul_i128(ky, dotc, kb, db), (FP - c) as i128, kb * db, 2 * fpw),
        fpw,
    );
    let rz = mul_i128(vz, c as i128, vb, sb) + div_trunc(mul_i128(cz, s as i128, cb, sb), fpw)
        + div_trunc(
        mul_i128(mul_i128(kz, dotc, kb, db), (FP - c) as i128, kb * db, 2 * fpw),
        fpw,
    );

    let x = clamp_i128(div_trunc(rx, fpw), -CMAX, CMAX);
    let y = clamp_i128(div_trunc(ry, fpw), -CMAX, CMAX);
    let z = clamp_i128(div_trunc(rz, fpw), -CMAX, CMAX);
    Vec3 { x, y, z }
}

/// State and value of a random near-unit direction: a uniform fixed-point
/// height `z` in `[-FP, FP]`, a uniform azimuth, and the cross-section
/// radius `sqrt(FP^2 - z^2)` recovered by integer square root.
pub open spec fn spec_random_unit_axis(rng: Rng) -> (Rng, Vec3) {
    let (r1, zd) = rng.spec_next_below((2 * FP + 1) as u64);
    let z = zd - FP;
    let (r2, theta) = r1.spec_next_below(TAU_FP as u64);
    let rc = spec_isqrt((FP as int) * (FP as int) - z * z);
    let x = spec_div_trunc(rc * spec_cos(theta as int), FP as int);
    let y = spec_div_trunc(rc * spec_sin(theta as int), FP as int);
    (r2, Vec3 { x: x as i64, y: y as i64, z: z as i64 })
}

/// Draw a random near-unit direction from `rng`.
pub fn random_unit_axis(rng: &mut Rng) -> (axis: Vec3)
    ensures
        (*final(rng), axis) == spec_random_unit_axis(*old(rng)),
        axis_in_range(axis),
{
    let zd = rng.next_below((2 * FP + 1) as u64);
    let z: i64 = zd as i64 - FP;
    let theta = rng.next_below(TAU_FP as u64);
    let zw = z as i128;
    let rsq: i128 = (FP as i128) * (FP as i128) - mul_i128(zw, zw, FP as i128, FP as i128);
    proof {
        assert(zw * zw >= 0 && zw * zw <= (FP as int) * (FP as int)) by (nonlinear_arith)
            requires
                -(FP as int) <= zw <= FP as int,
        ;
    }
    let rc64 = isqrt(rsq as u128);
    proof {
        let rcs = spec_isqrt(rsq as int);
        assert(rc64 as int == rcs);
        if rc64 as int > FP as int {
            assert((rc64 as int) * (rc64 as int) > (FP as int) * (FP as int)) by (nonlinear_arith)
                requires
                    rc64 as int > FP as int,
                    FP as int > 0,
            ;
        }
    }
    let rc = rc64 as i128;
    let co = cos_fp(theta as i64);
    let si = sin_fp(theta as i64);
    let x = div_trunc(mul_i128(rc, co as i128, FP as i128, FP as i128), FP as i128);
    let y = div_trunc(mul_i128(rc, si as i128, FP as i128, FP as i128), FP as i128);
    proof {
        assert(-(FP as int) * (FP as int) <= (rc as int) * (co as int) && (rc as int) * (co as int)
            <= (FP as int) * (FP as int)) by (nonlinear_arith)
            requires
                0 <= rc <= FP as int,
                -(FP as int) <= co as int <= FP as int,
        ;
        assert(-(FP as int) * (FP as int) <= (rc as int) * (si as int) && (rc as int) * (si as int)
            <= (FP as int) * (FP as int)) by (nonlinear_arith)
            requires
                0 <= rc <= FP as int,
                -(FP as int) <= si as int <= FP as int,
        ;
    }
    Vec3 { x: x as i64, y: y as i64, z }
}

} // verus!
