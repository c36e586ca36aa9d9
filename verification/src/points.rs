//! Poisson-disk-like sampling of points on a sphere, with adaptive leniency.
//!
//! Starting from a fixed pole, each new point is made by rotating a randomly
//! chosen existing point by a randomly drawn angle about a random axis, and
//! is accepted only when no existing point lies within the angle's chord
//! distance.  When a fixed budget of candidates in a row is rejected for one
//! point, the minimum distance and the target angle are multiplied by a decay
//! factor and the search continues: this "leniency" is permanent for the rest
//! of the run and guarantees termination, which the contracts below prove.
//! The whole sampler is a pure function of its generator argument, stated by
//! [`spec_generate_points_poisson`].

use crate::fixed::{spec_sin, spec_sin_half, sin_fp, FP, PI_FP};
use crate::rng::Rng;
use crate::vec3::{
    spec_div_trunc, spec_random_unit_axis, spec_rotate, div_trunc, mul_i128, random_unit_axis,
    rotate, Vec3, CMAX,
};
use vstd::arithmetic::div_mod::{
    lemma_div_is_ordered, lemma_div_multiples_vanish, lemma_div_pos_is_pos,
};
use vstd::arithmetic::mul::lemma_mul_inequality;
use vstd::prelude::*;

verus! {

/// Candidate budget per point: after this many rejected candidates in a row,
/// the separation constraint is relaxed.
pub const BUDGET: i64 = 1000;

/// Largest permitted target angle, in fixed-point radians (one quarter
/// turn): drawn angles then stay below one half turn, where the chord
/// formula is monotone.
pub const MAX_TARGET_ANGLE: i64 = 102943;

/// All points of a sequence lie within the working coordinate range.
pub open spec fn all_in_bounds(pts: Seq<Vec3>) -> bool {
    forall|i: int| 0 <= i < pts.len() ==> (#[trigger] pts[i]).in_bounds()
}

/// Some existing point lies strictly within distance `min_d` of `cand`.
pub open spec fn spec_any_within(pts: Seq<Vec3>, cand: Vec3, min_d: int) -> bool {
    exists|i: int|
        0 <= i < pts.len() && (#[trigger] pts[i].spec_dist2(cand)) < min_d * min_d
}

/// Scan for an existing point strictly within distance `min_d` of `cand`.
pub fn any_within(pts: &Vec<Vec3>, cand: &Vec3, min_d: i64) -> (r: bool)
    requires
        all_in_bounds(pts@),
        cand.in_bounds(),
        0 <= min_d <= 2 * CMAX,
    ensures
        r == spec_any_within(pts@, *cand, min_d as int),
{
    proof {
        assert((2 * CMAX as int) * (2 * CMAX as int) <= i128::MAX as int) by (nonlinear_arith);
    }
    let md2: i128 = mul_i128(
        min_d as i128,
        min_d as i128,
        2 * CMAX as i128,
        2 * CMAX as i128,
    );
    let mut i: usize = 0;
    while i < pts.len()
        invariant
            0 <= i <= pts.len(),
            all_in_bounds(pts@),
            cand.in_bounds(),
            md2 as int == (min_d as int) * (min_d as int),
            forall|j: int| 0 <= j < i ==> !((#[trigger] pts@[j].spec_dist2(*cand)) < md2 as int),
        decreases pts.len() - i,
    {
        let d = pts[i].dist2(cand);
        if d < md2 {
            return true;
        }
        i = i + 1;
    }
    false
}

/// State and value of one target-angle draw: uniform in
/// `[max_angle / 2, 3 * max_angle / 2]`, so point-to-point spacing varies.
pub open spec fn spec_draw_angle(rng: Rng, max_angle: int) -> (Rng, int) {
    let (r1, d) = rng.spec_next();
    (r1, max_angle / 2 + (d as int) % (max_angle + 1))
}

/// Draw the target angle for the next point.
pub fn draw_angle(rng: &mut Rng, max_angle: i64) -> (angle: i64)
    requires
        0 <= max_angle <= MAX_TARGET_ANGLE,
    ensures
        (*final(rng), angle as int) == spec_draw_angle(*old(rng), max_angle as int),
        0 <= angle <= PI_FP,
{
    let d = rng.next_u64();
    let m = d % ((max_angle + 1) as u64);
    max_angle / 2 + m as i64
}

/// The minimum chord distance for a drawn angle: the chord-length formula
/// `2 radius sin(angle / 2)`, scaled by the 9/10 under-estimation factor
/// that keeps acceptance rates reasonable.
pub open spec fn spec_min_dist(radius: int, angle: int) -> int {
    let s = spec_sin(angle / 2);
    let t = spec_div_trunc(2 * radius * s, FP as int);
    spec_div_trunc(9 * t, 10)
}

/// Compute the minimum chord distance for a drawn angle.
pub fn min_dist_for(radius: i64, angle: i64) -> (md: i64)
    requires
        0 < radius <= CMAX,
        0 <= angle <= PI_FP,
    ensures
        md as int == spec_min_dist(radius as int, angle as int),
        0 <= md <= 2 * radius,
{
    let half = angle / 2;
    let s = sin_fp(half);
    proof {
        assert(spec_sin(half as int) == spec_sin_half(half as int));
        assert(spec_sin_half(half as int) >= 0);
    }
    let num = mul_i128(2 * radius as i128, s as i128, 2 * CMAX as i128, FP as i128);
    proof {
        lemma_mul_inequality(s as int, FP as int, 2 * radius as int);
        assert((s as int) * (2 * radius as int) == (2 * radius as int) * (s as int))
            by (nonlinear_arith);
        lemma_div_pos_is_pos(num as int, FP as int);
        lemma_div_is_ordered(num as int, (FP as int) * (2 * radius as int), FP as int);
        lemma_div_multiples_vanish(2 * radius as int, FP as int);
    }
    let t = div_trunc(num, FP as i128);
    proof {
        lemma_div_pos_is_pos(9 * t as int, 10);
        lemma_div_is_ordered(9 * t as int, 10 * t as int, 10);
        lemma_div_multiples_vanish(t as int, 10);
    }
    let md = div_trunc(9 * t, 10);
    md as i64
}

/// State after the search for one acceptable candidate, starting from an
/// existing nonempty point set: the generator after the search, the accepted
/// point, the (possibly relaxed) minimum distance in force when it was
/// accepted, the (possibly relaxed) target angle for later points, and
/// whether any relaxation happened during the search.
///
/// Each round draws a parent point, relaxes by a factor of 9/10 when the
/// budget is spent, rotates the parent about a random axis, and accepts the
/// candidate when no existing point lies strictly within the minimum
/// distance.  The recursion terminates for every input: rounds within the
/// budget decrease the remaining budget, a relaxation strictly decreases the
/// positive minimum distance, and a relaxation that reaches distance zero
/// accepts immediately.
pub open spec fn spec_attempt(
    pts: Seq<Vec3>,
    rng: Rng,
    angle: int,
    min_d: int,
    max_angle: int,
    iter: int,
) -> (Rng, Vec3, int, int, bool)
    decreases min_d, BUDGET as int - iter,
        when 0 <= min_d && 0 <= iter <= BUDGET as int
{
    let (r1, pdraw) = rng.spec_next();
    let pidx = (pdraw as int) % (pts.len() as int);
    let parent = pts[pidx];
    let relax = iter >= BUDGET as int;
    let md = if relax {
        9 * min_d / 10
    } else {
        min_d
    };
    let ma = if relax {
        9 * max_angle / 10
    } else {
        max_angle
    };
    let it = if relax {
        0
    } else {
        iter
    };
    let (r2, axis) = spec_random_unit_axis(r1);
    let cand = spec_rotate(parent, axis, angle);
    let ok = md == 0 || !spec_any_within(pts, cand, md);
    if ok {
        (r2, cand, md, ma, relax)
    } else {
        let (rf, cf, mf, af, xf) = spec_attempt(pts, r2, angle, md, ma, it + 1);
        (rf, cf, mf, af, relax || xf)
    }
}

/// Search for the next acceptable candidate point.  Returns the accepted
/// point, the (possibly relaxed) target angle for later points, and whether
/// any relaxation happened.
#[verifier::loop_isolation(false)]
pub fn sample_one(pts: &Vec<Vec3>, rng: &mut Rng, angle: i64, min_d0: i64, max_angle0: i64) -> (r:
    (Vec3, i64, bool))
    requires
        pts@.len() >= 1,
        all_in_bounds(pts@),
        0 <= angle <= PI_FP,
        0 <= min_d0 <= 2 * CMAX,
        0 <= max_angle0 <= MAX_TARGET_ANGLE,
    ensures
        ({
            let (rf, cf, mf, af, xf) = spec_attempt(
                pts@,
                *old(rng),
                angle as int,
                min_d0 as int,
                max_angle0 as int,
                0,
            );
            &&& *final(rng) == rf
            &&& r.0 == cf
            &&& r.1 as int == af
            &&& r.2 == xf
            &&& r.0.in_bounds()
            &&& 0 <= r.1 <= max_angle0
        }),
{
    let mut min_d = min_d0;
    let mut max_angle = max_angle0;
    let mut iter: i64 = 0;
    let mut relaxed = false;
    let ghost entry = spec_attempt(
        pts@,
        *rng,
        angle as int,
        min_d0 as int,
        max_angle0 as int,
        0,
    );
    loop
        invariant
            pts@.len() >= 1,
            all_in_bounds(pts@),
            0 <= angle <= PI_FP,
            0 <= min_d <= 2 * CMAX,
            0 <= max_angle <= max_angle0 <= MAX_TARGET_ANGLE,
            0 <= iter <= BUDGET,
            entry == ({
                let (rf, cf, mf, af, xf) = spec_attempt(
                    pts@,
                    *rng,
                    angle as int,
                    min_d as int,
                    max_angle as int,
                    iter as int,
                );
                (rf, cf, mf, af, relaxed || xf)
            }),
        decreases min_d, BUDGET as int - iter,
    {
        let ghost rng0 = *rng;
        let ghost mind0 = min_d as int;
        let ghost ma0 = max_angle as int;
        let ghost iter0 = iter as int;
        let ghost relaxed0 = relaxed;
        let pdraw = rng.next_u64();
        let pidx = (pdraw % (pts.len() as u64)) as usize;
        let parent = pts[pidx];
        let relax_now = iter >= BUDGET;
        if relax_now {
            iter = 0;
            min_d = 9 * min_d / 10;
            max_angle = 9 * max_angle / 10;
            relaxed = true;
        }
        proof {
            lemma_div_pos_is_pos(9 * mind0, 10);
            lemma_div_is_ordered(9 * mind0, 10 * mind0, 10);
            lemma_div_multiples_vanish(mind0, 10);
            lemma_div_pos_is_pos(9 * ma0, 10);
            lemma_div_is_ordered(9 * ma0, 10 * ma0, 10);
            lemma_div_multiples_vanish(ma0, 10);
        }
        let axis = random_unit_axis(rng);
        let cand = rotate(&parent, &axis, angle);
        let ok = min_d == 0 || !any_within(pts, &cand, min_d);
        proof {
            let stepped = spec_attempt(pts@, rng0, angle as int, mind0, ma0, iter0);
            if ok {
                assert(stepped == (*rng, cand, min_d as int, max_angle as int, relax_now));
            } else {
                let (rf, cf, mf, af, xf) = spec_attempt(
                    pts@,
                    *rng,
                    angle as int,
                    min_d as int,
                    max_angle as int,
                    iter as int + 1,
                );
                assert(stepped == (rf, cf, mf, af, relax_now || xf));
            }
        }
        if ok {
            return (cand, max_angle, relaxed);
        }
        iter = iter + 1;
    }
}

/// The fixed first point of every run: the pole of the sphere.
pub open spec fn spec_start_point(radius: i64) -> Vec3 {
    Vec3 { x: 0, y: radius, z: 0 }
}

/// State after sampling points until `n` are present, starting from a
/// nonempty point set: the full point sequence, the generator after the run,
/// and whether any leniency relaxation happened.  Each round draws a target
/// angle, converts it to a minimum chord distance, and searches for an
/// acceptable candidate; a relaxed target angle stays relaxed for all later
/// points.
pub open spec fn spec_sample_from(
    pts: Seq<Vec3>,
    rng: Rng,
    n: int,
    radius: i64,
    max_angle: int,
    relaxed: bool,
) -> (Seq<Vec3>, Rng, bool)
    decreases n - pts.len(),
{
    if pts.len() >= n {
        (pts, rng, relaxed)
    } else {
        let (r1, angle) = spec_draw_angle(rng, max_angle);
        let md = spec_min_dist(radius as int, angle);
        let (r2, cand, mf, ma2, x) = spec_attempt(pts, r1, angle, md, max_angle, 0);
        spec_sample_from(pts.push(cand), r2, n, radius, ma2, relaxed || x)
    }
}

/// The complete sampler: no points for `n == 0`, otherwise the pole followed
/// by `n - 1` sampled points.
pub open spec fn spec_generate_points_poisson(n: int, radius: i64, max_angle: int, rng: Rng) -> (
    Seq<Vec3>,
    Rng,
    bool,
) {
    if n == 0 {
        (Seq::empty(), rng, false)
    } else {
        spec_sample_from(seq![spec_start_point(radius)], rng, n, radius, max_angle, false)
    }
}

/// Generate `n` points on the surface of a sphere of the given fixed-point
/// radius, roughly `max_angle` radians apart, from the given generator.
/// Returns the points and whether the separation constraint was ever
/// relaxed.  The result is a pure function of the arguments, stated by
/// [`spec_generate_points_poisson`]; in particular generation always
/// terminates and always returns exactly `n` points.
#[verifier::loop_isolation(false)]
pub fn generate_points_poisson(n: usize, radius: i64, max_angle: i64, rng: &mut Rng) -> (r: (
    Vec<Vec3>,
    bool,
))
    requires
        0 < radius <= CMAX,
        0 <= max_angle <= MAX_TARGET_ANGLE,
    ensures
        ({
            let (ps, rf, xf) = spec_generate_points_poisson(
                n as int,
                radius,
                max_angle as int,
                *old(rng),
            );
            &&& r.0@ == ps
            &&& *final(rng) == rf
            &&& r.1 == xf
        }),
        r.0@.len() == n as int,
        all_in_bounds(r.0@),
        !r.1 ==> pairwise_separated(r.0@, spec_min_dist(radius as int, max_angle as int / 2)),
{
    proof {
        lemma_poisson_separation(n as int, radius, max_angle as int, *rng);
    }
    let mut pts: Vec<Vec3> = Vec::new();
    if n == 0 {
        proof {
            assert(pairwise_separated(pts@, spec_min_dist(radius as int, max_angle as int / 2)));
        }
        return (pts, false);
    }
    pts.push(Vec3 { x: 0, y: radius, z: 0 });
    proof {
        assert(pts@ =~= seq![spec_start_point(radius)]);
    }
    let mut ma = max_angle;
    let mut relaxed = false;
    while pts.len() < n
        invariant
            1 <= pts@.len(),
            pts@.len() <= n || n == 0,
            all_in_bounds(pts@),
            0 <= ma <= max_angle,
            spec_sample_from(pts@, *rng, n as int, radius, ma as int, relaxed)
                == spec_sample_from(
                seq![spec_start_point(radius)],
                *old(rng),
                n as int,
                radius,
                max_angle as int,
                false,
            ),
        decreases n - pts.len(),
    {
        let angle = draw_angle(rng, ma);
        let md = min_dist_for(radius, angle);
        let (cand, ma2, x) = sample_one(&pts, rng, angle, md, ma);
        pts.push(cand);
        ma = ma2;
        relaxed = relaxed || x;
    }
    (pts, relaxed)
}

/// Largest drawn angle between consecutive chain points, in fixed-point
/// radians: two percent of a full turn, `TAU_FP / 50` rounded down.
pub const INITIAL_MAX_ANGLE: i64 = 8235;

/// Every two distinct points are at least squared distance `d * d` apart.
pub open spec fn pairwise_separated(pts: Seq<Vec3>, d: int) -> bool {
    forall|i: int, j: int|
        0 <= i < j < pts.len() ==> #[trigger] pts[i].spec_dist2(pts[j]) >= d * d
}

/// A squared distance is never negative.
pub proof fn lemma_dist2_nonneg(a: Vec3, b: Vec3)
    ensures
        a.spec_dist2(b) >= 0,
{
    assert((a.x - b.x) * (a.x - b.x) >= 0 && (a.y - b.y) * (a.y - b.y) >= 0 && (a.z - b.z) * (a.z
        - b.z) >= 0) by (nonlinear_arith);
}

/// Within the permitted angle range, a wider drawn angle never gives a
/// smaller minimum chord distance; and the distance is never negative.
pub proof fn lemma_min_dist_mono(radius: int, a1: int, a2: int)
    requires
        0 < radius,
        0 <= a1 <= a2 <= PI_FP,
    ensures
        0 <= spec_min_dist(radius, a1) <= spec_min_dist(radius, a2),
{
    let h1 = a1 / 2;
    let h2 = a2 / 2;
    lemma_div_is_ordered(a1, a2, 2);
    lemma_div_pos_is_pos(a1, 2);
    assert(2 * h2 <= a2) by {
        vstd::arithmetic::div_mod::lemma_fundamental_div_mod(a2, 2);
        vstd::arithmetic::div_mod::lemma_mod_bound(a2, 2);
    }
    crate::fixed::lemma_sin_half_mono(h1, h2);
    let s1 = spec_sin(h1);
    let s2 = spec_sin(h2);
    assert(s1 == crate::fixed::spec_sin_half(h1) && s2 == crate::fixed::spec_sin_half(h2));
    assert(0 <= s1 <= s2 <= FP as int);
    let v1 = 2 * radius * s1;
    let v2 = 2 * radius * s2;
    assert(0 <= v1 <= v2) by (nonlinear_arith)
        requires
            0 < radius,
            0 <= s1 <= s2,
            v1 == 2 * radius * s1,
            v2 == 2 * radius * s2,
    ;
    let t1 = spec_div_trunc(v1, FP as int);
    let t2 = spec_div_trunc(v2, FP as int);
    lemma_div_is_ordered(v1, v2, FP as int);
    lemma_div_pos_is_pos(v1, FP as int);
    assert(0 <= t1 <= t2);
    lemma_div_is_ordered(9 * t1, 9 * t2, 10);
    lemma_div_pos_is_pos(9 * t1, 10);
}

/// When the candidate search finishes without relaxing, the minimum
/// distance and target angle come back unchanged and the accepted candidate
/// keeps that distance to every existing point.
pub proof fn lemma_attempt_no_relax(
    pts: Seq<Vec3>,
    rng: Rng,
    angle: int,
    min_d: int,
    max_angle: int,
    iter: int,
)
    requires
        0 <= min_d,
        0 <= iter <= BUDGET as int,
    ensures
        ({
            let (rf, cand, mf, af, xf) = spec_attempt(pts, rng, angle, min_d, max_angle, iter);
            !xf ==> mf == min_d && af == max_angle && forall|i: int|
                0 <= i < pts.len() ==> (#[trigger] pts[i].spec_dist2(cand)) >= min_d * min_d
        }),
    decreases min_d, BUDGET as int - iter,
{
    let (r1, pdraw) = rng.spec_next();
    let relax = iter >= BUDGET as int;
    let md = if relax {
        9 * min_d / 10
    } else {
        min_d
    };
    let ma = if relax {
        9 * max_angle / 10
    } else {
        max_angle
    };
    let it = if relax {
        0
    } else {
        iter
    };
    let (r2, axis) = spec_random_unit_axis(r1);
    let cand = spec_rotate(pts[(pdraw as int) % (pts.len() as int)], axis, angle);
    let ok = md == 0 || !spec_any_within(pts, cand, md);
    if relax {
        lemma_div_pos_is_pos(9 * min_d, 10);
        lemma_div_is_ordered(9 * min_d, 10 * min_d, 10);
        lemma_div_multiples_vanish(min_d, 10);
    }
    if ok {
        if md == 0 {
            assert forall|i: int| 0 <= i < pts.len() implies (#[trigger] pts[i].spec_dist2(cand))
                >= md * md by {
                lemma_dist2_nonneg(pts[i], cand);
            }
        }
    } else {
        lemma_attempt_no_relax(pts, r2, angle, md, ma, it + 1);
    }
}

/// Once relaxation has happened, the rest of the run reports it.
pub proof fn lemma_sample_relax_monotone(
    pts: Seq<Vec3>,
    rng: Rng,
    n: int,
    radius: i64,
    max_angle: int,
)
    ensures
        spec_sample_from(pts, rng, n, radius, max_angle, true).2,
    decreases n - pts.len(),
{
    if pts.len() < n {
        let (r1, angle) = spec_draw_angle(rng, max_angle);
        let md = spec_min_dist(radius as int, angle);
        let (r2, cand, mf, ma2, x) = spec_attempt(pts, r1, angle, md, max_angle, 0);
        lemma_sample_relax_monotone(pts.push(cand), r2, n, radius, ma2);
    }
}

/// While no relaxation happens, every accepted point keeps the floor
/// distance: the minimum chord distance of the smallest drawable angle.
pub proof fn lemma_sample_separation(
    pts: Seq<Vec3>,
    rng: Rng,
    n: int,
    radius: i64,
    max_angle: int,
    floor: int,
)
    requires
        0 < radius,
        0 <= max_angle <= MAX_TARGET_ANGLE,
        floor == spec_min_dist(radius as int, max_angle / 2),
        pairwise_separated(pts, floor),
    ensures
        ({
            let (ptsf, rf, xf) = spec_sample_from(pts, rng, n, radius, max_angle, false);
            !xf ==> pairwise_separated(ptsf, floor)
        }),
    decreases n - pts.len(),
{
    if pts.len() < n {
        let (r1, angle) = spec_draw_angle(rng, max_angle);
        lemma_draw_angle_range(rng, max_angle);
        let md = spec_min_dist(radius as int, angle);
        lemma_div_is_ordered(0, max_angle, 2);
        lemma_min_dist_mono(radius as int, max_angle / 2, angle);
        lemma_attempt_no_relax(pts, r1, angle, md, max_angle, 0);
        let (r2, cand, mf, ma2, x) = spec_attempt(pts, r1, angle, md, max_angle, 0);
        if x {
            lemma_sample_relax_monotone(pts.push(cand), r2, n, radius, ma2);
        } else {
            let pts2 = pts.push(cand);
            assert forall|i: int, j: int| 0 <= i < j < pts2.len() implies #[trigger] pts2[i].spec_dist2(
                pts2[j],
            ) >= floor * floor by {
                if j < pts.len() {
                    assert(pts2[i] == pts[i] && pts2[j] == pts[j]);
                    assert(pts[i].spec_dist2(pts[j]) >= floor * floor);
                } else {
                    assert(pts2[i] == pts[i] && pts2[j] == cand);
                    assert(pts[i].spec_dist2(cand) >= md * md);
                    assert(md * md >= floor * floor) by (nonlinear_arith)
                        requires
                            0 <= floor <= md,
                    ;
                }
            }
            lemma_sample_separation(pts2, r2, n, radius, ma2, floor);
        }
    }
}

/// The drawn angle lies between half and three halves of the target angle,
/// and within the first half turn.
pub proof fn lemma_draw_angle_range(rng: Rng, max_angle: int)
    requires
        0 <= max_angle <= MAX_TARGET_ANGLE as int,
    ensures
        ({
            let (r1, angle) = spec_draw_angle(rng, max_angle);
            max_angle / 2 <= angle <= PI_FP
        }),
{
    let (r0, d) = rng.spec_next();
    vstd::arithmetic::div_mod::lemma_mod_bound(d as int, max_angle + 1);
    lemma_div_is_ordered(0, max_angle, 2);
    lemma_div_is_ordered(max_angle, MAX_TARGET_ANGLE as int, 2);
}

/// Soft minimum separation: while the sampler never needed to relax, all
/// points it produced are pairwise at least the initial floor distance
/// apart, where the floor is the minimum chord distance of the smallest
/// drawable angle, `max_angle / 2`.
pub proof fn lemma_poisson_separation(n: int, radius: i64, max_angle: int, rng: Rng)
    requires
        0 < radius,
        0 <= max_angle <= MAX_TARGET_ANGLE,
    ensures
        ({
            let (pts, rf, xf) = spec_generate_points_poisson(n, radius, max_angle, rng);
            !xf ==> pairwise_separated(pts, spec_min_dist(radius as int, max_angle / 2))
        }),
{
    let floor = spec_min_dist(radius as int, max_angle / 2);
    if n != 0 {
        let start = seq![spec_start_point(radius)];
        assert(pairwise_separated(start, floor));
        lemma_sample_separation(start, rng, n, radius, max_angle, floor);
    }
}

/// Generate `n` points on the sphere of the given fixed-point radius with
/// the standard target angle.  Returns the points and whether the separation
/// constraint was ever relaxed.
pub fn generate_points(n: usize, radius: i64, rng: &mut Rng) -> (r: (Vec<Vec3>, bool))
    requires
        0 < radius <= CMAX,
    ensures
        ({
            let (ps, rf, xf) = spec_generate_points_poisson(
                n as int,
                radius,
                INITIAL_MAX_ANGLE as int,
                *old(rng),
            );
            &&& r.0@ == ps
            &&& *final(rng) == rf
            &&& r.1 == xf
        }),
        r.0@.len() == n as int,
        all_in_bounds(r.0@),
        !r.1 ==> pairwise_separated(r.0@, spec_min_dist(radius as int, INITIAL_MAX_ANGLE as int / 2)),
{
    generate_points_poisson(n, radius, INITIAL_MAX_ANGLE, rng)
}

} // verus!
