//! Fixed-point scalar arithmetic.
//!
//! All geometry in this crate is carried out on integers: a real quantity is
//! held as its value times [`FP`], rounded.  Integer arithmetic is exact and
//! identical on every platform, which is what makes generation reproducible
//! bit for bit.  The trigonometric functions use a low-degree rational
//! approximation; its modest accuracy is fine here, since the sampler only
//! needs a deterministic, monotone notion of angle and distance, not exact
//! transcendentals.

use vstd::prelude::*;

verus! {

/// The fixed-point scale: a real value `v` is held as `v * FP`, rounded.
pub const FP: i64 = 65536;

/// One half turn (pi) in fixed-point units: `round(pi * FP)`.
pub const PI_FP: i64 = 205887;

/// A full turn (tau) in fixed-point units: `2 * PI_FP`.
pub const TAU_FP: i64 = 411774;

/// Half of pi in fixed-point units: `PI_FP / 2`, rounded down.
pub const HALF_PI_FP: i64 = 102943;

/// Clamp of an integer into `[lo, hi]`.
pub open spec fn spec_clamp(v: int, lo: int, hi: int) -> int {
    if v < lo {
        lo
    } else if v > hi {
        hi
    } else {
        v
    }
}

/// Clamp a wide intermediate into `[lo, hi]` and narrow it.
pub fn clamp_i128(v: i128, lo: i64, hi: i64) -> (r: i64)
    requires
        lo <= hi,
    ensures
        r as int == spec_clamp(v as int, lo as int, hi as int),
        lo <= r <= hi,
{
    if v < lo as i128 {
        lo
    } else if v > hi as i128 {
        hi
    } else {
        v as i64
    }
}

/// Sine on the first half turn, by a rational approximation: for `x` in
/// `[0, PI_FP]` this is close to `sin(x / FP) * FP`, clamped into `[0, FP]`.
pub open spec fn spec_sin_half(x: int) -> int {
    let u = x * (PI_FP - x);
    let num = 16 * u * FP;
    let den = 5 * PI_FP * PI_FP - 4 * u;
    spec_clamp(num / den, 0, FP as int)
}

/// Sine over a full turn: the second half is the negated mirror of the first.
pub open spec fn spec_sin(x: int) -> int {
    if x <= PI_FP {
        spec_sin_half(x)
    } else {
        -spec_sin_half(x - PI_FP)
    }
}

/// Cosine over a full turn, as sine shifted a quarter turn.
pub open spec fn spec_cos(x: int) -> int {
    let y = x + HALF_PI_FP;
    if y >= TAU_FP {
        spec_sin(y - TAU_FP)
    } else {
        spec_sin(y)
    }
}

/// Fixed-point sine of an angle in `[0, PI_FP]`.
pub fn sin_half(x: i64) -> (r: i64)
    requires
        0 <= x <= PI_FP,
    ensures
        r as int == spec_sin_half(x as int),
        0 <= r <= FP,
{
    let xw = x as i128;
    let pi = PI_FP as i128;
    proof {
        assert(0 <= xw * (pi - xw) && xw * (pi - xw) <= pi * pi) by (nonlinear_arith)
            requires
                0 <= xw <= pi,
        ;
    }
    let u: i128 = xw * (pi - xw);
    let num: i128 = 16 * u * (FP as i128);
    let den: i128 = 5 * pi * pi - 4 * u;
    clamp_i128(num / den, 0, FP)
}

/// Fixed-point sine of an angle in `[0, TAU_FP)`.
pub fn sin_fp(x: i64) -> (r: i64)
    requires
        0 <= x < TAU_FP,
    ensures
        r as int == spec_sin(x as int),
        -FP <= r <= FP,
{
    if x <= PI_FP {
        sin_half(x)
    } else {
        let s = sin_half(x - PI_FP);
        -s
    }
}

/// Fixed-point cosine of an angle in `[0, TAU_FP)`.
pub fn cos_fp(x: i64) -> (r: i64)
    requires
        0 <= x < TAU_FP,
    ensures
        r as int == spec_cos(x as int),
        -FP <= r <= FP,
{
    let y = x + HALF_PI_FP;
    if y >= TAU_FP {
        sin_fp(y - TAU_FP)
    } else {
        sin_fp(y)
    }
}

/// On the first quarter turn the sine approximation is monotone: a wider
/// angle never gives a smaller sine.
pub proof fn lemma_sin_half_mono(x1: int, x2: int)
    requires
        0 <= x1 <= x2,
        2 * x2 <= PI_FP,
    ensures
        spec_sin_half(x1) <= spec_sin_half(x2),
{
    let pi = PI_FP as int;
    let u1 = x1 * (pi - x1);
    let u2 = x2 * (pi - x2);
    assert(0 <= u1 && u1 <= u2 && 4 * u2 <= pi * pi) by (nonlinear_arith)
        requires
            0 <= x1 <= x2,
            2 * x2 <= pi,
            u1 == x1 * (pi - x1),
            u2 == x2 * (pi - x2),
            pi == PI_FP as int,
    ;
    let num1 = 16 * u1 * FP;
    let num2 = 16 * u2 * FP;
    let den1 = 5 * pi * pi - 4 * u1;
    let den2 = 5 * pi * pi - 4 * u2;
    assert(0 <= num1 && num1 <= num2 && 0 < den2 && den2 <= den1) by (nonlinear_arith)
        requires
            0 <= u1 <= u2,
            4 * u2 <= pi * pi,
            pi == PI_FP as int,
            num1 == 16 * u1 * FP,
            num2 == 16 * u2 * FP,
            den1 == 5 * pi * pi - 4 * u1,
            den2 == 5 * pi * pi - 4 * u2,
    ;
    vstd::arithmetic::div_mod::lemma_div_is_ordered_by_denominator(num1, den2, den1);
    vstd::arithmetic::div_mod::lemma_div_is_ordered(num1, num2, den2);
}

/// The integer square root of `x`: the unique `r >= 0` with
/// `r * r <= x < (r + 1) * (r + 1)`.
pub open spec fn spec_isqrt(x: int) -> int {
    choose|r: int| 0 <= r && #[trigger] (r * r) <= x < (r + 1) * (r + 1)
}

/// Integer square roots are unique.
pub proof fn lemma_isqrt_unique(x: int, r1: int, r2: int)
    requires
        0 <= r1,
        r1 * r1 <= x < (r1 + 1) * (r1 + 1),
        0 <= r2,
        r2 * r2 <= x < (r2 + 1) * (r2 + 1),
    ensures
        r1 == r2,
{
    if r1 < r2 {
        assert((r1 + 1) * (r1 + 1) <= r2 * r2) by (nonlinear_arith)
            requires
                0 <= r1,
                r1 < r2,
        ;
    }
    if r2 < r1 {
        assert((r2 + 1) * (r2 + 1) <= r1 * r1) by (nonlinear_arith)
            requires
                0 <= r2,
                r2 < r1,
        ;
    }
}

/// Integer square root of a wide nonnegative value, bit by bit.
pub fn isqrt(x: u128) -> (r: u64)
    requires
        x < 0x10000000000000000000000000u128,
    ensures
        r as int == spec_isqrt(x as int),
        (r as int) * (r as int) <= x as int,
        (x as int) < (r as int + 1) * (r as int + 1),
{
    let mut r: u64 = 0;
    let mut b: u32 = 50;
    proof {
        assert(1u64 << 50 == 0x4000000000000u64) by (bit_vector);
        assert(0x4000000000000int * 0x4000000000000int == 0x10000000000000000000000000int);
    }
    while b > 0
        invariant
            b <= 50,
            (x as int) < 0x10000000000000000000000000int,
            r < 0x4000000000000u64,
            (r as int) * (r as int) <= x as int,
            (x as int) < (r as int + (1u64 << b) as int) * (r as int + (1u64 << b) as int),
        decreases b,
    {
        b = b - 1;
        assert((1u64 << (b + 1) as u32) == 2 * (1u64 << b) && 1u64 << b >= 1 && (1u64 << b)
            <= 0x2000000000000u64) by (bit_vector)
            requires
                b < 50,
        ;
        let half: u64 = 1u64 << b;
        let cand: u64 = r + half;
        proof {
            assert((cand as int) * (cand as int) <= 0x24000000000000000000000000int)
                by (nonlinear_arith)
                requires
                    cand <= 0x6000000000000u64,
            ;
        }
        let candw = cand as u128;
        let sq = candw * candw;
        if sq <= x {
            proof {
                assert(cand < 0x4000000000000u64) by (nonlinear_arith)
                    requires
                        (cand as int) * (cand as int) <= x as int,
                        (x as int) < 0x10000000000000000000000000int,
                ;
            }
            r = cand;
        }
    }
    proof {
        assert(1u64 << 0u32 == 1u64) by (bit_vector);
    }
    proof {
        let rr = r as int;
        let w = spec_isqrt(x as int);
        assert(exists|q: int| 0 <= q && #[trigger] (q * q) <= x as int && (x as int) < (q + 1) * (q + 1)) by {
            assert(0 <= rr && rr * rr <= x as int && (x as int) < (rr + 1) * (rr + 1));
        }
        lemma_isqrt_unique(x as int, rr, w);
    }
    r
}

} // verus!
