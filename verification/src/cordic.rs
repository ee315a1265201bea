//! CORDIC (Coordinate Rotation Digital Computer) pure-integer arithmetic engine.
//!
//! Computes `sin`/`cos`, polar conversion and `atan2`, square roots and hyperbolic
//! `sqrt(x² - y²)`/`atanh` using only additions, subtractions and bit shifts. Each routine's
//! result is stated as the exact micro-rotation sequence it runs.
use vstd::prelude::*;
use crate::types::{clamp_int, q15, q31};

verus! {

/// CORDIC gain compensation factor in Q15 format (raw bits): `0.607252935 * 32768 ≈ 19898`.
pub const CORDIC_K_Q15: i16 = 19898;

/// CORDIC gain compensation factor in Q31 format (raw bits): `0.607252935 * 2^31`.
pub const CORDIC_K_Q31: i32 = 1304065792;

/// Number of CORDIC iterations.
pub const CORDIC_ITERATIONS: usize = 16;

/// Arctangent lookup table in Q15 radians (raw bits): `atan(2^-i) * 32768`.
pub const ATAN_TABLE_Q15: [i16; 16] = [
    25736,
    15193,
    8027,
    4075,
    2045,
    1024,
    512,
    256,
    128,
    64,
    32,
    16,
    8,
    4,
    2,
    1,
];

/// Arctangent lookup table in Q31 radians (raw bits): `atan(2^-i) * 2^31`.
pub const ATAN_TABLE_Q31: [i32; 16] = [
    1686629713,
    995716174,
    526057390,
    267073177,
    134079828,
    67098489,
    33556754,
    16779316,
    8389776,
    4194903,
    2097453,
    1048727,
    524363,
    262182,
    131091,
    65545,
];

// ─────────────────────────────────────────────────────────────────────────────
// Bounds
// ─────────────────────────────────────────────────────────────────────────────
/// A bound on the coordinates after `n` micro-rotations that start within `b0`: the first
/// (shift 0) may double them, each later one adds at most half plus one.
pub open spec fn growth_bound(b0: int, n: nat) -> int
    decreases n,
{
    if n == 0 {
        b0
    } else if n == 1 {
        2 * b0
    } else {
        let b = growth_bound(b0, (n - 1) as nat);
        b + b / 2 + 1
    }
}

proof fn lemma_growth_monotone(b0: int, n: nat)
    requires
        b0 >= 0,
    ensures
        growth_bound(b0, n) >= b0,
        growth_bound(b0, n + 1) >= growth_bound(b0, n),
    decreases n,
{
    if n > 0 {
        lemma_growth_monotone(b0, (n - 1) as nat);
    }
}

proof fn lemma_shr_i32(v: i32, s: u32, b: i32)
    requires
        s < 32,
        0 <= b,
        -b <= v <= b,
    ensures
        -b <= v >> s <= b,
        s >= 1 ==> -(b / 2) - 1 <= v >> s <= b / 2,
{
    assert(-b <= v >> s <= b && (s >= 1 ==> -(b >> 1u32) - 1 <= v >> s <= (b >> 1u32)) && (b
        >> 1u32) == b / 2) by (bit_vector)
        requires
            s < 32,
            0 <= b,
            -b <= v <= b,
    ;
}

proof fn lemma_shr_i64(v: i64, s: u32, b: i64)
    requires
        s < 64,
        0 <= b,
        -b <= v <= b,
    ensures
        -b <= v >> s <= b,
        s >= 1 ==> -(b / 2) - 1 <= v >> s <= b / 2,
{
    assert(-b <= v >> s <= b && (s >= 1 ==> -(b >> 1u32) - 1 <= v >> s <= (b >> 1u32)) && (b
        >> 1u32) == b / 2) by (bit_vector)
        requires
            s < 64,
            0 <= b,
            -b <= v <= b,
    ;
}

// ─────────────────────────────────────────────────────────────────────────────
// Circular rotation mode
// ─────────────────────────────────────────────────────────────────────────────
/// The state `(x, y, z)` after `n` Q15 rotation-mode micro-rotations from `(K, 0, angle)`: each
/// step turns by `±atan(2^-i)` towards `z == 0`.
pub open spec fn rotation_q15(angle: i16, n: nat) -> (i32, i32, i32)
    decreases n,
{
    if n == 0 {
        (CORDIC_K_Q15 as i32, 0i32, angle as i32)
    } else {
        let (x, y, z) = rotation_q15(angle, (n - 1) as nat);
        let i = (n - 1) as u32;
        if z >= 0 {
            (
                (x - (y >> i)) as i32,
                (y + (x >> i)) as i32,
                (z - ATAN_TABLE_Q15[i as int]) as i32,
            )
        } else {
            (
                (x + (y >> i)) as i32,
                (y - (x >> i)) as i32,
                (z + ATAN_TABLE_Q15[i as int]) as i32,
            )
        }
    }
}

proof fn lemma_atan_q15_bounds()
    ensures
        forall|i: int| 0 <= i < 16 ==> 0 < #[trigger] ATAN_TABLE_Q15[i] <= 25736,
{
}

proof fn lemma_rotation_q15_bounds(angle: i16, n: nat)
    requires
        n <= 16,
    ensures
        -growth_bound(19898, n) <= rotation_q15(angle, n).0 <= growth_bound(19898, n),
        -growth_bound(19898, n) <= rotation_q15(angle, n).1 <= growth_bound(19898, n),
        -32768 - 25736 * n <= rotation_q15(angle, n).2 <= 32767 + 25736 * n,
        growth_bound(19898, n) <= 0x7000_0000,
    decreases n,
{
    reveal_with_fuel(growth_bound, 17);
    lemma_atan_q15_bounds();
    if n > 0 {
        lemma_rotation_q15_bounds(angle, (n - 1) as nat);
        let (x, y, z) = rotation_q15(angle, (n - 1) as nat);
        let b = growth_bound(19898, (n - 1) as nat);
        let i = (n - 1) as u32;
        lemma_shr_i32(x, i, b as i32);
        lemma_shr_i32(y, i, b as i32);
    }
}

/// Computes `(sin(θ), cos(θ))` for an angle in Q15 radians (`[-π/2, π/2]`), by 16 CORDIC
/// rotations from `(K, 0)`; the final coordinates are saturated to Q15.
pub fn cordic_sin_cos_q15(angle_rad: q15) -> (r: (q15, q15))
    ensures
        r.0.0 == clamp_int(rotation_q15(angle_rad.0, 16).1 as int, i16::MIN as int, i16::MAX as int),
        r.1.0 == clamp_int(rotation_q15(angle_rad.0, 16).0 as int, i16::MIN as int, i16::MAX as int),
{
    let mut x: i32 = CORDIC_K_Q15 as i32;
    let mut y: i32 = 0;
    let mut z: i32 = angle_rad.0 as i32;
    let mut i: usize = 0;
    while i < CORDIC_ITERATIONS
        invariant
            i <= 16,
            (x, y, z) == rotation_q15(angle_rad.0, i as nat),
        decreases 16 - i,
    {
        proof {
            lemma_rotation_q15_bounds(angle_rad.0, i as nat);
            lemma_rotation_q15_bounds(angle_rad.0, (i + 1) as nat);
            lemma_atan_q15_bounds();
            reveal_with_fuel(growth_bound, 17);
            lemma_shr_i32(x, i as u32, growth_bound(19898, i as nat) as i32);
            lemma_shr_i32(y, i as u32, growth_bound(19898, i as nat) as i32);
        }
        let s: u32 = i as u32;
        let a: i32 = ATAN_TABLE_Q15[i] as i32;
        if z >= 0 {
            let x_new = x - (y >> s);
            let y_new = y + (x >> s);
            x = x_new;
            y = y_new;
            z = z - a;
        } else {
            let x_new = x + (y >> s);
            let y_new = y - (x >> s);
            x = x_new;
            y = y_new;
            z = z + a;
        }
        i = i + 1;
    }
    let sin = q15(crate::types::saturate_i16(y as i64));
    let cos = q15(crate::types::saturate_i16(x as i64));
    (sin, cos)
}

/// The state `(x, y, z)` after `n` Q31 rotation-mode micro-rotations from `(K, 0, angle)`.
pub open spec fn rotation_q31(angle: i32, n: nat) -> (i64, i64, i64)
    decreases n,
{
    if n == 0 {
        (CORDIC_K_Q31 as i64, 0i64, angle as i64)
    } else {
        let (x, y, z) = rotation_q31(angle, (n - 1) as nat);
        let i = (n - 1) as u32;
        if z >= 0 {
            (
                (x - (y >> i)) as i64,
                (y + (x >> i)) as i64,
                (z - ATAN_TABLE_Q31[i as int]) as i64,
            )
        } else {
            (
                (x + (y >> i)) as i64,
                (y - (x >> i)) as i64,
                (z + ATAN_TABLE_Q31[i as int]) as i64,
            )
        }
    }
}

proof fn lemma_atan_q31_bounds()
    ensures
        forall|i: int| 0 <= i < 16 ==> 0 < #[trigger] ATAN_TABLE_Q31[i] <= 1686629713,
{
}

proof fn lemma_rotation_q31_bounds(angle: i32, n: nat)
    requires
        n <= 16,
    ensures
        -growth_bound(0x8000_0000, n) <= rotation_q31(angle, n).0 <= growth_bound(0x8000_0000, n),
        -growth_bound(0x8000_0000, n) <= rotation_q31(angle, n).1 <= growth_bound(0x8000_0000, n),
        -0x8000_0000 - 1686629713 * n <= rotation_q31(angle, n).2 <= 0x7fff_ffff + 1686629713 * n,
        growth_bound(0x8000_0000, n) <= 0x1000_0000_0000,
    decreases n,
{
    reveal_with_fuel(growth_bound, 17);
    lemma_atan_q31_bounds();
    if n > 0 {
        lemma_rotation_q31_bounds(angle, (n - 1) as nat);
        let (x, y, z) = rotation_q31(angle, (n - 1) as nat);
        let b = growth_bound(0x8000_0000, (n - 1) as nat);
        let i = (n - 1) as u32;
        lemma_shr_i64(x, i, b as i64);
        lemma_shr_i64(y, i, b as i64);
    }
}

/// Computes `(sin(θ), cos(θ))` for an angle in Q31 radians, by 16 CORDIC rotations from
/// `(K, 0)` in 64-bit arithmetic; the final coordinates are saturated to Q31.
pub fn cordic_sin_cos_q31(angle_rad: q31) -> (r: (q31, q31))
    ensures
        r.0.0 == clamp_int(rotation_q31(angle_rad.0, 16).1 as int, i32::MIN as int, i32::MAX as int),
        r.1.0 == clamp_int(rotation_q31(angle_rad.0, 16).0 as int, i32::MIN as int, i32::MAX as int),
{
    let mut x: i64 = CORDIC_K_Q31 as i64;
    let mut y: i64 = 0;
    let mut z: i64 = angle_rad.0 as i64;
    let mut i: usize = 0;
    while i < CORDIC_ITERATIONS
        invariant
            i <= 16,
            (x, y, z) == rotation_q31(angle_rad.0, i as nat),
        decreases 16 - i,
    {
        proof {
            lemma_rotation_q31_bounds(angle_rad.0, i as nat);
            lemma_rotation_q31_bounds(angle_rad.0, (i + 1) as nat);
            lemma_atan_q31_bounds();
            reveal_with_fuel(growth_bound, 17);
            lemma_shr_i64(x, i as u32, growth_bound(0x8000_0000, i as nat) as i64);
            lemma_shr_i64(y, i as u32, growth_bound(0x8000_0000, i as nat) as i64);
        }
        let s: u32 = i as u32;
        let a: i64 = ATAN_TABLE_Q31[i] as i64;
        if z >= 0 {
            let x_new = x - (y >> s);
            let y_new = y + (x >> s);
            x = x_new;
            y = y_new;
            z = z - a;
        } else {
            let x_new = x + (y >> s);
            let y_new = y - (x >> s);
            x = x_new;
            y = y_new;
            z = z + a;
        }
        i = i + 1;
    }
    let sin = q31(crate::types::saturate_i32(y));
    let cos = q31(crate::types::saturate_i32(x));
    (sin, cos)
}

// ─────────────────────────────────────────────────────────────────────────────
// Circular vectoring mode
// ─────────────────────────────────────────────────────────────────────────────
/// The state `(x, y, z)` after `n` Q15 vectoring-mode micro-rotations from `(x0, y0, 0)`: each
/// step turns by `±atan(2^-i)` towards `y == 0`, accumulating the angle in `z`.
pub open spec fn vectoring_q15(x0: i32, y0: i32, n: nat) -> (i32, i32, i32)
    decreases n,
{
    if n == 0 {
        (x0, y0, 0i32)
    } else {
        let (x, y, z) = vectoring_q15(x0, y0, (n - 1) as nat);
        let i = (n - 1) as u32;
        if y < 0 {
            (
                (x - (y >> i)) as i32,
                (y + (x >> i)) as i32,
                (z - ATAN_TABLE_Q15[i as int]) as i32,
            )
        } else {
            (
                (x + (y >> i)) as i32,
                (y - (x >> i)) as i32,
                (z + ATAN_TABLE_Q15[i as int]) as i32,
            )
        }
    }
}

proof fn lemma_vectoring_q15_bounds(x0: i32, y0: i32, n: nat)
    requires
        n <= 16,
        -32768 <= x0 <= 32768,
        -32768 <= y0 <= 32768,
    ensures
        -growth_bound(32768, n) <= vectoring_q15(x0, y0, n).0 <= growth_bound(32768, n),
        -growth_bound(32768, n) <= vectoring_q15(x0, y0, n).1 <= growth_bound(32768, n),
        -25736 * n <= vectoring_q15(x0, y0, n).2 <= 25736 * n,
        growth_bound(32768, n) <= 0x7000_0000,
    decreases n,
{
    reveal_with_fuel(growth_bound, 17);
    lemma_atan_q15_bounds();
    if n > 0 {
        lemma_vectoring_q15_bounds(x0, y0, (n - 1) as nat);
        let (x, y, z) = vectoring_q15(x0, y0, (n - 1) as nat);
        let b = growth_bound(32768, (n - 1) as nat);
        let i = (n - 1) as u32;
        lemma_shr_i32(x, i, b as i32);
        lemma_shr_i32(y, i, b as i32);
    }
}

/// `2π` in the Q15 angle scale used by the quadrant correction (`4 * 25736`).
pub open spec fn polar_turn_q15() -> int {
    102944
}

/// The polar angle for input `(x, y)`: the vectoring angle of `(|x|, y)`, saturated to Q15,
/// then reflected into the left half-plane (`±2π - angle`, saturated) when `x < 0`.
pub open spec fn polar_angle_q15(x: i16, y: i16) -> int {
    let ax: i32 = (if x < 0 { -(x as int) } else { x as int }) as i32;
    let z = vectoring_q15(ax, y as i32, 16).2;
    let a = clamp_int(z as int, i16::MIN as int, i16::MAX as int);
    if x < 0 {
        if a >= 0 {
            clamp_int(polar_turn_q15() - a, i16::MIN as int, i16::MAX as int)
        } else {
            clamp_int(-polar_turn_q15() - a, i16::MIN as int, i16::MAX as int)
        }
    } else {
        a
    }
}

/// The polar magnitude for input `(x, y)`: the vectoring `x` times `K`, shifted down by 15 and
/// saturated to `[0, i16::MAX]`.
pub open spec fn polar_magnitude_q15(x: i16, y: i16) -> int {
    let ax: i32 = (if x < 0 { -(x as int) } else { x as int }) as i32;
    let xf = vectoring_q15(ax, y as i32, 16).0;
    clamp_int((xf * CORDIC_K_Q15) / 0x8000, 0, i16::MAX as int)
}

/// Converts Cartesian coordinates `(x, y)` to Polar `(magnitude, angle_rad)` using CORDIC
/// vectoring mode; `(0, 0)` maps to `(0, 0)`.
///
/// Returns `(magnitude, angle_rad)` in Q15 format.
pub fn cordic_cartesian_to_polar_q15(x_in: q15, y_in: q15) -> (r: (q15, q15))
    ensures
        x_in.0 == 0 && y_in.0 == 0 ==> r.0.0 == 0 && r.1.0 == 0,
        !(x_in.0 == 0 && y_in.0 == 0) ==> r.0.0 == polar_magnitude_q15(x_in.0, y_in.0)
            && r.1.0 == polar_angle_q15(x_in.0, y_in.0),
{
    if x_in.0 == 0 && y_in.0 == 0 {
        return (q15(0), q15(0));
    }
    let x0: i32 = if x_in.0 < 0 {
        -(x_in.0 as i32)
    } else {
        x_in.0 as i32
    };
    let y0: i32 = y_in.0 as i32;
    let mut x = x0;
    let mut y = y0;
    let mut z: i32 = 0;
    let mut i: usize = 0;
    while i < CORDIC_ITERATIONS
        invariant
            i <= 16,
            -32768 <= x0 <= 32768,
            -32768 <= y0 <= 32768,
            (x, y, z) == vectoring_q15(x0, y0, i as nat),
        decreases 16 - i,
    {
        proof {
            lemma_vectoring_q15_bounds(x0, y0, i as nat);
            lemma_vectoring_q15_bounds(x0, y0, (i + 1) as nat);
            lemma_atan_q15_bounds();
            reveal_with_fuel(growth_bound, 17);
            lemma_shr_i32(x, i as u32, growth_bound(32768, i as nat) as i32);
            lemma_shr_i32(y, i as u32, growth_bound(32768, i as nat) as i32);
        }
        let s: u32 = i as u32;
        let a: i32 = ATAN_TABLE_Q15[i] as i32;
        if y < 0 {
            let x_new = x - (y >> s);
            let y_new = y + (x >> s);
            x = x_new;
            y = y_new;
            z = z - a;
        } else {
            let x_new = x + (y >> s);
            let y_new = y - (x >> s);
            x = x_new;
            y = y_new;
            z = z + a;
        }
        i = i + 1;
    }
    proof {
        lemma_vectoring_q15_bounds(x0, y0, 16);
        crate::types::lemma_mul_abs_bound(x as int, CORDIC_K_Q15 as int, 0x7000_0000);
    }
    // Compensate gain K: magnitude = x * K (the product is formed in 64 bits).
    let p: i64 = x as i64 * CORDIC_K_Q15 as i64;
    proof {
        crate::types::lemma_shr_is_floor_div();
    }
    assert((p >> 15u64) == p / 0x8000);
    let scaled: i64 = p >> 15u64;
    let mag_bits: i16 = if scaled < 0 {
        0
    } else if scaled > i16::MAX as i64 {
        i16::MAX
    } else {
        scaled as i16
    };
    let mut angle: i16 = crate::types::saturate_i16(z as i64);
    if x_in.0 < 0 {
        angle = if angle >= 0 {
            crate::types::saturate_i16(25736 * 4 - angle as i64)
        } else {
            crate::types::saturate_i16(-25736 * 4 - angle as i64)
        };
    }
    (q15(mag_bits), q15(angle))
}

/// Four-quadrant inverse tangent `atan2(y, x)` computed via CORDIC vectoring mode (the angle
/// of [`cordic_cartesian_to_polar_q15`]).
pub fn cordic_atan2_q15(y: q15, x: q15) -> (r: q15)
    ensures
        x.0 == 0 && y.0 == 0 ==> r.0 == 0,
        !(x.0 == 0 && y.0 == 0) ==> r.0 == polar_angle_q15(x.0, y.0),
{
    let (_, angle) = cordic_cartesian_to_polar_q15(x, y);
    angle
}

// ─────────────────────────────────────────────────────────────────────────────
// Hyperbolic vectoring mode
// ─────────────────────────────────────────────────────────────────────────────
/// Number of hyperbolic microrotation shifts.
pub const HYP_ITERATIONS: usize = 30;

/// Hyperbolic microrotation table: `atanh(2^-j)` in Q1.31 for `j = 1..=30`.
pub const HYP_ATANH_TABLE_Q31: [i32; 30] = [
    1179625963,
    548494837,
    269846813,
    134392901,
    67130722,
    33557163,
    16777557,
    8388651,
    4194309,
    2097153,
    1048576,
    524288,
    262144,
    131072,
    65536,
    32768,
    16384,
    8192,
    4096,
    2048,
    1024,
    512,
    256,
    128,
    64,
    32,
    16,
    8,
    4,
    2,
];

/// `1 / G` for the hyperbolic CORDIC gain `G = Π sqrt(1 - 2^-2j)` (`≈ 0.82815936`), in Q30.
pub const HYP_GAIN_INV_Q30: i64 = 1296540104;

/// The shift of hyperbolic microrotation `k`: `1, 2, 3, 4, 4, 5, ..., 13, 13, 14, ..., 30`
/// (shifts 4 and 13 are repeated for convergence).
pub open spec fn hyp_shift(k: nat) -> nat {
    if k < 4 {
        k + 1
    } else if k < 14 {
        k
    } else {
        (k - 1) as nat
    }
}

/// The number of hyperbolic microrotations.
pub open spec fn hyp_steps() -> nat {
    32
}

/// The state `(x, y, z)` after `n` hyperbolic vectoring microrotations from `(x0, y0, 0)`:
/// with `j` the step's shift and `a = atanh(2^-j)`, `(x, y, z)` becomes
/// `(x + (y >> j), y + (x >> j), z - a)` when `y <= 0` and `(x - (y >> j), y - (x >> j), z + a)`
/// otherwise.
pub open spec fn hyperbolic_q31(x0: i64, y0: i64, n: nat) -> (i64, i64, i64)
    decreases n,
{
    if n == 0 {
        (x0, y0, 0i64)
    } else {
        let (x, y, z) = hyperbolic_q31(x0, y0, (n - 1) as nat);
        let j = hyp_shift((n - 1) as nat) as u32;
        let a = HYP_ATANH_TABLE_Q31[j - 1];
        if y <= 0 {
            ((x + (y >> j)) as i64, (y + (x >> j)) as i64, (z - a) as i64)
        } else {
            ((x - (y >> j)) as i64, (y - (x >> j)) as i64, (z + a) as i64)
        }
    }
}

proof fn lemma_hyp_table_bounds()
    ensures
        forall|i: int| 0 <= i < 30 ==> 0 < #[trigger] HYP_ATANH_TABLE_Q31[i] <= 1179625963,
{
}


proof fn lemma_hyperbolic_growth_value()
    ensures
        growth_bound(0x1_0000_0000, 32) <= 0x1000_0000_0000_0000,
{
    assert(growth_bound(0x1_0000_0000, 1) == 8589934592);
    assert(growth_bound(0x1_0000_0000, 2) == 12884901889);
    assert(growth_bound(0x1_0000_0000, 3) == 19327352834);
    assert(growth_bound(0x1_0000_0000, 4) == 28991029252);
    assert(growth_bound(0x1_0000_0000, 5) == 43486543879);
    assert(growth_bound(0x1_0000_0000, 6) == 65229815819);
    assert(growth_bound(0x1_0000_0000, 7) == 97844723729);
    assert(growth_bound(0x1_0000_0000, 8) == 146767085594);
    assert(growth_bound(0x1_0000_0000, 9) == 220150628392);
    assert(growth_bound(0x1_0000_0000, 10) == 330225942589);
    assert(growth_bound(0x1_0000_0000, 11) == 495338913884);
    assert(growth_bound(0x1_0000_0000, 12) == 743008370827);
    assert(growth_bound(0x1_0000_0000, 13) == 1114512556241);
    assert(growth_bound(0x1_0000_0000, 14) == 1671768834362);
    assert(growth_bound(0x1_0000_0000, 15) == 2507653251544);
    assert(growth_bound(0x1_0000_0000, 16) == 3761479877317);
    assert(growth_bound(0x1_0000_0000, 17) == 5642219815976);
    assert(growth_bound(0x1_0000_0000, 18) == 8463329723965);
    assert(growth_bound(0x1_0000_0000, 19) == 12694994585948);
    assert(growth_bound(0x1_0000_0000, 20) == 19042491878923);
    assert(growth_bound(0x1_0000_0000, 21) == 28563737818385);
    assert(growth_bound(0x1_0000_0000, 22) == 42845606727578);
    assert(growth_bound(0x1_0000_0000, 23) == 64268410091368);
    assert(growth_bound(0x1_0000_0000, 24) == 96402615137053);
    assert(growth_bound(0x1_0000_0000, 25) == 144603922705580);
    assert(growth_bound(0x1_0000_0000, 26) == 216905884058371);
    assert(growth_bound(0x1_0000_0000, 27) == 325358826087557);
    assert(growth_bound(0x1_0000_0000, 28) == 488038239131336);
    assert(growth_bound(0x1_0000_0000, 29) == 732057358697005);
    assert(growth_bound(0x1_0000_0000, 30) == 1098086038045508);
    assert(growth_bound(0x1_0000_0000, 31) == 1647129057068263);
    assert(growth_bound(0x1_0000_0000, 32) == 2470693585602395);
}

proof fn lemma_growth_le(b0: int, n: nat, m: nat)
    requires
        b0 >= 0,
        n <= m,
    ensures
        growth_bound(b0, n) <= growth_bound(b0, m),
    decreases m - n,
{
    if n < m {
        lemma_growth_le(b0, n, (m - 1) as nat);
        lemma_growth_monotone(b0, (m - 1) as nat);
    }
}

proof fn lemma_hyperbolic_bounds(x0: i64, y0: i64, n: nat)
    requires
        n <= 32,
        -0x1_0000_0000 <= x0 <= 0x1_0000_0000,
        -0x1_0000_0000 <= y0 <= 0x1_0000_0000,
    ensures
        -growth_bound(0x1_0000_0000, n) <= hyperbolic_q31(x0, y0, n).0 <= growth_bound(
            0x1_0000_0000,
            n,
        ),
        -growth_bound(0x1_0000_0000, n) <= hyperbolic_q31(x0, y0, n).1 <= growth_bound(
            0x1_0000_0000,
            n,
        ),
        -1179625963 * n <= hyperbolic_q31(x0, y0, n).2 <= 1179625963 * n,
        growth_bound(0x1_0000_0000, n) <= 0x1000_0000_0000_0000,
    decreases n,
{
    lemma_hyp_table_bounds();
    lemma_hyperbolic_growth_value();
    lemma_growth_le(0x1_0000_0000, n, 32);
    lemma_growth_monotone(0x1_0000_0000, n);
    if n > 0 {
        lemma_hyperbolic_bounds(x0, y0, (n - 1) as nat);
        let (x, y, z) = hyperbolic_q31(x0, y0, (n - 1) as nat);
        let b = growth_bound(0x1_0000_0000, (n - 1) as nat);
        let j = hyp_shift((n - 1) as nat) as u32;
        lemma_shr_i64(x, j, b as i64);
        lemma_shr_i64(y, j, b as i64);
    }
}

/// `(x, y)` lies in the hyperbolic vectoring domain: `x > 0` and `|y| < x`.
pub open spec fn hyperbolic_domain(x: i32, y: i32) -> bool {
    x > 0 && (if y < 0 { -y } else { y as int }) < x
}

/// The pre-scaled start `(x * G⁻¹) >> 30`.
pub open spec fn hyp_prescale(v: i32) -> int {
    (v * HYP_GAIN_INV_Q30) / 0x4000_0000
}

/// Computes `(sqrt(x² - y²), atanh(y/x))` by hyperbolic CORDIC vectoring mode.
///
/// The inputs are pre-scaled by the inverse gain, run through the 32 microrotations, and the
/// final `x` (clamped to `[0, i32::MAX]`) and `z` (saturated) are returned. Inputs outside the
/// domain `x > 0`, `|y| < x` return `(0, 0)`.
pub fn cordic_sqrt_atanh2_q31(x: q31, y: q31) -> (r: (q31, q31))
    ensures
        !hyperbolic_domain(x.0, y.0) ==> r.0.0 == 0 && r.1.0 == 0,
        hyperbolic_domain(x.0, y.0) ==> {
            let (xf, yf, zf) = hyperbolic_q31(
                hyp_prescale(x.0) as i64,
                hyp_prescale(y.0) as i64,
                hyp_steps(),
            );
            &&& r.0.0 == clamp_int(xf as int, 0, i32::MAX as int)
            &&& r.1.0 == clamp_int(zf as int, i32::MIN as int, i32::MAX as int)
        },
{
    let mut xi: i64 = x.0 as i64;
    let mut yi: i64 = y.0 as i64;

    let ay: i64 = if yi < 0 {
        -yi
    } else {
        yi
    };
    if xi <= 0 || ay >= xi {
        return (q31(0), q31(0));
    }
    proof {
        crate::types::lemma_mul_abs_bound(xi as int, HYP_GAIN_INV_Q30 as int, 0x8000_0000);
        crate::types::lemma_mul_abs_bound(yi as int, HYP_GAIN_INV_Q30 as int, 0x8000_0000);
    }
    let px: i64 = xi * HYP_GAIN_INV_Q30;
    let py: i64 = yi * HYP_GAIN_INV_Q30;
    proof {
        crate::types::lemma_shr_is_floor_div();
    }
    assert((px >> 30u64) == px / 0x4000_0000);
    assert((py >> 30u64) == py / 0x4000_0000);
    xi = px >> 30u64;
    yi = py >> 30u64;
    let ghost x0 = xi;
    let ghost y0 = yi;

    let mut z: i64 = 0;
    let mut j: usize = 1;
    let mut repeat_at: usize = 4;
    while j <= HYP_ITERATIONS
        invariant
            1 <= j <= 31,
            -0x1_0000_0000 <= x0 <= 0x1_0000_0000,
            -0x1_0000_0000 <= y0 <= 0x1_0000_0000,
            repeat_at == (if j <= 4 {
                4usize
            } else if j <= 13 {
                13
            } else {
                40
            }),
            (xi, yi, z) == hyperbolic_q31(
                x0,
                y0,
                ((j - 1) + (if j > 4 {
                    1int
                } else {
                    0
                }) + (if j > 13 {
                    1int
                } else {
                    0
                })) as nat,
            ),
        decreases 31 - j,
    {
        let ghost k0: int = (j - 1) + (if j > 4 {
            1int
        } else {
            0
        }) + (if j > 13 {
            1int
        } else {
            0
        });
        let repeats: usize = if j == repeat_at {
            repeat_at = 3 * j + 1;
            2
        } else {
            1
        };
        let a: i64 = HYP_ATANH_TABLE_Q31[j - 1] as i64;
        let mut r: usize = 0;
        while r < repeats
            invariant
                1 <= j <= 30,
                repeats == (if j == 4 || j == 13 {
                    2usize
                } else {
                    1
                }),
                0 <= r <= repeats,
                k0 == (j - 1) + (if j > 4 {
                    1int
                } else {
                    0
                }) + (if j > 13 {
                    1int
                } else {
                    0
                }),
                a == HYP_ATANH_TABLE_Q31[j - 1],
                -0x1_0000_0000 <= x0 <= 0x1_0000_0000,
                -0x1_0000_0000 <= y0 <= 0x1_0000_0000,
                (xi, yi, z) == hyperbolic_q31(x0, y0, (k0 + r) as nat),
            decreases repeats - r,
        {
            let ghost k = (k0 + r) as nat;
            proof {
                assert(hyp_shift(k) == j);
                lemma_hyperbolic_bounds(x0, y0, k);
                lemma_hyperbolic_bounds(x0, y0, k + 1);
                lemma_hyp_table_bounds();
                lemma_shr_i64(xi, j as u32, growth_bound(0x1_0000_0000, k) as i64);
                lemma_shr_i64(yi, j as u32, growth_bound(0x1_0000_0000, k) as i64);
            }
            // `dx` comes from `y` and `dy` from `x` (both read before either is updated).
            let s: u32 = j as u32;
            let dx = yi >> s;
            let dy = xi >> s;
            if yi <= 0 {
                xi = xi + dx;
                yi = yi + dy;
                z = z - a;
            } else {
                xi = xi - dx;
                yi = yi - dy;
                z = z + a;
            }
            r = r + 1;
        }
        j = j + 1;
    }

    let mag: i32 = if xi < 0 {
        0
    } else if xi > i32::MAX as i64 {
        i32::MAX
    } else {
        xi as i32
    };
    let ang: i32 = crate::types::saturate_i32(z);
    (q31(mag), q31(ang))
}

/// Computes `atanh(y / x)` in Q31 radians by hyperbolic CORDIC vectoring mode (the angle of
/// [`cordic_sqrt_atanh2_q31`]).
pub fn cordic_atanh_q31(y: q31, x: q31) -> (r: q31)
    ensures
        !hyperbolic_domain(x.0, y.0) ==> r.0 == 0,
        hyperbolic_domain(x.0, y.0) ==> r.0 == clamp_int(
            hyperbolic_q31(hyp_prescale(x.0) as i64, hyp_prescale(y.0) as i64, hyp_steps()).2 as int,
            i32::MIN as int,
            i32::MAX as int,
        ),
{
    cordic_sqrt_atanh2_q31(x, y).1
}

/// Square root of a non-negative Q15 number (`sqrt(x / 2^15) * 2^15`, the integer square root
/// of `x * 2^15`); zero or negative input gives 0.
pub fn cordic_sqrt_q15(x: q15) -> (r: q15)
    ensures
        x.0 <= 0 ==> r.0 == 0,
        x.0 > 0 ==> crate::fast_math::is_isqrt(x.0 * 0x8000, r.0 as int),
{
    if x.0 <= 0 {
        return q15(0);
    }
    let mut out = q15(0);
    let _ = crate::fast_math::sqrt_q15(x, &mut out);
    out
}

} // verus!
