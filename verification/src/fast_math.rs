//! Integer phase arithmetic: lookup-table `cossin`, `atan2`, phase unwrapping and the
//! wrapping/saturating helpers that go with them.
use vstd::prelude::*;
use vstd::wrapping::i32_specs;
use crate::types::{clamp_int, fixed_quotient, q15, q31, Status};

verus! {

// ─────────────────────────────────────────────────────────────────────────────
// Integer phase-unwrap utilities
// ─────────────────────────────────────────────────────────────────────────────

/// Subtract `y - x` with wrapping, returning `(delta, wrap_sign)`, where the true difference is
/// `delta - wrap_sign * 2^32` and `wrap_sign` is `0` when no wrap occurred.
pub fn overflowing_sub_i32(y: i32, x: i32) -> (r: (i32, i8))
    ensures
        r.0 == i32_specs::wrapping_sub(y, x),
        -1 <= r.1 <= 1,
        y - x == r.0 - r.1 * 0x1_0000_0000,
{
    let delta = y.wrapping_sub(x);
    let wrap = (delta >= 0) as i8 - (y >= x) as i8;
    (delta, wrap)
}

/// The value `saturating_scale_i32` returns: `lo` scaled down by `2^shift` (rounding toward
/// negative infinity) plus `hi` scaled up by `2^(32 - shift)`, clamped to the `i32` range.
pub open spec fn saturating_scale_i32_spec(lo: i32, hi: i32, shift: u32) -> i32 {
    let down = vstd::arithmetic::power2::pow2(shift as nat) as int;
    let up = vstd::arithmetic::power2::pow2((32 - shift) as nat) as int;
    clamp_int(lo as int / down + hi as int * up, i32::MIN as int, i32::MAX as int) as i32
}

/// `lo / 2^shift`, rounded toward negative infinity, for `shift` in `1..=32`.
fn floor_shift_i32(lo: i32, shift: u32) -> (r: i64)
    requires
        1 <= shift <= 32,
    ensures
        r == lo as int / vstd::arithmetic::power2::pow2(shift as nat) as int,
        -0x8000_0000 <= r < 0x8000_0000,
{
    let ghost d = vstd::arithmetic::power2::pow2(shift as nat) as int;
    proof {
        vstd::arithmetic::power2::lemma2_to64();
        vstd::arithmetic::power2::lemma_pow2_pos(shift as nat);
        vstd::arithmetic::power2::lemma_pow2_strictly_increases(0, shift as nat);
    }
    if shift == 32 {
        proof {
            assert(d == 0x1_0000_0000);
            if lo < 0 {
                vstd::arithmetic::div_mod::lemma_fundamental_div_mod_converse(
                    lo as int,
                    d,
                    -1,
                    lo as int + d,
                );
            } else {
                vstd::arithmetic::div_mod::lemma_fundamental_div_mod_converse(lo as int, d, 0, lo as int);
            }
        }
        if lo < 0 {
            -1
        } else {
            0
        }
    } else {
        let k: u32 = 31 - shift;
        let biased: u64 = (lo as i64 + 0x8000_0000i64) as u64;
        let q: u64 = biased >> (shift as u64);
        let bias: u64 = 1u64 << (k as u64);
        proof {
            vstd::bits::lemma_u64_shr_is_div(biased, shift as u64);
            vstd::arithmetic::power2::lemma_pow2_adds(shift as nat, k as nat);
            vstd::arithmetic::power2::lemma_pow2_strictly_increases(k as nat, 31);
            vstd::bits::lemma_u64_shl_is_mul(1, k as u64);
            let e = vstd::arithmetic::power2::pow2(k as nat) as int;
            assert(d * e == 0x8000_0000);
            assert(bias == e);
            vstd::arithmetic::div_mod::lemma_fundamental_div_mod(biased as int, d);
            let r = (biased as int) % d;
            assert(biased as int == d * q + r);
            assert(lo as int == d * (q - e) + r) by (nonlinear_arith)
                requires
                    biased as int == d * q + r,
                    biased as int == lo as int + 0x8000_0000,
                    d * e == 0x8000_0000,
            ;
            vstd::arithmetic::div_mod::lemma_fundamental_div_mod_converse(lo as int, d, q - e, r);
            vstd::arithmetic::div_mod::lemma_div_is_ordered_by_denominator(biased as int, 1, d);
            vstd::arithmetic::div_mod::lemma_div_pos_is_pos(biased as int, d);
        }
        q as i64 - bias as i64
    }
}

/// Combine `hi` (MSB) and `lo` (LSB) `i32` words into one `i32`, saturating on overflow.
///
/// `lo` is right-shifted by `shift` bits, `hi` is left-shifted by `32 - shift`, and the sum is
/// clamped to the `i32` range. Valid range: `1 <= shift <= 32`.
pub fn saturating_scale_i32(lo: i32, hi: i32, shift: u32) -> (r: i32)
    requires
        1 <= shift <= 32,
    ensures
        r == saturating_scale_i32_spec(lo, hi, shift),
{
    let down: i64 = floor_shift_i32(lo, shift);
    let k: u32 = 32 - shift;
    let m: u64 = 1u64 << (k as u64);
    proof {
        vstd::arithmetic::power2::lemma2_to64();
        if k < 31 {
            vstd::arithmetic::power2::lemma_pow2_strictly_increases(k as nat, 31);
        }
        vstd::bits::lemma_u64_shl_is_mul(1, k as u64);
        assert(m <= 0x8000_0000);
        assert(-0x8000_0000 * 0x8000_0000 <= hi as int * m as int <= 0x8000_0000 * 0x8000_0000)
            by (nonlinear_arith)
            requires
                -0x8000_0000 <= hi < 0x8000_0000,
                0 < m <= 0x8000_0000,
        ;
    }
    let v: i64 = down + (hi as i64) * (m as i64);
    if v < i32::MIN as i64 {
        i32::MIN
    } else if v > i32::MAX as i64 {
        i32::MAX
    } else {
        v as i32
    }
}

/// Stateful integer phase unwrapper.
///
/// Tracks a wrapping phase (e.g. from an NCO encoded as `i32`) and provides the signed
/// increment between successive samples.
#[derive(Copy, Clone, Debug, Default)]
pub struct IntPhaseUnwrapper {
    /// Last accumulated phase value.
    pub y: i32,
}

impl IntPhaseUnwrapper {
    /// Create a new unwrapper starting from zero.
    pub fn new() -> (r: Self)
        ensures
            r.y == 0,
    {
        Self { y: 0 }
    }

    /// Feed the next wrapped phase sample.
    ///
    /// Returns the signed phase increment `x - x_prev` (wrapping) and accumulates it into
    /// `self.y`, which therefore ends up equal to `x`.
    pub fn process(&mut self, x: i32) -> (dx: i32)
        ensures
            dx == i32_specs::wrapping_sub(x, old(self).y),
            final(self).y == x,
    {
        let dx = x.wrapping_sub(self.y);
        self.y = self.y.wrapping_add(dx);
        dx
    }

    /// Current accumulated phase.
    pub fn phase(&self) -> (r: i32)
        ensures
            r == self.y,
    {
        self.y
    }
}

/// Continuous phase tracker: counts turns whenever the phase wraps across the ±π boundary.
#[derive(Clone, Copy, Debug, Default, PartialEq, Eq)]
pub struct Unwrapper {
    last_phase: i32,
    turns: i32,
}

/// The turn count change `Unwrapper::update` applies: `+1` for a forward wrap from positive to
/// negative, `-1` for a backward wrap from negative to positive, else `0`.
pub open spec fn unwrap_turn_step(last: i32, phase: i32) -> int {
    let diff = i32_specs::wrapping_sub(phase, last);
    if last > 0 && phase < 0 && diff > 0 {
        1
    } else if last < 0 && phase > 0 && diff < 0 {
        -1
    } else {
        0
    }
}

impl Unwrapper {
    /// The phase seen last.
    pub closed spec fn last_phase(self) -> i32 {
        self.last_phase
    }

    /// Number of full turns counted so far.
    pub closed spec fn turn_count(self) -> i32 {
        self.turns
    }

    /// Create a new phase unwrapper initialized at zero.
    pub fn new() -> (r: Self)
        ensures
            r.last_phase() == 0,
            r.turn_count() == 0,
    {
        Self { last_phase: 0, turns: 0 }
    }

    /// Reset turn counter and history.
    pub fn reset(&mut self)
        ensures
            final(self).last_phase() == 0,
            final(self).turn_count() == 0,
    {
        self.last_phase = 0;
        self.turns = 0;
    }

    /// Update with a wrapped 32-bit phase and return the unwrapped 64-bit phase
    /// `turns * 2^32 + phase`, which moves on from the previous result by the wrapped step
    /// from the previous phase (see [`lemma_unwrap_continuous`]). The one value below the
    /// `i64` range, at `turns == i32::MIN` with a negative phase, wraps around.
    ///
    /// The turn counter is an `i32`; the update must not carry it out of range.
    pub fn update(&mut self, phase: i32) -> (r: i64)
        requires
            i32::MIN <= old(self).turn_count() + unwrap_turn_step(old(self).last_phase(), phase)
                <= i32::MAX,
        ensures
            final(self).turn_count() == old(self).turn_count() + unwrap_turn_step(
                old(self).last_phase(),
                phase,
            ),
            final(self).last_phase() == phase,
            r == vstd::wrapping::i64_specs::wrapping_add(
                (final(self).turn_count() * 0x1_0000_0000) as i64,
                phase as i64,
            ),
            i64::MIN <= final(self).turn_count() * 0x1_0000_0000 + phase ==> r
                == final(self).turn_count() * 0x1_0000_0000 + phase,
    {
        let diff = phase.wrapping_sub(self.last_phase);
        if self.last_phase > 0 && phase < 0 && diff > 0 {
            self.turns += 1;
        } else if self.last_phase < 0 && phase > 0 && diff < 0 {
            self.turns -= 1;
        }
        self.last_phase = phase;
        ((self.turns as i64) * 0x1_0000_0000i64).wrapping_add(phase as i64)
    }

    /// Current total number of 2π turns.
    pub fn turns(&self) -> (r: i32)
        ensures
            r == self.turn_count(),
    {
        self.turns
    }
}

/// Counting turns keeps the unwrapped phase continuous: the result of `Unwrapper::update`,
/// `turns * 2^32 + phase`, moves on from the previous result `turns_before * 2^32 + last` by
/// exactly the wrapped difference of successive phases. The one exception is a jump of exactly
/// half a turn from `i32::MIN` to `0`, which wraps without being counted.
pub proof fn lemma_unwrap_continuous(last: i32, phase: i32)
    requires
        !(last == i32::MIN && phase == 0),
    ensures
        unwrap_turn_step(last, phase) * 0x1_0000_0000 + phase - last == i32_specs::wrapping_sub(
            phase,
            last,
        ),
{
    let d = phase - last;
    let diff = i32_specs::wrapping_sub(phase, last);
    if d > i32::MAX {
        assert(diff == d - 0x1_0000_0000);
    } else if d < i32::MIN {
        assert(diff == d + 0x1_0000_0000);
    } else {
        assert(diff == d);
    }
}

// ─────────────────────────────────────────────────────────────────────────────
// Fixed-point trigonometry
// ─────────────────────────────────────────────────────────────────────────────

/// `π/4` in Q16: `(FRAC_PI_4 * 2^16) as i32`.
const COSSIN_PI4: i32 = 51471;

/// Depth of the cosine/sine midpoint lookup table (128 entries).
pub const COSSIN_DEPTH: usize = 7;

/// Midpoint lookup table covering `[0, π/4)` with 7-bit depth: the high half-word of entry
/// `i` is the sine and the low half-word the cosine (less `2^16`) at the midpoint of segment `i`.
pub open spec fn cossin_table(i: u32) -> u32 {
    match i {
        0 => 0x00c9fffd,
        1 => 0x025bfff8,
        2 => 0x03edffef,
        3 => 0x057fffe0,
        4 => 0x0711ffcc,
        5 => 0x08a3ffb3,
        6 => 0x0a35ff96,
        7 => 0x0bc7ff73,
        8 => 0x0d58ff4c,
        9 => 0x0eeaff1f,
        10 => 0x107bfeee,
        11 => 0x120dfeb8,
        12 => 0x139efe7d,
        13 => 0x152efe3d,
        14 => 0x16bffdf8,
        15 => 0x184ffdae,
        16 => 0x19e0fd5f,
        17 => 0x1b70fd0b,
        18 => 0x1cfffcb2,
        19 => 0x1e8ffc55,
        20 => 0x201efbf2,
        21 => 0x21acfb8b,
        22 => 0x233bfb1f,
        23 => 0x24c9faae,
        24 => 0x2657fa38,
        25 => 0x27e4f9bd,
        26 => 0x2971f93d,
        27 => 0x2afef8b8,
        28 => 0x2c8af82f,
        29 => 0x2e16f7a1,
        30 => 0x2fa1f70d,
        31 => 0x312cf675,
        32 => 0x32b6f5d8,
        33 => 0x3440f537,
        34 => 0x35caf490,
        35 => 0x3753f3e5,
        36 => 0x38dbf335,
        37 => 0x3a63f280,
        38 => 0x3beaf1c6,
        39 => 0x3d71f107,
        40 => 0x3ef7f044,
        41 => 0x407cef7b,
        42 => 0x4201eeaf,
        43 => 0x4385eddd,
        44 => 0x4509ed06,
        45 => 0x468cec2b,
        46 => 0x480eeb4b,
        47 => 0x498fea66,
        48 => 0x4b10e97d,
        49 => 0x4c90e88f,
        50 => 0x4e10e79c,
        51 => 0x4f8ee6a4,
        52 => 0x510ce5a8,
        53 => 0x5289e4a7,
        54 => 0x5405e3a1,
        55 => 0x5581e297,
        56 => 0x56fbe188,
        57 => 0x5875e075,
        58 => 0x59eedf5c,
        59 => 0x5b66de40,
        60 => 0x5cdddd1e,
        61 => 0x5e53dbf8,
        62 => 0x5fc9dacd,
        63 => 0x613dd99e,
        64 => 0x62b1d86a,
        65 => 0x6423d732,
        66 => 0x6595d5f5,
        67 => 0x6706d4b4,
        68 => 0x6875d36e,
        69 => 0x69e4d224,
        70 => 0x6b51d0d5,
        71 => 0x6cbecf81,
        72 => 0x6e29ce29,
        73 => 0x6f94cccd,
        74 => 0x70fdcb6c,
        75 => 0x7266ca07,
        76 => 0x73cdc89e,
        77 => 0x7533c730,
        78 => 0x7698c5bd,
        79 => 0x77fcc446,
        80 => 0x795ec2cb,
        81 => 0x7ac0c14c,
        82 => 0x7c20bfc8,
        83 => 0x7d7fbe40,
        84 => 0x7eddbcb4,
        85 => 0x803abb23,
        86 => 0x8195b98e,
        87 => 0x82efb7f5,
        88 => 0x8448b657,
        89 => 0x85a0b4b6,
        90 => 0x86f6b310,
        91 => 0x884bb166,
        92 => 0x899fafb7,
        93 => 0x8af1ae05,
        94 => 0x8c42ac4e,
        95 => 0x8d92aa94,
        96 => 0x8ee0a8d5,
        97 => 0x902da712,
        98 => 0x9179a54b,
        99 => 0x92c3a380,
        100 => 0x940ca1b1,
        101 => 0x95539fde,
        102 => 0x96999e07,
        103 => 0x97dd9c2b,
        104 => 0x99209a4c,
        105 => 0x9a629869,
        106 => 0x9ba29682,
        107 => 0x9ce19497,
        108 => 0x9e1e92a9,
        109 => 0x9f5990b6,
        110 => 0xa0938ebf,
        111 => 0xa1cb8cc5,
        112 => 0xa3028ac7,
        113 => 0xa43788c5,
        114 => 0xa56b86bf,
        115 => 0xa69d84b6,
        116 => 0xa7ce82a8,
        117 => 0xa8fd8097,
        118 => 0xaa2a7e82,
        119 => 0xab557c6a,
        120 => 0xac7f7a4e,
        121 => 0xada8782e,
        122 => 0xaece760b,
        123 => 0xaff373e4,
        124 => 0xb11671b9,
        125 => 0xb2386f8b,
        126 => 0xb3586d5a,
        _ => 0xb4766b24,
    }
}

fn cossin_lookup(i: u32) -> (r: u32)
    requires
        i < 128,
    ensures
        r == cossin_table(i),
        cossin_entry_ok(r),
{
    match i {
        0 => 0x00c9fffd,
        1 => 0x025bfff8,
        2 => 0x03edffef,
        3 => 0x057fffe0,
        4 => 0x0711ffcc,
        5 => 0x08a3ffb3,
        6 => 0x0a35ff96,
        7 => 0x0bc7ff73,
        8 => 0x0d58ff4c,
        9 => 0x0eeaff1f,
        10 => 0x107bfeee,
        11 => 0x120dfeb8,
        12 => 0x139efe7d,
        13 => 0x152efe3d,
        14 => 0x16bffdf8,
        15 => 0x184ffdae,
        16 => 0x19e0fd5f,
        17 => 0x1b70fd0b,
        18 => 0x1cfffcb2,
        19 => 0x1e8ffc55,
        20 => 0x201efbf2,
        21 => 0x21acfb8b,
        22 => 0x233bfb1f,
        23 => 0x24c9faae,
        24 => 0x2657fa38,
        25 => 0x27e4f9bd,
        26 => 0x2971f93d,
        27 => 0x2afef8b8,
        28 => 0x2c8af82f,
        29 => 0x2e16f7a1,
        30 => 0x2fa1f70d,
        31 => 0x312cf675,
        32 => 0x32b6f5d8,
        33 => 0x3440f537,
        34 => 0x35caf490,
        35 => 0x3753f3e5,
        36 => 0x38dbf335,
        37 => 0x3a63f280,
        38 => 0x3beaf1c6,
        39 => 0x3d71f107,
        40 => 0x3ef7f044,
        41 => 0x407cef7b,
        42 => 0x4201eeaf,
        43 => 0x4385eddd,
        44 => 0x4509ed06,
        45 => 0x468cec2b,
        46 => 0x480eeb4b,
        47 => 0x498fea66,
        48 => 0x4b10e97d,
        49 => 0x4c90e88f,
        50 => 0x4e10e79c,
        51 => 0x4f8ee6a4,
        52 => 0x510ce5a8,
        53 => 0x5289e4a7,
        54 => 0x5405e3a1,
        55 => 0x5581e297,
        56 => 0x56fbe188,
        57 => 0x5875e075,
        58 => 0x59eedf5c,
        59 => 0x5b66de40,
        60 => 0x5cdddd1e,
        61 => 0x5e53dbf8,
        62 => 0x5fc9dacd,
        63 => 0x613dd99e,
        64 => 0x62b1d86a,
        65 => 0x6423d732,
        66 => 0x6595d5f5,
        67 => 0x6706d4b4,
        68 => 0x6875d36e,
        69 => 0x69e4d224,
        70 => 0x6b51d0d5,
        71 => 0x6cbecf81,
        72 => 0x6e29ce29,
        73 => 0x6f94cccd,
        74 => 0x70fdcb6c,
        75 => 0x7266ca07,
        76 => 0x73cdc89e,
        77 => 0x7533c730,
        78 => 0x7698c5bd,
        79 => 0x77fcc446,
        80 => 0x795ec2cb,
        81 => 0x7ac0c14c,
        82 => 0x7c20bfc8,
        83 => 0x7d7fbe40,
        84 => 0x7eddbcb4,
        85 => 0x803abb23,
        86 => 0x8195b98e,
        87 => 0x82efb7f5,
        88 => 0x8448b657,
        89 => 0x85a0b4b6,
        90 => 0x86f6b310,
        91 => 0x884bb166,
        92 => 0x899fafb7,
        93 => 0x8af1ae05,
        94 => 0x8c42ac4e,
        95 => 0x8d92aa94,
        96 => 0x8ee0a8d5,
        97 => 0x902da712,
        98 => 0x9179a54b,
        99 => 0x92c3a380,
        100 => 0x940ca1b1,
        101 => 0x95539fde,
        102 => 0x96999e07,
        103 => 0x97dd9c2b,
        104 => 0x99209a4c,
        105 => 0x9a629869,
        106 => 0x9ba29682,
        107 => 0x9ce19497,
        108 => 0x9e1e92a9,
        109 => 0x9f5990b6,
        110 => 0xa0938ebf,
        111 => 0xa1cb8cc5,
        112 => 0xa3028ac7,
        113 => 0xa43788c5,
        114 => 0xa56b86bf,
        115 => 0xa69d84b6,
        116 => 0xa7ce82a8,
        117 => 0xa8fd8097,
        118 => 0xaa2a7e82,
        119 => 0xab557c6a,
        120 => 0xac7f7a4e,
        121 => 0xada8782e,
        122 => 0xaece760b,
        123 => 0xaff373e4,
        124 => 0xb11671b9,
        125 => 0xb2386f8b,
        126 => 0xb3586d5a,
        _ => 0xb4766b24,
    }
}

/// Table entries keep every intermediate of the interpolation inside `i32`.
pub open spec fn cossin_entry_ok(e: u32) -> bool {
    &&& e / 65536 <= 46198
    &&& (e % 65536 + 65536) * 16384 + (e / 65536) * 101 <= 0x7fff_ffff
}

/// The 22 bits below the octant bits of the phase folded onto the first octant: odd octants
/// are mirrored by complementing the phase.
pub open spec fn cossin_fold(phase: i32) -> u32 {
    let p = phase as u32;
    let f = if p & 0x2000_0000u32 != 0 { !p } else { p };
    (f << 3u32) >> 10u32
}

/// `(cos, sin)` within the first octant for the folded 22-bit phase `x`: the table midpoint of
/// segment `x / 2^15`, linearly interpolated by the offset of `x` from that midpoint.
pub open spec fn cossin_first_octant(x: u32) -> (int, int) {
    let e = cossin_table(x / 32768);
    let frac = (x % 32768) - 16384;
    let dphi = (frac * 51471) / 65536;
    let c0 = e % 65536 + 65536;
    let s0 = e / 65536;
    (c0 * 16384 - (s0 * dphi) / 128, s0 * 32768 + (c0 * dphi) / 256)
}

/// `(cos, sin)` of the phase: the first-octant pair, swapped in octants 1, 2, 5 and 6, with the
/// cosine negated in the left half-plane and the sine negated below the real axis.
pub open spec fn cossin_spec(phase: i32) -> (i32, i32) {
    let p = phase as u32;
    let (c1, s1) = cossin_first_octant(cossin_fold(phase));
    let o = p ^ (p >> 1u32);
    let (c2, s2) = if o & 0x2000_0000 != 0 { (s1, c1) } else { (c1, s1) };
    let c3 = if o & 0x4000_0000 != 0 { -c2 } else { c2 };
    let s3 = if o & 0x8000_0000 != 0 { -s2 } else { s2 };
    (c3 as i32, s3 as i32)
}

proof fn lemma_cossin_bits()
    by (bit_vector)
    ensures
        forall|ph: i32|
            #[trigger] cossin_fold(ph) == ((if (ph as u32) & 0x2000_0000u32 != 0 { !ph } else {
                ph
            }) as u32) << 3u32 >> 10u32,
        forall|x: u32| #[trigger] ((x << 3u32) >> 10u32) < 0x40_0000,
        forall|x: u32| x < 0x40_0000 ==> #[trigger] (x >> 15u32) < 128 && (x >> 15u32) == x / 32768,
        forall|x: u32| #[trigger] (x & 0x7fffu32) == x % 32768,
        forall|e: u32| #[trigger] ((e as u16) as i32) == e % 65536,
        forall|e: u32| #[trigger] (e >> 16u32) == e / 65536,
        forall|v: i32|
            (#[trigger] (v >> 16u32)) * 65536 <= v && v < (v >> 16u32) * 65536 + 65536,
        forall|v: i32| (#[trigger] (v >> 8u32)) * 256 <= v && v < (v >> 8u32) * 256 + 256,
        forall|v: i32| (#[trigger] (v >> 7u32)) * 128 <= v && v < (v >> 7u32) * 128 + 128,
        forall|v: i32| 0 <= v < 0x2_0000 ==> #[trigger] (v << 14u32) == v * 16384,
        forall|v: i32| 0 <= v < 0x1_0000 ==> #[trigger] (v << 15u32) == v * 32768,
{
}

/// Compute cosine and sine simultaneously from a 32-bit phase, where `i32::MIN` represents `-π`.
///
/// Uses the 128-entry midpoint table, octant folding/unfolding and first-order linear
/// interpolation. Returns `(cos, sin)` in signed 32-bit full scale.
pub fn cossin(phase: i32) -> (r: (i32, i32))
    ensures
        r == cossin_spec(phase),
{
    let mut octant = phase as u32;
    let folded = if octant & 0x2000_0000 != 0 { !phase } else { phase };
    let x: u32 = ((folded as u32) << 3) >> 10;
    let idx = x >> 15;
    let low = x & 0x7fff;
    proof {
        lemma_cossin_bits();
        assert(x == cossin_fold(phase));
        assert(x < 0x40_0000);
        assert(idx < 128 && idx == x / 32768);
        assert(low == x % 32768);
    }
    let lookup = cossin_lookup(idx);
    let frac: i32 = low as i32 - 0x4000;
    let prod = frac * COSSIN_PI4;
    let dphi = prod >> 16;
    let c0 = lookup as u16 as i32;
    let s0 = lookup >> 16;
    proof {
        lemma_cossin_bits();
        assert(dphi * 65536 <= prod < dphi * 65536 + 65536);
        assert(c0 == lookup % 65536);
        assert(s0 == lookup / 65536);
    }
    proof {
        vstd::arithmetic::div_mod::lemma_fundamental_div_mod_converse(
            prod as int, 65536, dphi as int, prod - dphi * 65536);
    }
    let mut cos = c0 + 0x1_0000;
    let mut sin = s0 as i32;
    proof {
        lemma_cossin_products(cos as int, sin as int, dphi as int);
    }
    let sp = sin * dphi;
    let cp = cos * dphi;
    let dcos = sp >> 7;
    let dsin = cp >> 8;
    proof {
        lemma_cossin_bits();
        assert(dcos * 128 <= sp < dcos * 128 + 128);
        assert(dsin * 256 <= cp < dsin * 256 + 256);
    }
    proof {
        vstd::arithmetic::div_mod::lemma_fundamental_div_mod_converse(
            sp as int, 128, dcos as int, sp - dcos * 128);
        vstd::arithmetic::div_mod::lemma_fundamental_div_mod_converse(
            cp as int, 256, dsin as int, cp - dsin * 256);
        assert(-(sin * 101) <= dcos <= sin * 101) by (nonlinear_arith)
            requires
                dcos * 128 <= sp < dcos * 128 + 128,
                sp == sin * dphi,
                0 <= sin,
                -12868 <= dphi <= 12866,
        ;
        assert(-(cos * 51) <= dsin <= cos * 51) by (nonlinear_arith)
            requires
                dsin * 256 <= cp < dsin * 256 + 256,
                cp == cos * dphi,
                0 <= cos,
                -12868 <= dphi <= 12866,
        ;
    }
    let cs = cos << 14;
    let ss = sin << 15;
    proof {
        lemma_cossin_bits();
        assert(cs == cos * 16384);
        assert(ss == sin * 32768);
    }
    cos = cs - dcos;
    sin = ss + dsin;
    proof {
        assert((cos as int, sin as int) == cossin_first_octant(x));
    }
    octant ^= octant >> 1;
    if octant & 0x2000_0000 != 0 {
        let tmp = cos;
        cos = sin;
        sin = tmp;
    }
    if octant & 0x4000_0000 != 0 {
        cos = -cos;
    }
    if octant & 0x8000_0000 != 0 {
        sin = -sin;
    }
    (cos, sin)
}

proof fn lemma_cossin_products(cos: int, sin: int, dphi: int)
    by (nonlinear_arith)
    requires
        0 <= cos <= 0x2_0000,
        0 <= sin <= 46198,
        -12868 <= dphi <= 12866,
    ensures
        -600_000_000 <= sin * dphi <= 600_000_000,
        -1_700_000_000 <= cos * dphi <= 1_700_000_000,
{
}

// ─────────────────────────────────────────────────────────────────────────────
// Integer and fixed-point square roots
// ─────────────────────────────────────────────────────────────────────────────
/// `r` is the integer square root of `n`: `r² <= n < (r + 1)²`.
pub open spec fn is_isqrt(n: int, r: int) -> bool {
    0 <= r && r * r <= n < (r + 1) * (r + 1)
}

/// Integer square root of a `u32`, by bisection.
pub fn isqrt_u32(n: u32) -> (r: u32)
    ensures
        is_isqrt(n as int, r as int),
{
    let mut lo: u64 = 0;
    let mut hi: u64 = 0x1_0000;
    while lo + 1 < hi
        invariant
            lo < hi <= 0x1_0000,
            lo * lo <= n,
            n < hi * hi,
        decreases hi - lo,
    {
        let mid: u64 = lo + (hi - lo) / 2;
        assert(mid * mid <= 0x1_0000 * 0x1_0000) by (nonlinear_arith)
            requires
                mid <= 0x1_0000,
        ;
        if mid * mid <= n as u64 {
            lo = mid;
        } else {
            hi = mid;
        }
    }
    lo as u32
}

/// Integer square root of a `u64`, by bisection.
pub fn isqrt_u64(n: u64) -> (r: u64)
    ensures
        is_isqrt(n as int, r as int),
{
    let mut lo: u128 = 0;
    let mut hi: u128 = 0x1_0000_0000;
    while lo + 1 < hi
        invariant
            lo < hi <= 0x1_0000_0000,
            lo * lo <= n,
            n < hi * hi,
        decreases hi - lo,
    {
        let mid: u128 = lo + (hi - lo) / 2;
        assert(mid * mid <= 0x1_0000_0000 * 0x1_0000_0000) by (nonlinear_arith)
            requires
                mid <= 0x1_0000_0000,
        ;
        if mid * mid <= n as u128 {
            lo = mid;
        } else {
            hi = mid;
        }
    }
    lo as u64
}

/// Q31 square root (`sqrt(x / 2^31) * 2^31`): the integer square root of `x * 2^31`. A negative
/// input gives 0 and `ArgumentError`.
pub fn sqrt_q31(in_val: q31, out_val: &mut q31) -> (r: Status)
    ensures
        in_val.0 < 0 ==> r == Status::ArgumentError && final(out_val).0 == 0,
        in_val.0 >= 0 ==> r == Status::Success && is_isqrt(
            in_val.0 * 0x8000_0000,
            final(out_val).0 as int,
        ),
{
    if in_val.0 < 0 {
        *out_val = q31(0);
        Status::ArgumentError
    } else {
        let v: i32 = in_val.0;
        let n: u64 = (v as u64) << 31u64;
        assert(n == v * 0x8000_0000) by (bit_vector)
            requires
                n == (v as u64) << 31u64,
                v >= 0,
        ;
        let s = isqrt_u64(n);
        proof {
            if s > 0x7fff_ffff {
                assert(s * s >= 0x8000_0000 * 0x8000_0000) by (nonlinear_arith)
                    requires
                        s >= 0x8000_0000,
                ;
            }
        }
        *out_val = q31(s as i32);
        Status::Success
    }
}

/// Q15 square root (`sqrt(x / 2^15) * 2^15`): the integer square root of `x * 2^15`. A negative
/// input gives 0 and `ArgumentError`.
pub fn sqrt_q15(in_val: q15, out_val: &mut q15) -> (r: Status)
    ensures
        in_val.0 < 0 ==> r == Status::ArgumentError && final(out_val).0 == 0,
        in_val.0 >= 0 ==> r == Status::Success && is_isqrt(
            in_val.0 * 0x8000,
            final(out_val).0 as int,
        ),
{
    if in_val.0 < 0 {
        *out_val = q15(0);
        Status::ArgumentError
    } else {
        let v: i16 = in_val.0;
        let n: u32 = (v as u32) << 15u32;
        assert(n == v * 0x8000) by (bit_vector)
            requires
                n == (v as u32) << 15u32,
                v >= 0,
        ;
        let s = isqrt_u32(n);
        proof {
            if s > 0x7fff {
                assert(s * s >= 0x8000 * 0x8000) by (nonlinear_arith)
                    requires
                        s >= 0x8000,
                ;
            }
        }
        *out_val = q15(s as i16);
        Status::Success
    }
}

// ─────────────────────────────────────────────────────────────────────────────
// Integer atan2
// ─────────────────────────────────────────────────────────────────────────────
/// Depth of the reciprocal lookup table for `atan2`.
pub const ATAN2_DIVI_DEPTH: usize = 4;

/// Reciprocal table `(base, slope)` for reciprocal seed interpolation.
pub const ATAN2_DIVI_RECIP: [(u32, i32); 16] = [
    (0x80000000, -126322568),
    (0x78787878, -112286727),
    (0x71c71c72, -100467071),
    (0x6bca1af3, -90420364),
    (0x66666666, -81808901),
    (0x61861862, -74371728),
    (0x5d1745d1, -67904621),
    (0x590b2164, -62245903),
    (0x55555555, -57266231),
    (0x51eb851f, -52861136),
    (0x4ec4ec4f, -48945496),
    (0x4bda12f7, -45449389),
    (0x49249249, -42314949),
    (0x469ee584, -39493952),
    (0x44444444, -36945955),
    (0x42108421, -34636833),
];

/// Odd polynomial coefficients of the `atan` approximation, highest order first.
pub const ATANI_COEFFS: [i32; 6] = [
    -0x3bc823dd,
    0x43b34c81,
    -0x25b32e0a,
    0x0fbdb021,
    -0x06c6496b,
    0x0517c2cd,
];

/// The Q31 product `(x * y) >> 31`, truncated to 32 bits.
pub open spec fn mul_q31_spec(x: u32, y: u32) -> u32 {
    ((x * y) / 0x8000_0000) as u32
}

/// The reciprocal seed for a normalized divisor `xn` (top bit set): the table base plus the
/// interpolated slope over the low 27 bits.
pub open spec fn divi_seed(xn: u32) -> u32 {
    let rem = xn & 0x07ff_ffffu32;
    let idx = (xn << 1u32) >> 28u32;
    let (base, slope) = ATAN2_DIVI_RECIP[idx as int];
    (base + (slope * rem) / 0x800_0000) as u32
}

/// `y / x` in Q31 by a table-seeded reciprocal refined with one Newton step, after normalizing
/// both by the leading zeros of `x`; `0` when `x == 0`.
pub open spec fn divi_spec(y: u32, x: u32) -> u32 {
    if x == 0 {
        0
    } else {
        let s = vstd::std_specs::bits::u32_leading_zeros(x);
        let yn = y << s;
        let xn = x << s;
        let r0 = divi_seed(xn);
        mul_q31_spec(yn, mul_q31_spec(r0, vstd::wrapping::u32_specs::wrapping_sub(0, mul_q31_spec(xn, r0))))
    }
}

/// The Horner accumulator after `k` coefficients: `r = ((r * x2) >> 32) + a`.
pub open spec fn atani_horner(x2: int, k: nat) -> int
    decreases k,
{
    if k == 0 {
        0
    } else {
        (atani_horner(x2, (k - 1) as nat) * x2) / 0x1_0000_0000 + ATANI_COEFFS[k - 1]
    }
}

/// The arctangent approximation for a Q31 ratio `x`: the odd polynomial in `x` evaluated by
/// Horner's rule in `x2 = (x * x) >> 32`, scaled back by `x >> 28`, truncated to 32 bits.
pub open spec fn atani_spec(x: u32) -> u32 {
    let x2 = ((x * x) / 0x1_0000_0000) as i32;
    ((atani_horner(x2 as int, 6) * x) / 0x1000_0000) as u32
}

/// The octant folding: `(|y|, |x|)` sorted so the first is the smaller, and the bit mask that
/// maps the first-octant angle back (all bits for `y < 0`, all but the top for `x < 0`, all but
/// the top two for the swap).
pub open spec fn atan2_fold(y: i32, x: i32) -> (u32, u32, u32) {
    let ay: int = if y < 0 {
        if y == i32::MIN { i32::MAX as int } else { -y }
    } else {
        y as int
    };
    let ax: int = if x < 0 {
        if x == i32::MIN { i32::MAX as int } else { -x }
    } else {
        x as int
    };
    let k0: u32 = if y < 0 { 0xffff_ffff } else { 0 };
    let k1: u32 = if x < 0 { k0 ^ 0x7fff_ffffu32 } else { k0 };
    if ay > ax {
        (ax as u32, ay as u32, k1 ^ 0x3fff_ffffu32)
    } else {
        (ay as u32, ax as u32, k1)
    }
}

/// `atan2(y, x)` as computed: fold into the first octant, divide, evaluate the polynomial, and
/// unfold with the octant mask.
pub open spec fn atan2_spec(y: i32, x: i32) -> i32 {
    let (a, b, k) = atan2_fold(y, x);
    (atani_spec(divi_spec(a, b)) ^ k) as i32
}

/// The Q31 product `(x * y) >> 31`, truncated to 32 bits.
fn mul_q31(x: u32, y: u32) -> (r: u32)
    ensures
        r == mul_q31_spec(x, y),
{
    proof {
        assert(x * y <= 0xffff_ffff * 0xffff_ffff) by (nonlinear_arith)
            requires
                x <= 0xffff_ffff,
                y <= 0xffff_ffff,
        ;
    }
    let p: u64 = x as u64 * y as u64;
    proof {
        crate::types::lemma_shr_is_floor_div();
    }
    assert((p >> 31u64) == p / 0x8000_0000);
    (p >> 31u64) as u32
}

proof fn lemma_recip_table()
    ensures
        forall|i: int|
            0 <= i < 16 ==> 0x42108421 <= (#[trigger] ATAN2_DIVI_RECIP[i]).0 <= 0x8000_0000
                && -126322568 <= ATAN2_DIVI_RECIP[i].1 <= 0,
{
}

/// Newton's step cannot overshoot by more than one: `(t + 1) * (2^32 - t) <= 2^62 + 2^31`.
proof fn lemma_newton_peak(t: int)
    ensures
        (t + 1) * (0x1_0000_0000 - t) <= 0x4000_0000_8000_0000,
{
    let m: int = 0x1_0000_0000;
    assert(4 * ((t + 1) * (m - t)) + (2 * t - m + 1) * (2 * t - m + 1) == (m + 1) * (m + 1))
        by (nonlinear_arith);
    assert((2 * t - m + 1) * (2 * t - m + 1) >= 0) by (nonlinear_arith);
}

/// The Q31 quotient of `y / x` for `y <= x` is at most `2^31 + 1`.
proof fn lemma_divi_bound(y: u32, x: u32)
    requires
        y <= x,
    ensures
        divi_spec(y, x) <= 0x8000_0001,
{
    if x != 0 {
        let s = vstd::std_specs::bits::u32_leading_zeros(x);
        vstd::std_specs::bits::axiom_u32_leading_zeros(x);
        assert(s < 32);
        let yn = y << s;
        let xn = x << s;
        let sh1: u32 = (31 - s) as u32;
        let sh2: u32 = (32 - s) as u32;
        assert((x >> sh1) & 1u32 != 0u32);
        assert(x >> sh2 == 0);
        assert(xn >= 0x8000_0000 && yn <= xn) by (bit_vector)
            requires
                s < 32,
                sh1 == 31 - s,
                sh2 == 32 - s,
                (x >> sh1) & 1u32 != 0u32,
                x >> sh2 == 0,
                y <= x,
                yn == y << s,
                xn == x << s,
        ;
        let rem = xn & 0x07ff_ffffu32;
        let idx = (xn << 1u32) >> 28u32;
        assert(rem < 0x800_0000 && idx < 16) by (bit_vector)
            requires
                rem == xn & 0x07ff_ffffu32,
                idx == (xn << 1u32) >> 28u32,
        ;
        lemma_recip_table();
        let (base, slope) = ATAN2_DIVI_RECIP[idx as int];
        assert(-126322568 * 0x800_0000 <= slope * rem <= 0) by (nonlinear_arith)
            requires
                -126322568 <= slope <= 0,
                0 <= rem < 0x800_0000,
        ;
        let v = (slope * rem) / 0x800_0000;
        assert(-126322568 <= v <= 0);
        let r0 = divi_seed(xn);
        assert(r0 == base + v);
        assert(1 <= r0 <= 0x8000_0000);
        let t = mul_q31_spec(xn, r0);
        assert(0x8000_0000 <= xn * r0 < 0x8000_0000 * 0x1_0000_0000) by (nonlinear_arith)
            requires
                0x8000_0000 <= xn < 0x1_0000_0000,
                1 <= r0 <= 0x8000_0000,
        ;
        assert(t == (xn * r0) / 0x8000_0000);
        assert(1 <= t < 0x1_0000_0000);
        assert(xn * r0 < 0x8000_0000 * (t + 1));
        let n = vstd::wrapping::u32_specs::wrapping_sub(0, t);
        assert(n == 0x1_0000_0000 - t);
        assert(r0 * n < 0x8000_0000 * 0x1_0000_0000) by (nonlinear_arith)
            requires
                1 <= r0 <= 0x8000_0000,
                1 <= n < 0x1_0000_0000,
        ;
        let r1 = mul_q31_spec(r0, n);
        assert(r1 == (r0 * n) / 0x8000_0000);
        assert(r1 * 0x8000_0000 <= r0 * n);
        assert(xn * r1 * 0x8000_0000 <= xn * r0 * n) by (nonlinear_arith)
            requires
                r1 * 0x8000_0000 <= r0 * n,
                xn >= 0,
        ;
        assert(xn * r0 * n <= 0x8000_0000 * (t + 1) * n) by (nonlinear_arith)
            requires
                xn * r0 < 0x8000_0000 * (t + 1),
                n >= 0,
        ;
        lemma_newton_peak(t as int);
        assert(0x8000_0000 * (t + 1) * n <= 0x8000_0000 * 0x4000_0000_8000_0000) by (nonlinear_arith)
            requires
                (t + 1) * n <= 0x4000_0000_8000_0000,
        ;
        assert(yn * r1 <= xn * r1) by (nonlinear_arith)
            requires
                yn <= xn,
                r1 >= 0,
        ;
        assert(yn * r1 <= 0x4000_0000_8000_0000) by (nonlinear_arith)
            requires
                yn * r1 <= xn * r1,
                xn * r1 * 0x8000_0000 <= 0x8000_0000 * 0x4000_0000_8000_0000,
        ;
    }
}

/// `y / x` in Q31 for `y <= x`, by a seeded reciprocal and one Newton step.
fn divi(y: u32, x: u32) -> (r: u32)
    ensures
        r == divi_spec(y, x),
{
    if x == 0 {
        return 0;
    }
    let shift = x.leading_zeros();
    proof {
        vstd::std_specs::bits::axiom_u32_leading_zeros(x);
    }
    let y = y << shift;
    let x = x << shift;
    let rem = x & 0x07ff_ffffu32;
    assert(rem < 0x800_0000) by (bit_vector)
        requires
            rem == x & 0x07ff_ffffu32,
    ;
    let idx32: u32 = (x << 1u32) >> 28u32;
    assert(idx32 < 16) by (bit_vector)
        requires
            idx32 == (x << 1u32) >> 28u32,
    ;
    let idx = idx32 as usize;
    let (base, slope) = ATAN2_DIVI_RECIP[idx];
    proof {
        lemma_recip_table();
        assert(-126322568 * 0x800_0000 <= slope * rem <= 0) by (nonlinear_arith)
            requires
                -126322568 <= slope <= 0,
                0 <= rem < 0x800_0000,
        ;
    }
    let p: i64 = slope as i64 * rem as i64;
    proof {
        crate::types::lemma_shr_is_floor_div();
    }
    assert((p >> 27u64) == p / 0x800_0000);
    let q: i64 = p >> 27u64;
    assert(-126322568 <= q <= 0);
    let step = q as u32;
    assert(q < 0 ==> (step as i64) == q + 0x1_0000_0000) by (bit_vector)
        requires
            step == q as u32,
            -126322568 <= q <= 0,
    ;
    let r0 = base.wrapping_add(step);
    assert(r0 == base + q);
    let t = mul_q31(x, r0);
    mul_q31(y, mul_q31(r0, 0u32.wrapping_sub(t)))
}

proof fn lemma_horner_bound(x2: int, k: nat)
    requires
        0 <= x2 <= 0x4000_0001,
        k <= 6,
    ensures
        -1_600_000_000 <= atani_horner(x2, k) <= 1_600_000_000,
    decreases k,
{
    if k > 0 {
        lemma_horner_bound(x2, (k - 1) as nat);
        let r = atani_horner(x2, (k - 1) as nat);
        assert(-1_600_000_000 * 0x4000_0001 <= r * x2 <= 1_600_000_000 * 0x4000_0001)
            by (nonlinear_arith)
            requires
                -1_600_000_000 <= r <= 1_600_000_000,
                0 <= x2 <= 0x4000_0001,
        ;
    }
}

/// The arctangent polynomial for a Q31 ratio `x <= 2^31 + 1`.
fn atani(x: u32) -> (r: u32)
    requires
        x <= 0x8000_0001,
    ensures
        r == atani_spec(x),
{
    proof {
        assert(x * x <= 0x8000_0001 * 0x8000_0001) by (nonlinear_arith)
            requires
                x <= 0x8000_0001,
        ;
    }
    let sq: i64 = x as i64 * x as i64;
    proof {
        crate::types::lemma_shr_is_floor_div();
    }
    assert((sq >> 32u64) == sq / 0x1_0000_0000);
    let x2 = (sq >> 32u64) as i32;
    assert(0 <= x2 <= 0x4000_0001);
    let mut r: i64 = 0;
    let mut k: usize = 0;
    while k < 6
        invariant
            k <= 6,
            0 <= x2 <= 0x4000_0001,
            r == atani_horner(x2 as int, k as nat),
        decreases 6 - k,
    {
        proof {
            lemma_horner_bound(x2 as int, k as nat);
            assert(-1_600_000_000 * 0x4000_0001 <= r * x2 <= 1_600_000_000 * 0x4000_0001)
                by (nonlinear_arith)
                requires
                    -1_600_000_000 <= r <= 1_600_000_000,
                    0 <= x2 <= 0x4000_0001,
            ;
        }
        let m: i64 = r * x2 as i64;
        proof {
            crate::types::lemma_shr_is_floor_div();
        }
        assert((m >> 32u64) == m / 0x1_0000_0000);
        r = (m >> 32u64) + ATANI_COEFFS[k] as i64;
        k = k + 1;
    }
    proof {
        lemma_horner_bound(x2 as int, 6);
        assert(-1_600_000_000 * 0x8000_0001 <= r * x <= 1_600_000_000 * 0x8000_0001)
            by (nonlinear_arith)
            requires
                -1_600_000_000 <= r <= 1_600_000_000,
                0 <= x <= 0x8000_0001,
        ;
    }
    let q: i64 = r * x as i64;
    proof {
        crate::types::lemma_shr_is_floor_div();
    }
    assert((q >> 28u64) == q / 0x1000_0000);
    (q >> 28u64) as u32
}

/// 2-argument arctangent `atan2(y, x)` in integer arithmetic.
///
/// Returns the 32-bit phase angle where `i32::MIN` is `-π` and `i32::MAX` is `+π`.
pub fn atan2_i32(y: i32, x: i32) -> (r: i32)
    ensures
        r == atan2_spec(y, x),
{
    let ghost (a, b, kk) = atan2_fold(y, x);
    assert(0u32 ^ u32::MAX == 0xffff_ffffu32 && u32::MAX >> 1u32 == 0x7fff_ffffu32 && u32::MAX
        >> 2u32 == 0x3fff_ffffu32) by (bit_vector);
    let mut y = y;
    let mut x = x;
    let mut k = 0u32;
    if y < 0 {
        y = if y == i32::MIN {
            i32::MAX
        } else {
            -y
        };
        k ^= u32::MAX;
    }
    if x < 0 {
        x = if x == i32::MIN {
            i32::MAX
        } else {
            -x
        };
        k ^= u32::MAX >> 1u32;
    }
    if y > x {
        let tmp = y;
        y = x;
        x = tmp;
        k ^= u32::MAX >> 2u32;
    }
    proof {
        lemma_divi_bound(y as u32, x as u32);
    }
    assert(y as u32 == a && x as u32 == b && k == kk);
    let r = atani(divi(y as u32, x as u32));
    (r ^ k) as i32
}

/// Odd symmetry in the sign of `y`: reflecting a point with `y > 0` below the axis
/// complements every bit of the angle (`atan2(-y, x) == !atan2(y, x)`, that is `-atan2(y, x) - 1`).
pub proof fn lemma_atan2_odd(y: i32, x: i32)
    requires
        y > 0,
    ensures
        atan2_spec(-y as i32, x) == !atan2_spec(y, x),
{
    let (a, b, k) = atan2_fold(y, x);
    let (a2, b2, k2) = atan2_fold(-y as i32, x);
    assert(a2 == a && b2 == b);
    let c1: u32 = 0x7fff_ffff;
    let c2: u32 = 0x3fff_ffff;
    let m: u32 = 0xffff_ffff;
    assert(m ^ c1 == (0u32 ^ c1) ^ m && (m ^ c1) ^ c2 == ((0u32 ^ c1) ^ c2) ^ m && m ^ c2
        == (0u32 ^ c2) ^ m && m == 0u32 ^ m) by (bit_vector)
        requires
            c1 == 0x7fff_ffffu32,
            c2 == 0x3fff_ffffu32,
            m == 0xffff_ffffu32,
    ;
    assert(k2 == k ^ m);
    let v = atani_spec(divi_spec(a, b));
    assert(((v ^ (k ^ m)) as i32) == !((v ^ k) as i32)) by (bit_vector)
        requires
            m == 0xffff_ffffu32,
    ;
}


// ─────────────────────────────────────────────────────────────────────────────
// Q31 CORDIC sine/cosine and arc-tangent
// ─────────────────────────────────────────────────────────────────────────────

/// CORDIC angle table (raw Q1.31 bits): the fifth-order Taylor polynomial of `atan(2^-i)`,
/// divided by π, evaluated in single precision and truncated.
pub const CORDIC_ATAN_Q31: [i32; 32] = [
    570722688,
    316958464,
    167458912,
    85004752,
    42667332,
    21354464,
    10679838,
    5340245,
    2670163,
    1335086,
    667544,
    333772,
    166886,
    83443,
    41721,
    20860,
    10430,
    5215,
    2607,
    1303,
    651,
    325,
    162,
    81,
    40,
    20,
    10,
    5,
    2,
    1,
    0,
    0,
];

/// CORDIC K ≈ 0.607252935 in Q1.31.
pub const CORDIC_K_Q31: i32 = 1_304_063_564;

/// `v` saturated to the `i32` range.
pub open spec fn sat32(v: int) -> i32 {
    clamp_int(v, i32::MIN as int, i32::MAX as int) as i32
}

/// One rotation-mode micro-rotation `i` of `(x, y, z)`: turn toward `z == 0` by the table angle,
/// with every sum saturated and the shifts arithmetic.
pub open spec fn rotate_step_q31(s: (i32, i32, i32), i: int) -> (i32, i32, i32) {
    let (x, y, z) = s;
    let x_sh = x >> (i as u32);
    let y_sh = y >> (i as u32);
    if z >= 0 {
        (sat32(x - y_sh), sat32(y + x_sh), sat32(z - CORDIC_ATAN_Q31[i]))
    } else {
        (sat32(x + y_sh), sat32(y - x_sh), sat32(z + CORDIC_ATAN_Q31[i]))
    }
}

/// The state after the first `n` rotation-mode micro-rotations from `(K, 0, theta)`.
pub open spec fn rotate_q31(theta: i32, n: nat) -> (i32, i32, i32)
    decreases n,
{
    if n == 0 {
        (CORDIC_K_Q31, 0i32, theta)
    } else {
        rotate_step_q31(rotate_q31(theta, (n - 1) as nat), n - 1)
    }
}

/// One vectoring-mode micro-rotation `i` of `(x, y, z)`: turn toward `y == 0`, accumulating the
/// table angle in `z`.
pub open spec fn vector_step_q31(s: (i32, i32, i32), i: int) -> (i32, i32, i32) {
    let (x, y, z) = s;
    let x_sh = x >> (i as u32);
    let y_sh = y >> (i as u32);
    if y >= 0 {
        (sat32(x + y_sh), sat32(y - x_sh), sat32(z + CORDIC_ATAN_Q31[i]))
    } else {
        (sat32(x - y_sh), sat32(y + x_sh), sat32(z - CORDIC_ATAN_Q31[i]))
    }
}

/// The state after the first `n` vectoring-mode micro-rotations from `(x, y, 0)`.
pub open spec fn vector_q31(x: i32, y: i32, n: nat) -> (i32, i32, i32)
    decreases n,
{
    if n == 0 {
        (x, y, 0i32)
    } else {
        vector_step_q31(vector_q31(x, y, (n - 1) as nat), n - 1)
    }
}

/// `(x, y)` doubled together until one of them reaches `2^30`.
pub open spec fn normalize_q31(x: int, y: int) -> (int, int)
    decreases 0x8000_0000 - x,
{
    if 0 < x < 0x4000_0000 && y < 0x4000_0000 {
        normalize_q31(2 * x, 2 * y)
    } else {
        (x, y)
    }
}

/// First-quadrant `atan(y / x) / π` in Q1.31 for `x, y >= 0`: `0` for `y == 0`, `2^30` on the
/// positive `y` axis, otherwise 31 vectoring micro-rotations of the normalised pair, clamped at 0.
pub open spec fn atan_first_q31(x: i32, y: i32) -> i32 {
    if x == 0 {
        if y == 0 {
            0
        } else {
            0x4000_0000
        }
    } else if y == 0 {
        0
    } else {
        let (nx, ny) = normalize_q31(x as int, y as int);
        let z = vector_q31(nx as i32, ny as i32, 31).2;
        if z < 0 {
            0
        } else {
            z
        }
    }
}

/// `atan2(y, x) / π` in Q1.31: the first-quadrant angle of `(|x|, |y|)` (with `i32::MIN` read
/// as `i32::MAX`), reflected into the quadrant of `(x, y)`.
pub open spec fn atan2_xy_q31(y: i32, x: i32) -> i32 {
    if x == 0 && y == 0 {
        0
    } else {
        let ax: int = if x == i32::MIN { i32::MAX as int } else if x < 0 { -x } else { x as int };
        let ay: int = if y == i32::MIN { i32::MAX as int } else if y < 0 { -y } else { y as int };
        let a = atan_first_q31(ax as i32, ay as i32);
        if x >= 0 && y >= 0 {
            a
        } else if x >= 0 {
            (-a) as i32
        } else if y >= 0 {
            (i32::MAX - a) as i32
        } else {
            (a - i32::MAX) as i32
        }
    }
}

fn sat_i32(v: i64) -> (r: i32)
    ensures
        r == sat32(v as int),
{
    if v > i32::MAX as i64 {
        i32::MAX
    } else if v < i32::MIN as i64 {
        i32::MIN
    } else {
        v as i32
    }
}

fn cordic_rotate_q31(theta: i32) -> (r: (i32, i32))
    ensures
        r.0 == rotate_q31(theta, 31).0,
        r.1 == rotate_q31(theta, 31).1,
{
    let mut x = CORDIC_K_Q31;
    let mut y = 0i32;
    let mut z = theta;
    let mut i: usize = 0;
    while i < 31
        invariant
            i <= 31,
            (x, y, z) == rotate_q31(theta, i as nat),
        decreases 31 - i,
    {
        let x_sh = x >> (i as u32);
        let y_sh = y >> (i as u32);
        if z >= 0 {
            x = sat_i32(x as i64 - y_sh as i64);
            y = sat_i32(y as i64 + x_sh as i64);
            z = sat_i32(z as i64 - CORDIC_ATAN_Q31[i] as i64);
        } else {
            x = sat_i32(x as i64 + y_sh as i64);
            y = sat_i32(y as i64 - x_sh as i64);
            z = sat_i32(z as i64 + CORDIC_ATAN_Q31[i] as i64);
        }
        i += 1;
    }
    (x, y)
}

/// First-quadrant `atan(y/x) / π` in Q1.31. `x` and `y` must be `>= 0`.
fn cordic_atan_first_q31(x0: i32, y0: i32) -> (r: i32)
    requires
        x0 >= 0,
        y0 >= 0,
    ensures
        r == atan_first_q31(x0, y0),
{
    if x0 == 0 {
        return if y0 == 0 {
            0
        } else {
            0x4000_0000
        };  // 0.5 → π/2
    }
    if y0 == 0 {
        return 0;
    }
    let mut x = x0;
    let mut y = y0;
    // Doubling stays below 2^31 while both are below 2^30, so it never saturates.
    while x < 0x4000_0000 && y < 0x4000_0000
        invariant
            0 < x,
            0 <= y,
            normalize_q31(x as int, y as int) == normalize_q31(x0 as int, y0 as int),
        decreases 0x8000_0000 - x,
    {
        x = x * 2;
        y = y * 2;
    }
    assert(normalize_q31(x as int, y as int) == (x as int, y as int));
    let ghost start = (x, y);
    let mut z = 0i32;
    let mut i: usize = 0;
    while i < 31
        invariant
            i <= 31,
            (x, y, z) == vector_q31(start.0, start.1, i as nat),
        decreases 31 - i,
    {
        let x_sh = x >> (i as u32);
        let y_sh = y >> (i as u32);
        if y >= 0 {
            x = sat_i32(x as i64 + y_sh as i64);
            y = sat_i32(y as i64 - x_sh as i64);
            z = sat_i32(z as i64 + CORDIC_ATAN_Q31[i] as i64);
        } else {
            x = sat_i32(x as i64 - y_sh as i64);
            y = sat_i32(y as i64 + x_sh as i64);
            z = sat_i32(z as i64 - CORDIC_ATAN_Q31[i] as i64);
        }
        i += 1;
    }
    if z < 0 {
        0
    } else {
        z
    }
}

fn atan2_from_xy_q31(y: i32, x: i32) -> (r: i32)
    ensures
        r == atan2_xy_q31(y, x),
{
    if x == 0 && y == 0 {
        return 0;
    }
    let ax = if x == i32::MIN {
        i32::MAX
    } else if x < 0 {
        -x
    } else {
        x
    };
    let ay = if y == i32::MIN {
        i32::MAX
    } else if y < 0 {
        -y
    } else {
        y
    };
    let a = cordic_atan_first_q31(ax, ay);
    if x >= 0 && y >= 0 {
        a
    } else if x >= 0 {
        -a
    } else if y >= 0 {
        i32::MAX - a
    } else {
        a - i32::MAX
    }
}

/// Q31 sine and cosine. `theta` is in CMSIS units: `[-1, 1) → [-π, π)`; the pair is the end
/// point of 31 saturating CORDIC micro-rotations from `(K, 0)`.
pub fn sin_cos_q31(theta: q31, sin_val: &mut q31, cos_val: &mut q31)
    ensures
        final(cos_val).0 == rotate_q31(theta.0, 31).0,
        final(sin_val).0 == rotate_q31(theta.0, 31).1,
{
    let (c, s) = cordic_rotate_q31(theta.0);
    *cos_val = q31(c);
    *sin_val = q31(s);
}

/// Q31 sine function.
pub fn sin_q31(x: q31) -> (r: q31)
    ensures
        r.0 == rotate_q31(x.0, 31).1,
{
    let mut s = q31(0);
    let mut c = q31(0);
    sin_cos_q31(x, &mut s, &mut c);
    s
}

/// Q31 cosine function.
pub fn cos_q31(x: q31) -> (r: q31)
    ensures
        r.0 == rotate_q31(x.0, 31).0,
{
    let mut s = q31(0);
    let mut c = q31(0);
    sin_cos_q31(x, &mut s, &mut c);
    c
}

/// Q31 arc-tangent 2. Result is `atan2(y, x) / π` in Q1.31 (`[-1, 1)`); it always succeeds.
pub fn atan2_q31(y: q31, x: q31, res: &mut q31) -> (r: Status)
    ensures
        r == Status::Success,
        final(res).0 == atan2_xy_q31(y.0, x.0),
{
    *res = q31(atan2_from_xy_q31(y.0, x.0));
    Status::Success
}

/// Q15 arc-tangent 2. Result is `atan2(y, x) / π` in Q1.15: the Q1.31 angle of the inputs
/// widened by 16 bits, narrowed back by an arithmetic shift; it always succeeds.
pub fn atan2_q15(y: q15, x: q15, res: &mut q15) -> (r: Status)
    ensures
        r == Status::Success,
        final(res).0 == atan2_xy_q31((y.0 * 0x10000) as i32, (x.0 * 0x10000) as i32) >> 16u32,
{
    let yw: i32 = y.0 as i32 * 0x10000;
    let xw: i32 = x.0 as i32 * 0x10000;
    let z = atan2_from_xy_q31(yw, xw);
    let n = z >> 16u32;
    assert(-0x8000 <= n < 0x8000) by (bit_vector)
        requires n == z >> 16u32;
    *res = q15(n as i16);
    Status::Success
}

/// Fixed-point division for Q31 types: `numerator * 2^31 / denominator` rounded toward zero and
/// saturated, with `shift` 0. A zero denominator leaves both outputs alone and is an
/// `ArgumentError`.
pub fn divide_q31(numerator: q31, denominator: q31, quotient: &mut q31, shift: &mut i16) -> (r:
    Status)
    ensures
        denominator.0 == 0 ==> r == Status::ArgumentError && *final(quotient) == *old(quotient)
            && *final(shift) == *old(shift),
        denominator.0 != 0 ==> r == Status::Success && *final(shift) == 0 && final(quotient).0
            == clamp_int(
            fixed_quotient(numerator.0 as int, denominator.0 as int, 0x8000_0000),
            i32::MIN as int,
            i32::MAX as int,
        ),
{
    if denominator.0 == 0 {
        return Status::ArgumentError;
    }
    let res = crate::types::fixed_quotient_exec(numerator.0 as i64, denominator.0 as i64, 31);
    *shift = 0;
    *quotient = q31(crate::types::saturate_i32(res));
    Status::Success
}

/// Fixed-point division for Q15 types: `numerator * 2^15 / denominator` rounded toward zero and
/// saturated, with `shift` 0. A zero denominator leaves both outputs alone and is an
/// `ArgumentError`.
pub fn divide_q15(numerator: q15, denominator: q15, quotient: &mut q15, shift: &mut i16) -> (r:
    Status)
    ensures
        denominator.0 == 0 ==> r == Status::ArgumentError && *final(quotient) == *old(quotient)
            && *final(shift) == *old(shift),
        denominator.0 != 0 ==> r == Status::Success && *final(shift) == 0 && final(quotient).0
            == clamp_int(
            fixed_quotient(numerator.0 as int, denominator.0 as int, 0x8000),
            i16::MIN as int,
            i16::MAX as int,
        ),
{
    if denominator.0 == 0 {
        return Status::ArgumentError;
    }
    let res = crate::types::fixed_quotient_exec(numerator.0 as i64, denominator.0 as i64, 15);
    *shift = 0;
    *quotient = q15(crate::types::saturate_i16(res));
    Status::Success
}


/// The Q1.31 `atan2` is odd in `y`: mirroring a point across the `x` axis negates its angle.
pub proof fn lemma_atan2_q31_odd(y: i32, x: i32)
    requires
        y > 0,
    ensures
        atan2_xy_q31((-y) as i32, x) == -atan2_xy_q31(y, x),
{
}

} // verus!
