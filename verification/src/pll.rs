//! Integer phase-locked loops: a wrapping-phase PLL with a clamping phase detector, and a
//! reciprocal PLL that tracks timestamps.
use vstd::prelude::*;
use vstd::wrapping::{i32_specs, i64_specs, u32_specs, u64_specs};
use crate::filtering::int_filters::hi_word;

verus! {

// ─────────────────────────────────────────────────────────────────────────────
// Phase-wrap clamp
// ─────────────────────────────────────────────────────────────────────────────
/// Tracks phase wraps of a wrapping `i32` input and clamps the output to a rail while the net
/// wrap count is nonzero.
#[derive(Copy, Clone, Debug, Default)]
pub struct ClampWrap {
    /// Previous input.
    pub x0: i32,
    /// Net wrap direction: -1, 0 or 1.
    pub dir: i8,
}

/// The wrap that moving from `x0` to `x` implies: `1` when the wrapping difference is
/// nonnegative but `x` is below `x0` (wrapped upward), `-1` for the opposite, else `0`.
pub open spec fn wrap_step(x0: i32, x: i32) -> int {
    let delta = i32_specs::wrapping_sub(x, x0);
    if delta >= 0 && x < x0 {
        1
    } else if delta < 0 && x >= x0 {
        -1
    } else {
        0
    }
}

/// The sign of `v`: -1, 0 or 1.
pub open spec fn signum(v: int) -> int {
    if v < 0 {
        -1
    } else if v == 0 {
        0
    } else {
        1
    }
}

/// The new wrap direction after input `x`.
pub open spec fn clamp_wrap_dir(c: ClampWrap, x: i32) -> int {
    signum(c.dir + wrap_step(c.x0, x))
}

/// The clamped output for input `x`: the lower rail, `x` itself, or the upper rail, by the new
/// wrap direction.
pub open spec fn clamp_wrap_output(c: ClampWrap, x: i32) -> i32 {
    let d = clamp_wrap_dir(c, x);
    if d < 0 {
        i32::MIN
    } else if d == 0 {
        x
    } else {
        i32::MAX
    }
}

/// What the clamp does, in terms of the true (unwrapped) step `x - x0`: a step above
/// `i32::MAX` is the phase wrapping downward across the boundary, a step below `i32::MIN` is
/// it wrapping upward. From an unclamped state a downward wrap clamps to the lower rail
/// `i32::MIN`, an upward wrap to the upper rail `i32::MAX`, and no wrap passes the input
/// through. While clamped the output stays on the rail of the clamp's direction until a wrap the
/// other way releases it, which passes the input through again.
pub proof fn lemma_clamp_wrap_rails(c: ClampWrap, x: i32)
    requires
        -1 <= c.dir <= 1,
    ensures
        c.dir == 0 && x - c.x0 > i32::MAX ==> clamp_wrap_output(c, x) == i32::MIN
            && clamp_wrap_dir(c, x) == -1,
        c.dir == 0 && x - c.x0 < i32::MIN ==> clamp_wrap_output(c, x) == i32::MAX
            && clamp_wrap_dir(c, x) == 1,
        c.dir == 0 && i32::MIN <= x - c.x0 <= i32::MAX ==> clamp_wrap_output(c, x) == x
            && clamp_wrap_dir(c, x) == 0,
        c.dir < 0 && x - c.x0 >= i32::MIN ==> clamp_wrap_output(c, x) == i32::MIN
            && clamp_wrap_dir(c, x) == -1,
        c.dir < 0 && x - c.x0 < i32::MIN ==> clamp_wrap_output(c, x) == x
            && clamp_wrap_dir(c, x) == 0,
        c.dir > 0 && x - c.x0 <= i32::MAX ==> clamp_wrap_output(c, x) == i32::MAX
            && clamp_wrap_dir(c, x) == 1,
        c.dir > 0 && x - c.x0 > i32::MAX ==> clamp_wrap_output(c, x) == x
            && clamp_wrap_dir(c, x) == 0,
        clamp_wrap_dir(c, x) < 0 ==> clamp_wrap_output(c, x) == i32::MIN,
        clamp_wrap_dir(c, x) > 0 ==> clamp_wrap_output(c, x) == i32::MAX,
{
}

impl ClampWrap {
    /// Feed one input; returns it unchanged unless the phase has wrapped on net, in which case
    /// the rail in the wrap direction.
    pub fn process(&mut self, x: i32) -> (r: i32)
        ensures
            r == clamp_wrap_output(*old(self), x),
            final(self).x0 == x,
            final(self).dir == clamp_wrap_dir(*old(self), x),
    {
        let x0 = self.x0;
        let delta = x.wrapping_sub(x0);
        self.x0 = x;
        let wrap: i8 = if delta >= 0 && !(x >= x0) {
            1
        } else if !(delta >= 0) && x >= x0 {
            -1
        } else {
            0
        };
        let s: i32 = self.dir as i32 + wrap as i32;
        self.dir = if s < 0 {
            -1
        } else if s == 0 {
            0
        } else {
            1
        };
        if self.dir < 0 {
            i32::MIN
        } else if self.dir == 0 {
            x
        } else {
            i32::MAX
        }
    }
}

// ─────────────────────────────────────────────────────────────────────────────
// Integer PLL
// ─────────────────────────────────────────────────────────────────────────────
/// Integer PLL loop filter with coefficients `ba = [b0, b1, a1]` in Q32.32.
#[derive(Copy, Clone, Debug, Default)]
pub struct IntPll {
    /// Loop filter coefficients.
    pub ba: [i32; 3],
}

/// State of an [`IntPll`].
#[derive(Copy, Clone, Debug, Default)]
pub struct IntPllState {
    /// Phase-detector wrap clamp.
    pub clamp: ClampWrap,
    /// Previous halved detector output.
    pub z0: i32,
    /// Previous loop filter input.
    pub y0: i32,
    /// Loop filter output (frequency) in Q32.32.
    pub f0: i64,
    /// Accumulated phase in Q32.32.
    pub f: i64,
    /// Phase estimate.
    pub y: i32,
}

/// The phase estimate after advancing by the frequency word: `y + (f >> 32)`, wrapping.
pub open spec fn pll_phase(st: IntPllState) -> i32 {
    i32_specs::wrapping_add(st.y, hi_word(st.f) as i32)
}

/// The loop filter input: the halved clamped detector output plus the previous one, wrapping.
pub open spec fn pll_filter_input(st: IntPllState, input_phase: i32) -> i32 {
    let raw_err = i32_specs::wrapping_add(input_phase, pll_phase(st));
    let z0 = clamp_wrap_output(st.clamp, raw_err) / 2;
    i32_specs::wrapping_add(z0 as i32, st.z0)
}

/// The loop filter increment `b0*y0 + b1*y0' + a1*f0` with the Q32.32 frequency split into its
/// high word and its low word (the low product shifted down by 32).
pub open spec fn pll_increment(ba: [i32; 3], st: IntPllState, input_phase: i32) -> int {
    let y0 = pll_filter_input(st, input_phase);
    ba[0] * y0 + ba[1] * st.y0 + ba[2] * hi_word(st.f0) + (ba[2] * (st.f0 as u32)) / 0x1_0000_0000
}

/// The partial sums of the loop filter increment, in evaluation order.
pub open spec fn pll_increment_partials(ba: [i32; 3], st: IntPllState, input_phase: i32) -> Seq<
    int,
> {
    let y0 = pll_filter_input(st, input_phase);
    let p1 = ba[0] * y0 + ba[1] * st.y0;
    let p2 = p1 + ba[2] * hi_word(st.f0);
    seq![p1, p2, pll_increment(ba, st, input_phase)]
}

/// The state after one input phase.
pub open spec fn pll_next_state(ba: [i32; 3], st: IntPllState, input_phase: i32) -> IntPllState {
    let y = pll_phase(st);
    let raw_err = i32_specs::wrapping_add(input_phase, y);
    let f0 = i64_specs::wrapping_add(st.f0, pll_increment(ba, st, input_phase) as i64);
    IntPllState {
        clamp: ClampWrap { x0: raw_err, dir: clamp_wrap_dir(st.clamp, raw_err) as i8 },
        z0: (clamp_wrap_output(st.clamp, raw_err) / 2) as i32,
        y0: pll_filter_input(st, input_phase),
        f0,
        f: i64_specs::wrapping_add(st.f, f0),
        y,
    }
}

proof fn lemma_i64_hi(s: i64)
    ensures
        (s >> 32u64) as int == hi_word(s),
        i32::MIN <= hi_word(s) <= i32::MAX,
{
    crate::types::lemma_shr_is_floor_div();
    assert((s >> 32u64) == s / 0x1_0000_0000);
}

impl IntPll {
    /// Whether the loop filter increment stays in the `i64` range for this input.
    pub open spec fn process_ok(&self, st: IntPllState, input_phase: i32) -> bool {
        let ps = pll_increment_partials(self.ba, st, input_phase);
        &&& i64::MIN <= ps[0] <= i64::MAX
        &&& i64::MIN <= ps[1] <= i64::MAX
        &&& i64::MIN <= ps[2] <= i64::MAX
    }

    /// Advance the PLL by one input phase and return the new phase estimate.
    pub fn process(&self, state: &mut IntPllState, input_phase: i32) -> (r: i32)
        requires
            self.process_ok(*old(state), input_phase),
        ensures
            *final(state) == pll_next_state(self.ba, *old(state), input_phase),
            r == final(state).y,
    {
        let ghost st = *state;
        proof {
            lemma_i64_hi(state.f);
            lemma_i64_hi(state.f0);
        }
        state.y = state.y.wrapping_add((state.f >> 32u64) as i32);

        let raw_err = input_phase.wrapping_add(state.y);

        let clamped = state.clamp.process(raw_err);

        let z0 = clamped >> 1u32;
        assert(z0 == clamped / 2) by (bit_vector)
            requires
                z0 == clamped >> 1u32,
        ;
        let y0 = z0.wrapping_add(state.z0);
        state.z0 = z0;

        let f0 = state.f0;
        let f1 = (f0 >> 32u64) as i32;
        let lo = f0 as u32 as i64;
        proof {
            crate::types::lemma_mul_abs_bound(self.ba[0] as int, y0 as int, 0x8000_0000);
            crate::types::lemma_mul_abs_bound(self.ba[1] as int, state.y0 as int, 0x8000_0000);
            crate::types::lemma_mul_abs_bound(self.ba[2] as int, f1 as int, 0x8000_0000);
            assert(0 <= lo < 0x1_0000_0000);
            assert(-0x8000_0000 * 0x1_0000_0000 <= self.ba[2] * lo <= 0x7fff_ffff * 0x1_0000_0000)
                by (nonlinear_arith)
                requires
                    0 <= lo < 0x1_0000_0000,
                    -0x8000_0000 <= self.ba[2] <= 0x7fff_ffff,
            ;
        }
        let lp: i64 = self.ba[2] as i64 * lo;
        proof {
            crate::types::lemma_shr_is_floor_div();
        }
        assert((lp >> 32u64) == lp / 0x1_0000_0000);
        let y = self.ba[0] as i64 * y0 as i64 + self.ba[1] as i64 * state.y0 as i64
            + self.ba[2] as i64 * f1 as i64 + (lp >> 32u64);
        state.f0 = f0.wrapping_add(y);
        state.y0 = y0;

        state.f = state.f.wrapping_add(state.f0);

        state.y
    }
}

impl IntPllState {
    /// The phase estimate.
    pub fn phase(&self) -> (r: i32)
        ensures
            r == self.y,
    {
        self.y
    }

    /// The frequency estimate: the high word of the accumulated phase.
    pub fn frequency(&self) -> (r: i32)
        ensures
            r == hi_word(self.f),
    {
        proof {
            lemma_i64_hi(self.f);
        }
        (self.f >> 32u64) as i32
    }
}

// ─────────────────────────────────────────────────────────────────────────────
// Reciprocal PLL
// ─────────────────────────────────────────────────────────────────────────────
/// Reciprocal PLL: tracks the phase and frequency of a reference from its (sparse)
/// timestamps.
#[derive(Copy, Clone, Debug, Default)]
pub struct Rpll {
    x: i32,
    ff: u32,
    f: u32,
    y: i32,
}

/// Configuration of an [`Rpll`].
#[derive(Copy, Clone, Debug)]
pub struct RpllConfig {
    /// Log2 of the timestamp period.
    pub dt2: u8,
    /// Frequency loop shift.
    pub shift_frequency: u8,
    /// Phase loop shift.
    pub shift_phase: u8,
}

impl View for Rpll {
    type V = (i32, u32, u32, i32);

    /// `(previous timestamp, frequency-loop estimate, combined frequency, phase)`.
    closed spec fn view(&self) -> (i32, u32, u32, i32) {
        (self.x, self.ff, self.f, self.y)
    }
}

/// The configuration takes a timestamp without an arithmetic fault: the frequency shift is in
/// `1..=63`, `dt2 <= 30`, and the phase shift exceeds `dt2` by less than 32.
pub open spec fn rpll_config_ok(cfg: RpllConfig) -> bool {
    &&& 1 <= cfg.shift_frequency <= 63
    &&& cfg.dt2 <= 30
    &&& cfg.dt2 <= cfg.shift_phase
    &&& cfg.shift_phase - cfg.dt2 < 32
}

/// The frequency-loop estimate after a timestamp `x`: `ff + (p_ref - p_sig)`, wrapping, where
/// `p_sig = (ff * dx + 2^(sf-1)) >> sf` (rounded, wrapping in 64 bits) and
/// `p_ref = 1 << (32 + dt2 - sf)` (saturating exponent, wrapping shift).
pub open spec fn rpll_ff(s: (i32, u32, u32, i32), cfg: RpllConfig, x: i32) -> u32 {
    let dx = i32_specs::wrapping_sub(x, s.0);
    let sf = cfg.shift_frequency;
    let p_sig = (u64_specs::wrapping_add(
        u64_specs::wrapping_mul(s.1 as u64, dx as u64),
        1u64 << ((sf - 1) as u64),
    ) >> (sf as u64)) as u32;
    let e: int = 32 + cfg.dt2 - sf;
    let p_ref = u32_specs::wrapping_shl(1u32, if e < 0 { 0u32 } else { e as u32 });
    u32_specs::wrapping_add(s.1, u32_specs::wrapping_sub(p_ref, p_sig))
}

/// The combined frequency after a timestamp `x`: the new frequency-loop estimate plus the
/// phase correction `((y_ref - y) >> (shift_phase - dt2))`, where `y` is the advanced phase and
/// `y_ref = (f >> dt2) * (-x mod 2^dt2)` truncated to 32 bits.
pub open spec fn rpll_f(s: (i32, u32, u32, i32), cfg: RpllConfig, x: i32) -> u32 {
    let y = i32_specs::wrapping_add(s.3, s.2 as i32);
    let dt = i32_specs::wrapping_sub(0, x) & (((1i32 << (cfg.dt2 as i32)) - 1) as i32);
    let y_ref = ((s.2 >> (cfg.dt2 as u32)) * dt) as i32;
    let dy = i32_specs::wrapping_sub(y_ref, y) >> ((cfg.shift_phase - cfg.dt2) as u32);
    u32_specs::wrapping_add(rpll_ff(s, cfg, x), dy as u32)
}

/// The state after one step, with or without a timestamp.
pub open spec fn rpll_next(s: (i32, u32, u32, i32), cfg: RpllConfig, timestamp: Option<i32>) -> (
    i32,
    u32,
    u32,
    i32,
) {
    let y = i32_specs::wrapping_add(s.3, s.2 as i32);
    match timestamp {
        Some(x) => (x, rpll_ff(s, cfg, x), rpll_f(s, cfg, x), y),
        None => (s.0, s.1, s.2, y),
    }
}

impl Rpll {
    /// The phase estimate.
    pub fn phase(&self) -> (r: i32)
        ensures
            r == self@.3,
    {
        self.y
    }

    /// The frequency estimate.
    pub fn frequency(&self) -> (r: u32)
        ensures
            r == self@.2,
    {
        self.f
    }

    /// Advance by one sample, with the reference timestamp when one arrived; returns the new
    /// `(phase, frequency)`.
    pub fn process(&mut self, cfg: &RpllConfig, timestamp: Option<i32>) -> (r: (i32, u32))
        requires
            timestamp is Some ==> rpll_config_ok(*cfg),
        ensures
            final(self)@ == rpll_next(old(self)@, *cfg, timestamp),
            r == (final(self)@.3, final(self)@.2),
    {
        let ghost s = self@;
        self.y = self.y.wrapping_add(self.f as i32);

        if let Some(x) = timestamp {
            let dx = x.wrapping_sub(self.x);
            self.x = x;

            let p_sig = ((self.ff as u64).wrapping_mul(dx as u64).wrapping_add(
                1u64 << (cfg.shift_frequency - 1),
            ) >> cfg.shift_frequency) as u32;

            let e: u32 = if 32u32 + cfg.dt2 as u32 >= cfg.shift_frequency as u32 {
                32u32 + cfg.dt2 as u32 - cfg.shift_frequency as u32
            } else {
                0
            };
            let p_ref = 1u32.wrapping_shl(e);

            self.ff = self.ff.wrapping_add(p_ref.wrapping_sub(p_sig));

            let dt2: u8 = cfg.dt2;
            let one_shl: i32 = 1i32 << dt2;
            assert(one_shl >= 1 && one_shl <= 0x4000_0000) by (bit_vector)
                requires
                    one_shl == 1i32 << dt2,
                    dt2 <= 30,
            ;
            let mask: i32 = one_shl - 1;
            let neg = 0i32.wrapping_sub(x);
            let dt = neg & mask;
            assert(0 <= dt <= mask) by (bit_vector)
                requires
                    dt == neg & mask,
                    mask >= 0,
            ;

            let fd: u32 = self.f >> cfg.dt2 as u32;
            proof {
                assert(0 <= fd as int * dt as int <= 0xffff_ffff * 0x4000_0000) by (nonlinear_arith)
                    requires
                        0 <= dt <= 0x4000_0000,
                        fd <= 0xffff_ffff,
                ;
            }
            let y_ref = (fd as i64 * dt as i64) as i32;

            let dy = (y_ref.wrapping_sub(self.y)) >> (cfg.shift_phase - cfg.dt2) as u32;

            self.f = self.ff.wrapping_add(dy as u32);
        }
        (self.y, self.f)
    }
}

} // verus!
