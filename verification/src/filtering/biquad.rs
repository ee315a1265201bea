//! Biquad and direct-form sections: block cascades, state containers, coefficient sets, and the
//! fixed-point and integer second-order sections.
use vstd::prelude::*;
use vstd::wrapping::i64_specs;
use crate::types::{clamp_int, DspSample, MacSample};

verus! {

// ─────────────────────────────────────────────────────────────────────────────
// Direct-form state containers
// ─────────────────────────────────────────────────────────────────────────────
/// Direct Form 1 filter history state holding delayed inputs and outputs `[x1, x2, y1, y2]`.
#[derive(Clone, Copy, Debug, PartialEq)]
pub struct DirectForm1<T> {
    /// Input/output history.
    pub xy: [T; 4],
}

/// Every slot of `a` holds one value that `T::default()` can return.
pub open spec fn all_default<T: Default, const N: usize>(a: [T; N]) -> bool {
    &&& N > 0 ==> call_ensures(T::default, (), a[0])
    &&& forall|i: int| 0 <= i < N ==> #[trigger] a[i] == a[0]
}

impl<T: Default + Copy> Default for DirectForm1<T> {
    fn default() -> (r: Self)
        ensures
            all_default(r.xy),
    {
        Self { xy: [T::default();4] }
    }
}

impl<T: Default + Copy> DirectForm1<T> {
    /// Create a new zero-initialized Direct Form 1 state.
    pub fn new() -> (r: Self)
        ensures
            all_default(r.xy),
    {
        Self { xy: [T::default();4] }
    }

    /// Reset internal state buffer.
    pub fn reset(&mut self)
        ensures
            all_default(final(self).xy),
    {
        self.xy = [T::default();4];
    }
}

/// Direct Form 2 Transposed filter state holding accumulator registers `[s0, s1]`.
#[derive(Clone, Copy, Debug, PartialEq)]
pub struct DirectForm2Transposed<T> {
    /// S.
    pub s: [T; 2],
}

impl<T: Default + Copy> Default for DirectForm2Transposed<T> {
    fn default() -> (r: Self)
        ensures
            all_default(r.s),
    {
        Self { s: [T::default();2] }
    }
}

impl<T: Default + Copy> DirectForm2Transposed<T> {
    /// Create a new zero-initialized Direct Form 2 Transposed state.
    pub fn new() -> (r: Self)
        ensures
            all_default(r.s),
    {
        Self { s: [T::default();2] }
    }

    /// Reset internal state buffer.
    pub fn reset(&mut self)
        ensures
            all_default(final(self).s),
    {
        self.s = [T::default();2];
    }
}

// ─────────────────────────────────────────────────────────────────────────────
// Coefficient sets
// ─────────────────────────────────────────────────────────────────────────────
/// Second-order section (SOS) biquadratic filter configuration.
///
/// Contains coefficients `ba: [b0, b1, b2, a1, a2]` normalized such that `a0 = 1`.
/// Recurrence relation: `y0 = b0*x0 + b1*x1 + b2*x2 + a1*y1 + a2*y2`.
#[derive(Clone, Copy, Debug, Default, PartialEq)]
pub struct Biquad<T> {
    /// Second-order-section coefficients `[b0, b1, b2, a1, a2]`.
    pub ba: [T; 5],
}

impl<T: Copy> Biquad<T> {
    /// Create a new Biquad configuration from coefficients `[b0, b1, b2, a1, a2]`.
    pub fn new(b0: T, b1: T, b2: T, a1: T, a2: T) -> (r: Self)
        ensures
            r.ba@ == seq![b0, b1, b2, a1, a2],
    {
        let r = Self { ba: [b0, b1, b2, a1, a2] };
        assert(r.ba@ =~= seq![b0, b1, b2, a1, a2]);
        r
    }
}

/// Biquadratic filter configuration with summing junction offset and anti-windup output clamping.
///
/// Clamps output between `[min, max]` at the summing junction before storing into feedback
/// state, preventing integrator windup and derivative kick in feedback control.
#[derive(Clone, Copy, Debug, PartialEq)]
pub struct BiquadClamp<T> {
    /// Coeff.
    pub coeff: Biquad<T>,
    /// Summing junction offset (setpoint)
    pub u: T,
    /// Minimum saturation clamp
    pub min: T,
    /// Maximum saturation clamp
    pub max: T,
}

impl<T: Copy> BiquadClamp<T> {
    /// Create a new clamped Biquad with coefficients, offset, and clamp bounds.
    pub fn new(coeff: Biquad<T>, min: T, max: T, u: T) -> (r: Self)
        ensures
            r.coeff == coeff,
            r.min == min,
            r.max == max,
            r.u == u,
    {
        Self { coeff, u, min, max }
    }
}

// ─────────────────────────────────────────────────────────────────────────────
// Fixed-point section with noise shaping
// ─────────────────────────────────────────────────────────────────────────────
/// Direct Form 1 state with quantization error feedback for noise shaping.
#[derive(Clone, Copy, Debug, Default, PartialEq, Eq)]
pub struct DirectForm1NoiseShaped {
    /// Input/output history.
    pub xy: [i32; 4],
    /// Quantization error feedback accumulator.
    pub err: i32,
}

impl DirectForm1NoiseShaped {
    /// Create a new zero-initialized state with zero error feedback.
    pub fn new() -> (r: Self)
        ensures
            r.xy@ == seq![0i32, 0, 0, 0],
            r.err == 0,
    {
        let r = Self { xy: [0i32; 4], err: 0 };
        assert(r.xy@ =~= seq![0i32, 0, 0, 0]);
        r
    }

    /// Reset internal state and error accumulator.
    pub fn reset(&mut self)
        ensures
            final(self).xy@ == seq![0i32, 0, 0, 0],
            final(self).err == 0,
    {
        self.xy = [0i32; 4];
        self.err = 0;
        assert(self.xy@ =~= seq![0i32, 0, 0, 0]);
    }
}

/// Fixed-point 32-bit Biquad with parameterized fractional scaling and anti-windup clamping.
#[derive(Clone, Copy, Debug, PartialEq, Eq)]
pub struct BiquadFixed<const SHIFT: u32> {
    /// Fixed-point coefficients `[b0, b1, b2, a1, a2]`.
    pub ba: [i32; 5],
    /// Summing junction offset
    pub u: i32,
    /// Minimum saturation clamp
    pub min: i32,
    /// Maximum saturation clamp
    pub max: i32,
}

/// In `i64` range.
pub open spec fn in_i64(v: int) -> bool {
    i64::MIN <= v <= i64::MAX
}

/// The partial sums of the noise-shaped accumulator, in evaluation order: the five products
/// `b0*x0, b1*x1, b2*x2, a1*y1, a2*y2` added one by one, then the offset `u << SHIFT`, then
/// the previous sample's truncation remainder added back (first-order error feedback).
pub open spec fn noise_shaped_partials(
    ba: [i32; 5],
    u: i32,
    shift: u32,
    xy: [i32; 4],
    err: i32,
    x0: i32,
) -> Seq<int> {
    let p1 = ba[0] * x0 + ba[1] * xy[0];
    let p2 = p1 + ba[2] * xy[1];
    let p3 = p2 + ba[3] * xy[2];
    let p4 = p3 + ba[4] * xy[3];
    let p5 = p4 + ((u as i64) << shift);
    seq![p1, p2, p3, p4, p5, p5 + err]
}

/// The noise-shaped accumulator.
pub open spec fn noise_shaped_acc(
    ba: [i32; 5],
    u: i32,
    shift: u32,
    xy: [i32; 4],
    err: i32,
    x0: i32,
) -> int {
    noise_shaped_partials(ba, u, shift, xy, err, x0)[5]
}

/// The output: `acc >> SHIFT` clamped to `[min, max]`.
pub open spec fn noise_shaped_output(
    ba: [i32; 5],
    u: i32,
    min: i32,
    max: i32,
    shift: u32,
    xy: [i32; 4],
    err: i32,
    x0: i32,
) -> int {
    clamp_int(
        (noise_shaped_acc(ba, u, shift, xy, err, x0) as i64 >> shift) as int,
        min as int,
        max as int,
    )
}

proof fn lemma_shr_remainder(a: i64, s: u64)
    by (bit_vector)
    requires
        s < 63,
    ensures
        0 <= a - ((a >> s) << s) < (1i64 << s),
{
}

/// First-order noise shaping: when the output is not clamped, the remainder stored for the next
/// sample is exactly what the shift dropped from the accumulator, `0 <= err < 2^SHIFT`. Summed
/// over a run, the accumulators without feedback and the outputs scaled by `2^SHIFT` therefore
/// differ by the last remainder only.
pub proof fn lemma_noise_shaping_remainder<const SHIFT: u32>(
    f: BiquadFixed<SHIFT>,
    state: DirectForm1NoiseShaped,
    x0: i32,
)
    requires
        f.noise_shaped_ok(state, x0),
        SHIFT < 63,
        f.min <= (noise_shaped_acc(f.ba, f.u, SHIFT, state.xy, state.err, x0) as i64 >> SHIFT)
            <= f.max,
    ensures
        ({
            let acc = noise_shaped_acc(f.ba, f.u, SHIFT, state.xy, state.err, x0);
            let y = noise_shaped_output(f.ba, f.u, f.min, f.max, SHIFT, state.xy, state.err, x0);
            &&& y == (acc as i64 >> SHIFT)
            &&& 0 <= acc - ((y as i64) << SHIFT) < (1i64 << SHIFT)
            &&& SHIFT <= 31 ==> (acc - ((y as i64) << SHIFT)) as i32 == acc - ((y as i64) << SHIFT)
        }),
{
    let acc = noise_shaped_acc(f.ba, f.u, SHIFT, state.xy, state.err, x0);
    let ps = noise_shaped_partials(f.ba, f.u, SHIFT, state.xy, state.err, x0);
    assert(in_i64(ps[5]));
    let a = acc as i64;
    lemma_shr_remainder(a, SHIFT as u64);
    if SHIFT <= 31 {
        let s = SHIFT as u64;
        assert(s <= 31 ==> (1i64 << s) <= 0x8000_0000) by (bit_vector);
    }
}

impl<const SHIFT: u32> BiquadFixed<SHIFT> {
    /// Create a new fixed-point biquad configuration.
    pub fn new(ba: [i32; 5], min: i32, max: i32, u: i32) -> (r: Self)
        ensures
            r.ba == ba,
            r.min == min,
            r.max == max,
            r.u == u,
    {
        Self { ba, min, max, u }
    }

    /// Whether `process_noise_shaped` runs without an arithmetic fault on this input: the
    /// shift fits an `i64`, the clamp range is ordered, and no partial sum (nor the new
    /// error term) leaves the `i64` range.
    pub open spec fn noise_shaped_ok(&self, state: DirectForm1NoiseShaped, x0: i32) -> bool {
        let ps = noise_shaped_partials(self.ba, self.u, SHIFT, state.xy, state.err, x0);
        let y0 = noise_shaped_output(
            self.ba,
            self.u,
            self.min,
            self.max,
            SHIFT,
            state.xy,
            state.err,
            x0,
        );
        &&& SHIFT < 64
        &&& self.min <= self.max
        &&& forall|i: int| 0 <= i < 6 ==> #[trigger] in_i64(ps[i])
        &&& in_i64(ps[5] - ((y0 as i64) << SHIFT))
    }

    /// Process single sample with 1st-order noise shaping to eliminate limit cycles.
    pub fn process_noise_shaped(&self, state: &mut DirectForm1NoiseShaped, x0: i32) -> (y: i32)
        requires
            self.noise_shaped_ok(*old(state), x0),
        ensures
            y == noise_shaped_output(
                self.ba,
                self.u,
                self.min,
                self.max,
                SHIFT,
                old(state).xy,
                old(state).err,
                x0,
            ),
            final(state).err == (noise_shaped_acc(
                self.ba,
                self.u,
                SHIFT,
                old(state).xy,
                old(state).err,
                x0,
            ) - ((y as i64) << SHIFT)) as i32,
            final(state).xy@ == seq![x0, old(state).xy[0], y, old(state).xy[2]],
    {
        let ghost ps = noise_shaped_partials(self.ba, self.u, SHIFT, state.xy, state.err, x0);
        assert(in_i64(ps[0]) && in_i64(ps[1]) && in_i64(ps[2]) && in_i64(ps[3]) && in_i64(ps[4])
            && in_i64(ps[5]));
        let b0 = self.ba[0];
        let b1 = self.ba[1];
        let b2 = self.ba[2];
        let a1 = self.ba[3];
        let a2 = self.ba[4];
        let x1 = state.xy[0];
        let x2 = state.xy[1];
        let y1 = state.xy[2];
        let y2 = state.xy[3];
        proof {
            crate::types::lemma_mul_abs_bound(b0 as int, x0 as int, 0x8000_0000);
            crate::types::lemma_mul_abs_bound(b1 as int, x1 as int, 0x8000_0000);
            crate::types::lemma_mul_abs_bound(b2 as int, x2 as int, 0x8000_0000);
            crate::types::lemma_mul_abs_bound(a1 as int, y1 as int, 0x8000_0000);
            crate::types::lemma_mul_abs_bound(a2 as int, y2 as int, 0x8000_0000);
        }
        let acc: i64 = (b0 as i64 * x0 as i64) + (b1 as i64 * x1 as i64) + (b2 as i64 * x2 as i64)
            + (a1 as i64 * y1 as i64) + (a2 as i64 * y2 as i64) + ((self.u as i64) << SHIFT)
            + state.err as i64;
        let scaled: i64 = acc >> SHIFT;
        let y0: i32 = if scaled < self.min as i64 {
            self.min
        } else if scaled > self.max as i64 {
            self.max
        } else {
            scaled as i32
        };
        state.err = (acc - ((y0 as i64) << SHIFT)) as i32;
        state.xy = [x0, x1, y0, y1];
        assert(state.xy@ =~= seq![x0, x1, y0, y1]);
        y0
    }

    /// Process a single sample with a 64-bit (`Q32.32`) output accumulator.
    ///
    /// Compared with [`Self::process_noise_shaped`], the feedback path carries 32 fractional
    /// bits instead of being rounded each sample, which removes the need for dithering at the
    /// cost of a wider state.
    pub fn process_wide(&self, state: &mut DirectForm1Wide, x0: i32) -> (y: i32)
        requires
            1 <= SHIFT <= 32,
            self.min <= self.max,
        ensures
            y == wide_output(self.ba, self.u, self.min, self.max, SHIFT, *old(state), x0),
            final(state).x@ == seq![x0, old(state).x[0]],
            final(state).y@ == seq![
                ((y as i64) << 32u64) | (wide_acc(self.ba, SHIFT, *old(state), x0) as u32 as i64),
                old(state).y[0],
            ],
    {
        let b0 = self.ba[0];
        let b1 = self.ba[1];
        let b2 = self.ba[2];
        let a1 = self.ba[3];
        let a2 = self.ba[4];
        let x1 = state.x[0];
        let x2 = state.x[1];
        let y1 = state.y[0];
        let y2 = state.y[1];

        // Numerator: full-width products, no truncation.
        let mut acc: i64 = (b0 as i64).wrapping_mul(x0 as i64).wrapping_add(
            (b1 as i64).wrapping_mul(x1 as i64),
        ).wrapping_add((b2 as i64).wrapping_mul(x2 as i64));

        // Denominator: 32x32 split multiply of the wide states by the bits.
        acc = acc.wrapping_add(((y1 as u32 as i64).wrapping_mul(a1 as i64)) >> 32u64);
        acc = acc.wrapping_add(((y1 >> 32u64) as i32 as i64).wrapping_mul(a1 as i64));
        acc = acc.wrapping_add(((y2 as u32 as i64).wrapping_mul(a2 as i64)) >> 32u64);
        acc = acc.wrapping_add(((y2 >> 32u64) as i32 as i64).wrapping_mul(a2 as i64));

        // Promote from the `SHIFT`-bit coefficient scale to Q32.32.
        acc = acc << (32 - SHIFT);

        let v: i64 = ((acc >> 32u64) as i32 as i64).wrapping_add(self.u as i64);
        let y0: i32 = if v < self.min as i64 {
            self.min
        } else if v > self.max as i64 {
            self.max
        } else {
            v as i32
        };

        // Keep the fractional low word of the accumulator, overwrite the output word.
        state.y = [((y0 as i64) << 32u64) | (acc as u32 as i64), y1];
        state.x = [x0, x1];
        assert(state.x@ =~= seq![x0, x1]);
        assert(state.y@ =~= seq![((y0 as i64) << 32u64) | (acc as u32 as i64), y1]);
        y0
    }
}

/// The wide accumulator of [`BiquadFixed::process_wide`] after promotion to `Q32.32`: the
/// numerator products and the split denominator products summed with wrapping, then shifted
/// left by `32 - SHIFT`.
pub open spec fn wide_acc(ba: [i32; 5], shift: u32, state: DirectForm1Wide, x0: i32) -> i64 {
    let y1 = state.y[0];
    let y2 = state.y[1];
    let n = i64_specs::wrapping_add(
        i64_specs::wrapping_add(
            i64_specs::wrapping_mul(ba[0] as i64, x0 as i64),
            i64_specs::wrapping_mul(ba[1] as i64, state.x[0] as i64),
        ),
        i64_specs::wrapping_mul(ba[2] as i64, state.x[1] as i64),
    );
    let d1 = i64_specs::wrapping_add(
        n,
        i64_specs::wrapping_mul(y1 as u32 as i64, ba[3] as i64) >> 32u64,
    );
    let d2 = i64_specs::wrapping_add(
        d1,
        i64_specs::wrapping_mul((y1 >> 32u64) as i32 as i64, ba[3] as i64),
    );
    let d3 = i64_specs::wrapping_add(
        d2,
        i64_specs::wrapping_mul(y2 as u32 as i64, ba[4] as i64) >> 32u64,
    );
    let d4 = i64_specs::wrapping_add(
        d3,
        i64_specs::wrapping_mul((y2 >> 32u64) as i32 as i64, ba[4] as i64),
    );
    d4 << ((32 - shift) as u32)
}

/// The output of [`BiquadFixed::process_wide`]: the integer word of the accumulator plus the
/// offset (wrapping), clamped to `[min, max]`.
pub open spec fn wide_output(
    ba: [i32; 5],
    u: i32,
    min: i32,
    max: i32,
    shift: u32,
    state: DirectForm1Wide,
    x0: i32,
) -> int {
    clamp_int(
        i64_specs::wrapping_add((wide_acc(ba, shift, state, x0) >> 32u64) as i32 as i64, u as i64)
            as int,
        min as int,
        max as int,
    )
}

proof fn lemma_unit_tap(x: i64, g: i32, s: u32)
    by (bit_vector)
    requires
        -0x8000_0000 <= x < 0x8000_0000,
        1 <= s <= 30,
        g == (1i32 << s),
    ensures
        (((x * (g as i64)) as i64) << ((32 - s) as u32)) >> 32u64 == x,
        -0x8000_0000_0000_0000 < x * (g as i64) < 0x8000_0000_0000_0000,
        (0i64 >> 32u64) == 0i64,
{
}

proof fn lemma_signed_crop64(v: int)
    requires
        i64::MIN <= v <= i64::MAX,
    ensures
        i64_specs::signed_crop(v) == v,
{
    let r = 0x1_0000_0000_0000_0000int;
    if v >= 0 {
        vstd::arithmetic::div_mod::lemma_small_mod(v as nat, r as nat);
    } else {
        vstd::arithmetic::div_mod::lemma_fundamental_div_mod_converse(v, r, -1, v + r);
    }
}

/// The taps of the wide form sit where their names say: with a single unit tap
/// `2^SHIFT` and no feedback, offset or clamp, `b0` passes the current input, `b1` the previous
/// input (`state.x[0]`) and `b2` the one before (`state.x[1]`), so `b1` delays by exactly one
/// sample and `b2` by two.
pub proof fn lemma_wide_unit_taps(shift: u32, g: i32, state: DirectForm1Wide, x0: i32)
    requires
        1 <= shift <= 30,
        g == (1i32 << shift),
    ensures
        wide_output([g, 0, 0, 0, 0], 0, i32::MIN, i32::MAX, shift, state, x0) == x0,
        wide_output([0, g, 0, 0, 0], 0, i32::MIN, i32::MAX, shift, state, x0) == state.x[0],
        wide_output([0, 0, g, 0, 0], 0, i32::MIN, i32::MAX, shift, state, x0) == state.x[1],
{
    lemma_wide_unit_tap_at(shift, g, [g, 0, 0, 0, 0], state, x0, x0);
    lemma_wide_unit_tap_at(shift, g, [0, g, 0, 0, 0], state, x0, state.x[0]);
    lemma_wide_unit_tap_at(shift, g, [0, 0, g, 0, 0], state, x0, state.x[1]);
}

proof fn lemma_wide_unit_tap_at(
    shift: u32,
    g: i32,
    ba: [i32; 5],
    state: DirectForm1Wide,
    x0: i32,
    picked: i32,
)
    requires
        1 <= shift <= 30,
        g == (1i32 << shift),
        ba[3] == 0,
        ba[4] == 0,
        (ba[0] == g && ba[1] == 0 && ba[2] == 0 && picked == x0) || (ba[0] == 0 && ba[1] == g
            && ba[2] == 0 && picked == state.x[0]) || (ba[0] == 0 && ba[1] == 0 && ba[2] == g
            && picked == state.x[1]),
    ensures
        wide_output(ba, 0, i32::MIN, i32::MAX, shift, state, x0) == picked,
{
    lemma_unit_tap(picked as i64, g, shift);
    let prod = picked as int * g as int;
    lemma_signed_crop64(prod);
    lemma_signed_crop64(0);
    assert(i64_specs::wrapping_mul(g as i64, picked as i64) == prod) by {
        assert(g as i64 * picked as i64 == prod) by (nonlinear_arith)
            requires
                prod == picked as int * g as int,
        ;
    }
    assert(forall|v: i64| #[trigger] i64_specs::wrapping_mul(0i64, v) == 0) by {
        assert forall|v: i64| #[trigger] i64_specs::wrapping_mul(0i64, v) == 0 by {
            assert(0i64 * v == 0);
        }
    }
    assert(forall|v: i64| #[trigger] i64_specs::wrapping_mul(v, 0i64) == 0) by {
        assert forall|v: i64| #[trigger] i64_specs::wrapping_mul(v, 0i64) == 0 by {
            assert(v * 0i64 == 0);
        }
    }
    let acc = wide_acc(ba, shift, state, x0);
    assert(acc == ((prod as i64) << ((32 - shift) as u32)));
    assert((acc >> 32u64) == picked as i64);
}

proof fn lemma_whole_word(p: i32)
    by (bit_vector)
    ensures
        (((p as i64) << 32u64) as u32) == 0u32,
        ((((p as i64) << 32u64) >> 32u64) as i32) == p,
        (0i64 >> 32u64) == 0i64,
{
}

/// The feedback taps of the wide form read the right outputs: with a single unit feedback tap
/// `2^SHIFT`, no feed-forward, offset or clamp, and whole-number output history, `a1` passes
/// the previous output (`state.y[0]`) and `a2` the one before (`state.y[1]`).
pub proof fn lemma_wide_unit_feedback(shift: u32, g: i32, x1: i32, x2: i32, p1: i32, p2: i32, x0: i32)
    requires
        1 <= shift <= 30,
        g == (1i32 << shift),
    ensures
        ({
            let state = DirectForm1Wide {
                x: [x1, x2],
                y: [(p1 as i64) << 32u64, (p2 as i64) << 32u64],
            };
            &&& wide_output([0, 0, 0, g, 0], 0, i32::MIN, i32::MAX, shift, state, x0) == p1
            &&& wide_output([0, 0, 0, 0, g], 0, i32::MIN, i32::MAX, shift, state, x0) == p2
        }),
{
    let state = DirectForm1Wide { x: [x1, x2], y: [(p1 as i64) << 32u64, (p2 as i64) << 32u64] };
    lemma_whole_word(p1);
    lemma_whole_word(p2);
    lemma_signed_crop64(0);
    assert(forall|v: i64| #[trigger] i64_specs::wrapping_mul(0i64, v) == 0) by {
        assert forall|v: i64| #[trigger] i64_specs::wrapping_mul(0i64, v) == 0 by {
            assert(0i64 * v == 0);
        }
    }
    assert(forall|v: i64| #[trigger] i64_specs::wrapping_mul(v, 0i64) == 0) by {
        assert forall|v: i64| #[trigger] i64_specs::wrapping_mul(v, 0i64) == 0 by {
            assert(v * 0i64 == 0);
        }
    }
    lemma_wide_feedback_at(shift, g, p1, [0, 0, 0, g, 0], state, x0);
    lemma_wide_feedback_at(shift, g, p2, [0, 0, 0, 0, g], state, x0);
}

proof fn lemma_wide_feedback_at(
    shift: u32,
    g: i32,
    p: i32,
    ba: [i32; 5],
    state: DirectForm1Wide,
    x0: i32,
)
    requires
        1 <= shift <= 30,
        g == (1i32 << shift),
        ba[0] == 0 && ba[1] == 0 && ba[2] == 0,
        (ba[3] == g && ba[4] == 0 && state.y[0] == (p as i64) << 32u64) || (ba[3] == 0 && ba[4]
            == g && state.y[1] == (p as i64) << 32u64),
        forall|v: i64| #[trigger] i64_specs::wrapping_mul(0i64, v) == 0,
        forall|v: i64| #[trigger] i64_specs::wrapping_mul(v, 0i64) == 0,
        (((p as i64) << 32u64) as u32) == 0u32,
        ((((p as i64) << 32u64) >> 32u64) as i32) == p,
        (0i64 >> 32u64) == 0i64,
    ensures
        wide_output(ba, 0, i32::MIN, i32::MAX, shift, state, x0) == p,
{
    lemma_unit_tap(p as i64, g, shift);
    let prod = p as int * g as int;
    lemma_signed_crop64(prod);
    assert(i64_specs::wrapping_mul(p as i64, g as i64) == prod) by {
        assert(p as i64 * g as i64 == prod) by (nonlinear_arith)
            requires
                prod == p as int * g as int,
        ;
    }
    let acc = wide_acc(ba, shift, state, x0);
    assert(acc == ((prod as i64) << ((32 - shift) as u32)));
    assert((acc >> 32u64) == p as i64);
}

/// Direct Form 1 state with a 64-bit (`Q32.32`) output accumulator.
///
/// The recursion is carried at 32 fractional bits so coefficient rounding does not accumulate
/// inside the feedback path. Use it with [`BiquadFixed::process_wide`].
#[derive(Clone, Copy, Debug, Default, PartialEq, Eq)]
pub struct DirectForm1Wide {
    /// Input history `[x1, x2]`.
    pub x: [i32; 2],
    /// Output accumulator history `[y1, y2]` in `Q32.32`.
    pub y: [i64; 2],
}

impl DirectForm1Wide {
    /// Create a new zero-initialized wide state.
    pub fn new() -> (r: Self)
        ensures
            r.x@ == seq![0i32, 0],
            r.y@ == seq![0i64, 0],
    {
        let r = Self { x: [0i32; 2], y: [0i64; 2] };
        assert(r.x@ =~= seq![0i32, 0]);
        assert(r.y@ =~= seq![0i64, 0]);
        r
    }

    /// Reset the state and accumulator history.
    pub fn reset(&mut self)
        ensures
            final(self).x@ == seq![0i32, 0],
            final(self).y@ == seq![0i64, 0],
    {
        self.x = [0i32; 2];
        self.y = [0i64; 2];
        assert(self.x@ =~= seq![0i32, 0]);
        assert(self.y@ =~= seq![0i64, 0]);
    }
}

// ─────────────────────────────────────────────────────────────────────────────
// Integer sections generic over the sample width
// ─────────────────────────────────────────────────────────────────────────────
/// Integer sample type usable with [`BiquadInt`].
///
/// Implemented for `i8`, `i16`, `i32` and `i64`, each with a wider accumulator (`i16`, `i32`,
/// `i64` and `i128` respectively). Each operation's result is named by a spec function, which
/// the implementations define (saturating narrow, wrapping multiply and add, arithmetic shift).
pub trait BiquadIntSample: Copy + PartialOrd + Sized {
    /// Wider accumulator type used for the recursion.
    type Wide: Copy + PartialOrd;

    /// Most negative value.
    const MIN: Self;
    /// Most positive value.
    const MAX: Self;

    /// The sample as an integer.
    spec fn spec_int(self) -> int;

    /// The widened sample.
    spec fn spec_widen(self) -> Self::Wide;

    /// The accumulator value saturated back to the sample range.
    spec fn spec_narrow(w: Self::Wide) -> Self;

    /// The accumulator zero.
    spec fn spec_wide_zero() -> Self::Wide;

    /// The wrapping accumulator product.
    spec fn spec_wide_mul(a: Self::Wide, b: Self::Wide) -> Self::Wide;

    /// The wrapping accumulator sum.
    spec fn spec_wide_add(a: Self::Wide, b: Self::Wide) -> Self::Wide;

    /// The arithmetic right shift of the accumulator.
    spec fn spec_wide_shr(a: Self::Wide, n: u32) -> Self::Wide;

    /// The width of the accumulator in bits.
    spec fn spec_wide_bits() -> nat;

    /// Sample order.
    spec fn spec_less(a: Self, b: Self) -> bool;

    /// Widen to the accumulator type.
    fn widen(self) -> (r: Self::Wide)
        ensures
            r == self.spec_widen(),
    ;

    /// Saturate an accumulator value back to the sample range.
    fn narrow(w: Self::Wide) -> (r: Self)
        ensures
            r == Self::spec_narrow(w),
    ;

    /// Accumulator zero.
    fn wide_zero() -> (r: Self::Wide)
        ensures
            r == Self::spec_wide_zero(),
    ;

    /// Wrapping accumulator multiply.
    fn wide_mul(a: Self::Wide, b: Self::Wide) -> (r: Self::Wide)
        ensures
            r == Self::spec_wide_mul(a, b),
    ;

    /// Wrapping accumulator add.
    fn wide_add(a: Self::Wide, b: Self::Wide) -> (r: Self::Wide)
        ensures
            r == Self::spec_wide_add(a, b),
    ;

    /// Arithmetic right shift of the accumulator.
    fn wide_shr(a: Self::Wide, n: u32) -> (r: Self::Wide)
        requires
            n < Self::spec_wide_bits(),
        ensures
            r == Self::spec_wide_shr(a, n),
    ;

    /// Whether `a` is below `b`.
    fn is_less(a: Self, b: Self) -> (r: bool)
        ensures
            r == Self::spec_less(a, b),
    ;
}

impl BiquadIntSample for i8 {
    type Wide = i16;

    const MIN: Self = i8::MIN;
    const MAX: Self = i8::MAX;

    open spec fn spec_int(self) -> int {
        self as int
    }

    open spec fn spec_widen(self) -> i16 {
        self as i16
    }

    open spec fn spec_narrow(w: i16) -> i8 {
        clamp_int(w as int, i8::MIN as int, i8::MAX as int) as i8
    }

    open spec fn spec_wide_zero() -> i16 {
        0
    }

    open spec fn spec_wide_mul(a: i16, b: i16) -> i16 {
        vstd::wrapping::i16_specs::wrapping_mul(a, b)
    }

    open spec fn spec_wide_add(a: i16, b: i16) -> i16 {
        vstd::wrapping::i16_specs::wrapping_add(a, b)
    }

    open spec fn spec_wide_shr(a: i16, n: u32) -> i16 {
        a >> n
    }

    open spec fn spec_wide_bits() -> nat {
        16
    }

    open spec fn spec_less(a: i8, b: i8) -> bool {
        a < b
    }

    fn widen(self) -> (r: i16) {
        self as i16
    }

    fn narrow(w: i16) -> (r: i8) {
        if w < i8::MIN as i16 {
            i8::MIN
        } else if w > i8::MAX as i16 {
            i8::MAX
        } else {
            w as i8
        }
    }

    fn wide_zero() -> (r: i16) {
        0
    }

    fn wide_mul(a: i16, b: i16) -> (r: i16) {
        a.wrapping_mul(b)
    }

    fn wide_add(a: i16, b: i16) -> (r: i16) {
        a.wrapping_add(b)
    }

    fn wide_shr(a: i16, n: u32) -> (r: i16) {
        a >> n
    }

    fn is_less(a: i8, b: i8) -> (r: bool) {
        a < b
    }
}

impl BiquadIntSample for i16 {
    type Wide = i32;

    const MIN: Self = i16::MIN;
    const MAX: Self = i16::MAX;

    open spec fn spec_int(self) -> int {
        self as int
    }

    open spec fn spec_widen(self) -> i32 {
        self as i32
    }

    open spec fn spec_narrow(w: i32) -> i16 {
        clamp_int(w as int, i16::MIN as int, i16::MAX as int) as i16
    }

    open spec fn spec_wide_zero() -> i32 {
        0
    }

    open spec fn spec_wide_mul(a: i32, b: i32) -> i32 {
        vstd::wrapping::i32_specs::wrapping_mul(a, b)
    }

    open spec fn spec_wide_add(a: i32, b: i32) -> i32 {
        vstd::wrapping::i32_specs::wrapping_add(a, b)
    }

    open spec fn spec_wide_shr(a: i32, n: u32) -> i32 {
        a >> n
    }

    open spec fn spec_wide_bits() -> nat {
        32
    }

    open spec fn spec_less(a: i16, b: i16) -> bool {
        a < b
    }

    fn widen(self) -> (r: i32) {
        self as i32
    }

    fn narrow(w: i32) -> (r: i16) {
        if w < i16::MIN as i32 {
            i16::MIN
        } else if w > i16::MAX as i32 {
            i16::MAX
        } else {
            w as i16
        }
    }

    fn wide_zero() -> (r: i32) {
        0
    }

    fn wide_mul(a: i32, b: i32) -> (r: i32) {
        a.wrapping_mul(b)
    }

    fn wide_add(a: i32, b: i32) -> (r: i32) {
        a.wrapping_add(b)
    }

    fn wide_shr(a: i32, n: u32) -> (r: i32) {
        a >> n
    }

    fn is_less(a: i16, b: i16) -> (r: bool) {
        a < b
    }
}

impl BiquadIntSample for i32 {
    type Wide = i64;

    const MIN: Self = i32::MIN;
    const MAX: Self = i32::MAX;

    open spec fn spec_int(self) -> int {
        self as int
    }

    open spec fn spec_widen(self) -> i64 {
        self as i64
    }

    open spec fn spec_narrow(w: i64) -> i32 {
        clamp_int(w as int, i32::MIN as int, i32::MAX as int) as i32
    }

    open spec fn spec_wide_zero() -> i64 {
        0
    }

    open spec fn spec_wide_mul(a: i64, b: i64) -> i64 {
        vstd::wrapping::i64_specs::wrapping_mul(a, b)
    }

    open spec fn spec_wide_add(a: i64, b: i64) -> i64 {
        vstd::wrapping::i64_specs::wrapping_add(a, b)
    }

    open spec fn spec_wide_shr(a: i64, n: u32) -> i64 {
        a >> n
    }

    open spec fn spec_wide_bits() -> nat {
        64
    }

    open spec fn spec_less(a: i32, b: i32) -> bool {
        a < b
    }

    fn widen(self) -> (r: i64) {
        self as i64
    }

    fn narrow(w: i64) -> (r: i32) {
        if w < i32::MIN as i64 {
            i32::MIN
        } else if w > i32::MAX as i64 {
            i32::MAX
        } else {
            w as i32
        }
    }

    fn wide_zero() -> (r: i64) {
        0
    }

    fn wide_mul(a: i64, b: i64) -> (r: i64) {
        a.wrapping_mul(b)
    }

    fn wide_add(a: i64, b: i64) -> (r: i64) {
        a.wrapping_add(b)
    }

    fn wide_shr(a: i64, n: u32) -> (r: i64) {
        a >> n
    }

    fn is_less(a: i32, b: i32) -> (r: bool) {
        a < b
    }
}

impl BiquadIntSample for i64 {
    type Wide = i128;

    const MIN: Self = i64::MIN;
    const MAX: Self = i64::MAX;

    open spec fn spec_int(self) -> int {
        self as int
    }

    open spec fn spec_widen(self) -> i128 {
        self as i128
    }

    open spec fn spec_narrow(w: i128) -> i64 {
        clamp_int(w as int, i64::MIN as int, i64::MAX as int) as i64
    }

    open spec fn spec_wide_zero() -> i128 {
        0
    }

    open spec fn spec_wide_mul(a: i128, b: i128) -> i128 {
        vstd::wrapping::i128_specs::wrapping_mul(a, b)
    }

    open spec fn spec_wide_add(a: i128, b: i128) -> i128 {
        vstd::wrapping::i128_specs::wrapping_add(a, b)
    }

    open spec fn spec_wide_shr(a: i128, n: u32) -> i128 {
        a >> n
    }

    open spec fn spec_wide_bits() -> nat {
        128
    }

    open spec fn spec_less(a: i64, b: i64) -> bool {
        a < b
    }

    fn widen(self) -> (r: i128) {
        self as i128
    }

    fn narrow(w: i128) -> (r: i64) {
        if w < i64::MIN as i128 {
            i64::MIN
        } else if w > i64::MAX as i128 {
            i64::MAX
        } else {
            w as i64
        }
    }

    fn wide_zero() -> (r: i128) {
        0
    }

    fn wide_mul(a: i128, b: i128) -> (r: i128) {
        a.wrapping_mul(b)
    }

    fn wide_add(a: i128, b: i128) -> (r: i128) {
        a.wrapping_add(b)
    }

    fn wide_shr(a: i128, n: u32) -> (r: i128) {
        a >> n
    }

    fn is_less(a: i64, b: i64) -> (r: bool) {
        a < b
    }
}

/// Direct Form 1 state for [`BiquadInt`]: `[x1, x2, y1, y2]`.
#[derive(Clone, Copy, Debug, PartialEq, Eq)]
pub struct DirectForm1Int<T> {
    /// `[x1, x2, y1, y2]`.
    pub xy: [T; 4],
}

impl<T: Copy + Default> Default for DirectForm1Int<T> {
    fn default() -> (r: Self)
        ensures
            all_default(r.xy),
    {
        Self { xy: [T::default();4] }
    }
}

impl<T: Copy + Default> DirectForm1Int<T> {
    /// Create a new zeroed state.
    pub fn new() -> (r: Self)
        ensures
            all_default(r.xy),
    {
        Self::default()
    }

    /// Reset the state to zero.
    pub fn reset(&mut self)
        ensures
            all_default(final(self).xy),
    {
        self.xy = [T::default();4];
    }
}

/// One coefficient-times-sample product in the wide accumulator.
pub open spec fn wide_product<T: BiquadIntSample>(c: T, s: T) -> T::Wide {
    T::spec_wide_mul(c.spec_widen(), s.spec_widen())
}

/// The accumulator of [`BiquadInt::process_df1`]: the five products `b0*x0, b1*x1, b2*x2,
/// a1*y1, a2*y2` summed from zero with wrapping.
pub open spec fn biquad_int_acc<T: BiquadIntSample>(ba: [T; 5], xy: [T; 4], x0: T) -> T::Wide {
    let a1 = T::spec_wide_add(T::spec_wide_zero(), wide_product(ba[0], x0));
    let a2 = T::spec_wide_add(a1, wide_product(ba[1], xy[0]));
    let a3 = T::spec_wide_add(a2, wide_product(ba[2], xy[1]));
    let a4 = T::spec_wide_add(a3, wide_product(ba[3], xy[2]));
    T::spec_wide_add(a4, wide_product(ba[4], xy[3]))
}

/// The output of [`BiquadInt::process_df1`]: the accumulator shifted down by `SHIFT` and
/// saturated, plus the offset and saturated, then clamped to `[min, max]` (`min` first).
pub open spec fn biquad_int_output<T: BiquadIntSample>(
    ba: [T; 5],
    u: T,
    min: T,
    max: T,
    shift: u32,
    xy: [T; 4],
    x0: T,
) -> T {
    let scaled = T::spec_narrow(T::spec_wide_shr(biquad_int_acc(ba, xy, x0), shift));
    let y_raw = T::spec_narrow(T::spec_wide_add(scaled.spec_widen(), u.spec_widen()));
    if T::spec_less(y_raw, min) {
        min
    } else if T::spec_less(max, y_raw) {
        max
    } else {
        y_raw
    }
}

/// The exact weighted sum of a Direct Form 1 section: `b0` on the current input, `b1` and `b2`
/// on the previous inputs `xy[0]`, `xy[1]`, and `a1`, `a2` on the previous outputs `xy[2]`,
/// `xy[3]`.
pub open spec fn df1_weighted_sum(b: [int; 5], x0: int, xy: [int; 4]) -> int {
    b[0] * x0 + b[1] * xy[0] + b[2] * xy[1] + b[3] * xy[2] + b[4] * xy[3]
}

/// The sum of the magnitudes of the five products of [`df1_weighted_sum`].
pub open spec fn df1_magnitude(b: [int; 5], x0: int, xy: [int; 4]) -> int {
    crate::types::abs_int(b[0] * x0) + crate::types::abs_int(b[1] * xy[0])
        + crate::types::abs_int(b[2] * xy[1]) + crate::types::abs_int(b[3] * xy[2])
        + crate::types::abs_int(b[4] * xy[3])
}

proof fn lemma_signed_crop32(v: int)
    requires
        i32::MIN <= v <= i32::MAX,
    ensures
        vstd::wrapping::i32_specs::signed_crop(v) == v,
{
    let r = 0x1_0000_0000int;
    if v >= 0 {
        vstd::arithmetic::div_mod::lemma_small_mod(v as nat, r as nat);
    } else {
        vstd::arithmetic::div_mod::lemma_fundamental_div_mod_converse(v, r, -1, v + r);
    }
}

/// The integer section computes the Direct Form 1 recursion: when no sum wraps and nothing
/// saturates, the output is the exact weighted sum of the current input, the two previous
/// inputs and the two previous outputs (each with its own coefficient, [`df1_weighted_sum`]),
/// shifted down by `SHIFT` (rounding toward negative infinity), plus the offset. So `a1`
/// feeds back the last output and `a2` the one before: with only `b0` and `a1` set the section
/// is the one-pole recursion `y[n] = (b0 x[n] + a1 y[n-1]) >> SHIFT + u`.
pub proof fn lemma_biquad_int_i16_recursion(
    ba: [i16; 5],
    u: i16,
    min: i16,
    max: i16,
    shift: u32,
    xy: [i16; 4],
    x0: i16,
)
    requires
        shift < 32,
        df1_magnitude(
            [ba[0] as int, ba[1] as int, ba[2] as int, ba[3] as int, ba[4] as int],
            x0 as int,
            [xy[0] as int, xy[1] as int, xy[2] as int, xy[3] as int],
        ) <= i32::MAX,
        ({
            let q = (df1_weighted_sum(
                [ba[0] as int, ba[1] as int, ba[2] as int, ba[3] as int, ba[4] as int],
                x0 as int,
                [xy[0] as int, xy[1] as int, xy[2] as int, xy[3] as int],
            ) as i32) >> shift;
            &&& i16::MIN <= q <= i16::MAX
            &&& min <= q + u <= max
        }),
    ensures
        biquad_int_output(ba, u, min, max, shift, xy, x0) == (df1_weighted_sum(
            [ba[0] as int, ba[1] as int, ba[2] as int, ba[3] as int, ba[4] as int],
            x0 as int,
            [xy[0] as int, xy[1] as int, xy[2] as int, xy[3] as int],
        ) as i32 >> shift) + u,
{
    let p0 = ba[0] * x0;
    let p1 = ba[1] * xy[0];
    let p2 = ba[2] * xy[1];
    let p3 = ba[3] * xy[2];
    let p4 = ba[4] * xy[3];
    crate::types::lemma_mul_abs_bound(ba[0] as int, x0 as int, 0x8000);
    crate::types::lemma_mul_abs_bound(ba[1] as int, xy[0] as int, 0x8000);
    crate::types::lemma_mul_abs_bound(ba[2] as int, xy[1] as int, 0x8000);
    crate::types::lemma_mul_abs_bound(ba[3] as int, xy[2] as int, 0x8000);
    crate::types::lemma_mul_abs_bound(ba[4] as int, xy[3] as int, 0x8000);
    lemma_signed_crop32(p0);
    lemma_signed_crop32(p1);
    lemma_signed_crop32(p2);
    lemma_signed_crop32(p3);
    lemma_signed_crop32(p4);
    assert(wide_product(ba[0], x0) == p0);
    assert(wide_product(ba[1], xy[0]) == p1);
    assert(wide_product(ba[2], xy[1]) == p2);
    assert(wide_product(ba[3], xy[2]) == p3);
    assert(wide_product(ba[4], xy[3]) == p4);
    let acc = biquad_int_acc(ba, xy, x0);
    assert(acc == p0 + p1 + p2 + p3 + p4);
}

/// The same Direct Form 1 recursion for the `i32` section with its `i64` accumulator: when no
/// sum wraps and nothing saturates, the output is the exact weighted sum shifted down by
/// `SHIFT`, plus the offset.
pub proof fn lemma_biquad_int_i32_recursion(
    ba: [i32; 5],
    u: i32,
    min: i32,
    max: i32,
    shift: u32,
    xy: [i32; 4],
    x0: i32,
)
    requires
        shift < 32,
        df1_magnitude(
            [ba[0] as int, ba[1] as int, ba[2] as int, ba[3] as int, ba[4] as int],
            x0 as int,
            [xy[0] as int, xy[1] as int, xy[2] as int, xy[3] as int],
        ) <= i64::MAX,
        ({
            let q = (df1_weighted_sum(
                [ba[0] as int, ba[1] as int, ba[2] as int, ba[3] as int, ba[4] as int],
                x0 as int,
                [xy[0] as int, xy[1] as int, xy[2] as int, xy[3] as int],
            ) as i64) >> shift;
            &&& i32::MIN <= q <= i32::MAX
            &&& min <= q + u <= max
        }),
    ensures
        biquad_int_output(ba, u, min, max, shift, xy, x0) == (df1_weighted_sum(
            [ba[0] as int, ba[1] as int, ba[2] as int, ba[3] as int, ba[4] as int],
            x0 as int,
            [xy[0] as int, xy[1] as int, xy[2] as int, xy[3] as int],
        ) as i64 >> shift) + u,
{
    let p0 = ba[0] * x0;
    let p1 = ba[1] * xy[0];
    let p2 = ba[2] * xy[1];
    let p3 = ba[3] * xy[2];
    let p4 = ba[4] * xy[3];
    crate::types::lemma_mul_abs_bound(ba[0] as int, x0 as int, 0x8000_0000);
    crate::types::lemma_mul_abs_bound(ba[1] as int, xy[0] as int, 0x8000_0000);
    crate::types::lemma_mul_abs_bound(ba[2] as int, xy[1] as int, 0x8000_0000);
    crate::types::lemma_mul_abs_bound(ba[3] as int, xy[2] as int, 0x8000_0000);
    crate::types::lemma_mul_abs_bound(ba[4] as int, xy[3] as int, 0x8000_0000);
    lemma_signed_crop64(p0);
    lemma_signed_crop64(p1);
    lemma_signed_crop64(p2);
    lemma_signed_crop64(p3);
    lemma_signed_crop64(p4);
    assert(wide_product(ba[0], x0) == p0);
    assert(wide_product(ba[1], xy[0]) == p1);
    assert(wide_product(ba[2], xy[1]) == p2);
    assert(wide_product(ba[3], xy[2]) == p3);
    assert(wide_product(ba[4], xy[3]) == p4);
    let acc = biquad_int_acc(ba, xy, x0);
    assert(acc == p0 + p1 + p2 + p3 + p4);
}

/// The noise-shaped section accumulates the Direct Form 1 weighted sum: the coefficients
/// weight the current input, the previous inputs `xy[0]`, `xy[1]` and the previous outputs
/// `xy[2]`, `xy[3]` ([`df1_weighted_sum`]), plus the offset at the coefficient scale and the
/// carried remainder.
pub proof fn lemma_noise_shaped_weighted_sum(
    ba: [i32; 5],
    u: i32,
    shift: u32,
    xy: [i32; 4],
    err: i32,
    x0: i32,
)
    ensures
        noise_shaped_acc(ba, u, shift, xy, err, x0) == df1_weighted_sum(
            [ba[0] as int, ba[1] as int, ba[2] as int, ba[3] as int, ba[4] as int],
            x0 as int,
            [xy[0] as int, xy[1] as int, xy[2] as int, xy[3] as int],
        ) + ((u as i64) << shift) + err,
{
}

/// Fixed-point second-order section generic over the integer sample type.
///
/// Coefficients `ba = [b0, b1, b2, a1, a2]` are scaled by `2^SHIFT`, the recurrence runs in the
/// wider [`BiquadIntSample::Wide`] accumulator, and the output is saturated to `[min, max]`.
#[derive(Clone, Copy, Debug, PartialEq, Eq)]
pub struct BiquadInt<T: BiquadIntSample, const SHIFT: u32> {
    /// Fixed-point coefficients `[b0, b1, b2, a1, a2]`.
    pub ba: [T; 5],
    /// Summing-junction offset, in output units.
    pub u: T,
    /// Minimum saturation clamp.
    pub min: T,
    /// Maximum saturation clamp.
    pub max: T,
}

impl<T: BiquadIntSample, const SHIFT: u32> BiquadInt<T, SHIFT> {
    /// Create a new integer biquad configuration.
    pub fn new(ba: [T; 5], min: T, max: T, u: T) -> (r: Self)
        ensures
            r.ba == ba,
            r.min == min,
            r.max == max,
            r.u == u,
    {
        Self { ba, min, max, u }
    }

    /// Process a single sample through Direct Form 1.
    ///
    /// The shift must be below 32 and below the accumulator width.
    pub fn process_df1(&self, state: &mut DirectForm1Int<T>, x0: T) -> (y: T)
        requires
            SHIFT < 32,
            SHIFT < T::spec_wide_bits(),
        ensures
            y == biquad_int_output(self.ba, self.u, self.min, self.max, SHIFT, old(state).xy, x0),
            final(state).xy@ == seq![x0, old(state).xy[0], y, old(state).xy[2]],
    {
        let b0 = self.ba[0];
        let b1 = self.ba[1];
        let b2 = self.ba[2];
        let a1 = self.ba[3];
        let a2 = self.ba[4];
        let x1 = state.xy[0];
        let x2 = state.xy[1];
        let y1 = state.xy[2];
        let y2 = state.xy[3];

        let mut acc = T::wide_zero();
        acc = T::wide_add(acc, T::wide_mul(b0.widen(), x0.widen()));
        acc = T::wide_add(acc, T::wide_mul(b1.widen(), x1.widen()));
        acc = T::wide_add(acc, T::wide_mul(b2.widen(), x2.widen()));
        acc = T::wide_add(acc, T::wide_mul(a1.widen(), y1.widen()));
        acc = T::wide_add(acc, T::wide_mul(a2.widen(), y2.widen()));

        // Scale down, add the offset, then clamp to the configured output range.
        let scaled = T::narrow(T::wide_shr(acc, SHIFT));
        let y_raw = T::narrow(T::wide_add(scaled.widen(), self.u.widen()));
        let y0 = if T::is_less(y_raw, self.min) {
            self.min
        } else if T::is_less(self.max, y_raw) {
            self.max
        } else {
            y_raw
        };

        state.xy = [x0, x1, y0, y1];
        assert(state.xy@ =~= seq![x0, x1, y0, y1]);
        y0
    }
}


// ─────────────────────────────────────────────────────────────────────────────
// Biquad cascades over sample blocks
// ─────────────────────────────────────────────────────────────────────────────

/// The narrowing shift of a cascade: the fraction width less the coefficient headroom
/// `post_shift` (not below 0), at most 63.
pub open spec fn cascade_shift(frac: u32, post_shift: u8) -> u32 {
    let s: int = if frac >= post_shift { frac - post_shift } else { 0 };
    (if s < 63 { s } else { 63 }) as u32
}

fn cascade_shift_exec(frac: u32, post_shift: u8) -> (r: u32)
    ensures
        r == cascade_shift(frac, post_shift),
{
    let s = if frac >= post_shift as u32 {
        frac - post_shift as u32
    } else {
        0
    };
    if s < 63 {
        s
    } else {
        63
    }
}

/// Stage `st` of a Direct Form I cascade on input `v`:
/// `acc = b0 v + b1 x1 + b2 x2 + a1 y1 + a2 y2` (in that order), narrowed by `shift`. The result
/// is the stage state `[v, x1, y, y1]` written over `state` and the output `y`.
pub open spec fn df1_stage<T: MacSample>(
    coeffs: Seq<T>,
    state: Seq<T>,
    st: int,
    shift: u32,
    v: T,
) -> (Seq<T>, T) {
    let c = 5 * st;
    let o = 4 * st;
    let acc = T::spec_madd(
        T::spec_madd(
            T::spec_madd(
                T::spec_madd(T::spec_madd(T::spec_accum_zero(), v, coeffs[c]), state[o], coeffs[c + 1]),
                state[o + 1],
                coeffs[c + 2],
            ),
            state[o + 2],
            coeffs[c + 3],
        ),
        state[o + 3],
        coeffs[c + 4],
    );
    let y = T::spec_from_accum_shifted(acc, shift);
    (state.update(o, v).update(o + 1, state[o]).update(o + 2, y).update(o + 3, state[o + 2]), y)
}

/// The first `k` stages of a Direct Form I cascade on input `x`: `(state, output)`.
pub open spec fn df1_stages<T: MacSample>(
    coeffs: Seq<T>,
    state: Seq<T>,
    shift: u32,
    x: T,
    k: nat,
) -> (Seq<T>, T)
    decreases k,
{
    if k == 0 {
        (state, x)
    } else {
        let prev = df1_stages(coeffs, state, shift, x, (k - 1) as nat);
        df1_stage(coeffs, prev.0, k - 1, shift, prev.1)
    }
}

/// Stage `st` of a transposed Direct Form II cascade on input `v`: `y = b0 v + s1`,
/// `s1' = b1 v + a1 y + s2`, `s2' = b2 v + a2 y`, each sum in the accumulator (the delays widened
/// by `shift`) and narrowed by `shift`. The result is the stage state `[s1', s2']` written over
/// `state` and the output `y`.
pub open spec fn df2t_stage<T: MacSample>(
    coeffs: Seq<T>,
    state: Seq<T>,
    st: int,
    shift: u32,
    v: T,
) -> (Seq<T>, T) {
    let c = 5 * st;
    let o = 2 * st;
    let zero = T::spec_accum_zero();
    let y = T::spec_from_accum_shifted(
        T::spec_accum_add(T::spec_madd(zero, v, coeffs[c]), T::spec_accum_from_shifted(state[o], shift)),
        shift,
    );
    let s1 = T::spec_from_accum_shifted(
        T::spec_accum_add(
            T::spec_madd(T::spec_madd(zero, v, coeffs[c + 1]), y, coeffs[c + 3]),
            T::spec_accum_from_shifted(state[o + 1], shift),
        ),
        shift,
    );
    let s2 = T::spec_from_accum_shifted(
        T::spec_madd(T::spec_madd(zero, v, coeffs[c + 2]), y, coeffs[c + 4]),
        shift,
    );
    (state.update(o, s1).update(o + 1, s2), y)
}

/// The first `k` stages of a transposed Direct Form II cascade on input `x`: `(state, output)`.
pub open spec fn df2t_stages<T: MacSample>(
    coeffs: Seq<T>,
    state: Seq<T>,
    shift: u32,
    x: T,
    k: nat,
) -> (Seq<T>, T)
    decreases k,
{
    if k == 0 {
        (state, x)
    } else {
        let prev = df2t_stages(coeffs, state, shift, x, (k - 1) as nat);
        df2t_stage(coeffs, prev.0, k - 1, shift, prev.1)
    }
}

/// The first `n` samples of `src` through a cascade of `stages` stages: `(state, outputs)`.
/// `df2t` selects the transposed Direct Form II recurrence, else Direct Form I.
pub open spec fn cascade_run<T: MacSample>(
    df2t: bool,
    coeffs: Seq<T>,
    state: Seq<T>,
    stages: nat,
    shift: u32,
    src: Seq<T>,
    n: nat,
) -> (Seq<T>, Seq<T>)
    decreases n,
{
    if n == 0 {
        (state, Seq::empty())
    } else {
        let prev = cascade_run(df2t, coeffs, state, stages, shift, src, (n - 1) as nat);
        let step = if df2t {
            df2t_stages(coeffs, prev.0, shift, src[n - 1], stages)
        } else {
            df1_stages(coeffs, prev.0, shift, src[n - 1], stages)
        };
        (step.0, prev.1.push(step.1))
    }
}

proof fn lemma_stages_len<T: MacSample>(
    df2t: bool,
    coeffs: Seq<T>,
    state: Seq<T>,
    shift: u32,
    x: T,
    k: nat,
)
    requires
        df2t ==> state.len() >= 2 * k,
        !df2t ==> state.len() >= 4 * k,
    ensures
        df2t ==> df2t_stages(coeffs, state, shift, x, k).0.len() == state.len(),
        !df2t ==> df1_stages(coeffs, state, shift, x, k).0.len() == state.len(),
    decreases k,
{
    if k > 0 {
        lemma_stages_len(df2t, coeffs, state, shift, x, (k - 1) as nat);
    }
}

proof fn lemma_cascade_run_len<T: MacSample>(
    df2t: bool,
    coeffs: Seq<T>,
    state: Seq<T>,
    stages: nat,
    shift: u32,
    src: Seq<T>,
    n: nat,
)
    requires
        n > 0 ==> (df2t ==> state.len() >= 2 * stages) && (!df2t ==> state.len() >= 4 * stages),
    ensures
        cascade_run(df2t, coeffs, state, stages, shift, src, n).0.len() == state.len(),
        cascade_run(df2t, coeffs, state, stages, shift, src, n).1.len() == n,
    decreases n,
{
    if n > 0 {
        lemma_cascade_run_len(df2t, coeffs, state, stages, shift, src, (n - 1) as nat);
        let prev = cascade_run(df2t, coeffs, state, stages, shift, src, (n - 1) as nat);
        lemma_stages_len(df2t, coeffs, prev.0, shift, src[n - 1], stages);
    }
}

/// `s` with every element set to the zero sample.
fn zero_fill<T: DspSample>(s: &mut [T])
    ensures
        final(s)@ == Seq::new(old(s)@.len(), |i: int| T::spec_zero()),
{
    let mut i: usize = 0;
    let z = T::zero();
    while i < s.len()
        invariant
            i <= s@.len(),
            s@.len() == old(s)@.len(),
            z == T::spec_zero(),
            forall|j: int| 0 <= j < i ==> s@[j] == T::spec_zero(),
        decreases s@.len() - i,
    {
        s[i] = z;
        i = i + 1;
    }
    assert(s@ =~= Seq::new(old(s)@.len(), |i: int| T::spec_zero()));
}

/// Instance structure for the biquad cascade, Direct Form I, generic over the sample width.
///
/// Coefficients are `5 * num_stages` values `[b0, b1, b2, a1, a2]` per stage; state is
/// `4 * num_stages` values `[x[n-1], x[n-2], y[n-1], y[n-2]]` per stage. `post_shift` gives extra
/// coefficient headroom and the MAC is narrowed by `FRAC - post_shift`.
pub struct BiquadCascadeInstance<'a, T: MacSample> {
    /// Number of biquad stages.
    pub num_stages: u8,
    /// Output right-shift.
    pub post_shift: u8,
    /// Filter coefficients.
    pub coeffs: &'a [T],
    /// Filter state buffer.
    pub state: &'a mut [T],
}

impl<'a, T: MacSample> BiquadCascadeInstance<'a, T> {
    /// Initializes the instance with no coefficient headroom (`post_shift = 0`) and a zero state.
    pub fn init(num_stages: u8, coeffs: &'a [T], state: &'a mut [T]) -> (r: Self)
        ensures
            r.num_stages == num_stages,
            r.post_shift == 0,
            r.coeffs@ == coeffs@,
            r.state@ == Seq::new(old(state)@.len(), |i: int| T::spec_zero()),
    {
        zero_fill(state);
        Self { num_stages, post_shift: 0, coeffs, state }
    }

    /// Initializes the instance with a coefficient `post_shift` (fixed-point headroom) and a zero
    /// state.
    pub fn with_post_shift(num_stages: u8, coeffs: &'a [T], state: &'a mut [T], post_shift: u8) -> (r:
        Self)
        ensures
            r.num_stages == num_stages,
            r.post_shift == post_shift,
            r.coeffs@ == coeffs@,
            r.state@ == Seq::new(old(state)@.len(), |i: int| T::spec_zero()),
    {
        zero_fill(state);
        Self { num_stages, post_shift, coeffs, state }
    }
}

/// Biquad cascade, Direct Form I, generic over the sample width: each of the first
/// `min(src.len(), dst.len())` samples runs through every stage in turn; the rest of `dst` is
/// left alone.
pub fn biquad_cascade_df1<T: MacSample>(
    instance: &mut BiquadCascadeInstance<'_, T>,
    src: &[T],
    dst: &mut [T],
)
    requires
        src@.len() > 0 && old(dst)@.len() > 0 ==> old(instance).coeffs@.len() >= 5 * old(
            instance,
        ).num_stages && old(instance).state@.len() >= 4 * old(instance).num_stages,
    ensures
        ({
            let n = if src@.len() < old(dst)@.len() { src@.len() } else { old(dst)@.len() };
            let run = cascade_run(
                false,
                old(instance).coeffs@,
                old(instance).state@,
                old(instance).num_stages as nat,
                cascade_shift(T::spec_frac(), old(instance).post_shift),
                src@,
                n,
            );
            &&& final(instance).num_stages == old(instance).num_stages
            &&& final(instance).post_shift == old(instance).post_shift
            &&& final(instance).coeffs@ == old(instance).coeffs@
            &&& final(instance).state@ == run.0
            &&& final(dst)@ == run.1 + old(dst)@.skip(n as int)
        }),
{
    let num_stages = instance.num_stages as usize;
    let block = if src.len() < dst.len() {
        src.len()
    } else {
        dst.len()
    };
    let shift = cascade_shift_exec(T::frac(), instance.post_shift);
    let ghost c0 = instance.coeffs@;
    let ghost s0 = instance.state@;
    let ghost d0 = dst@;
    let ghost stages = num_stages as nat;
    let ghost ps = instance.post_shift;
    let mut i: usize = 0;
    while i < block
        invariant
            i <= block,
            block == (if src@.len() < d0.len() { src@.len() } else { d0.len() }),
            block > 0 ==> c0.len() >= 5 * stages && s0.len() >= 4 * stages,
            num_stages == stages,
            stages <= 255,
            instance.num_stages == stages,
            instance.post_shift == ps,
            instance.coeffs@ == c0,
            shift == cascade_shift(T::spec_frac(), ps),
            shift <= 63,
            dst@.len() == d0.len(),
            ({
                let run = cascade_run(false, c0, s0, stages, shift, src@, i as nat);
                &&& instance.state@ == run.0
                &&& dst@ == run.1 + d0.skip(i as int)
            }),
        decreases block - i,
    {
        proof {
            lemma_cascade_run_len(false, c0, s0, stages, shift, src@, i as nat);
        }
        let ghost prev = cascade_run(false, c0, s0, stages, shift, src@, i as nat);
        let mut in_val = src[i];
        let mut stage: usize = 0;
        while stage < num_stages
            invariant
                stage <= num_stages,
                num_stages == stages,
                stages <= 255,
                c0.len() >= 5 * stages,
                prev.0.len() >= 4 * stages,
                instance.num_stages == stages,
                instance.post_shift == ps,
                instance.coeffs@ == c0,
                shift <= 63,
                (instance.state@, in_val) == df1_stages(c0, prev.0, shift, src@[i as int], stage as nat),
            decreases num_stages - stage,
        {
            proof {
                lemma_stages_len(false, c0, prev.0, shift, src@[i as int], stage as nat);
            }
            let c = stage * 5;
            let o = stage * 4;
            let b0 = instance.coeffs[c];
            let b1 = instance.coeffs[c + 1];
            let b2 = instance.coeffs[c + 2];
            let a1 = instance.coeffs[c + 3];
            let a2 = instance.coeffs[c + 4];
            let x1 = instance.state[o];
            let x2 = instance.state[o + 1];
            let y1 = instance.state[o + 2];
            let y2 = instance.state[o + 3];
            let acc = T::madd(
                T::madd(
                    T::madd(T::madd(T::madd(T::accum_zero(), in_val, b0), x1, b1), x2, b2),
                    y1,
                    a1,
                ),
                y2,
                a2,
            );
            let out_val = T::from_accum_shifted(acc, shift);
            let ghost before = instance.state@;
            instance.state[o + 1] = x1;
            instance.state[o] = in_val;
            instance.state[o + 3] = y1;
            instance.state[o + 2] = out_val;
            proof {
                assert(instance.state@ =~= before.update(o as int, in_val).update(o + 1, x1).update(
                    o + 2,
                    out_val,
                ).update(o + 3, y1));
            }
            in_val = out_val;
            stage = stage + 1;
        }
        dst[i] = in_val;
        proof {
            assert(dst@ =~= prev.1.push(in_val) + d0.skip(i + 1));
        }
        i = i + 1;
    }
}

/// Instance structure for the biquad cascade, transposed Direct Form II, generic over the sample
/// width.
///
/// Same `[b0, b1, b2, a1, a2]` and `post_shift` conventions as [`BiquadCascadeInstance`]; state is
/// two delays per stage (`[s1, s2, ...]`), which is better-conditioned for high-Q poles.
pub struct BiquadCascadeDf2tInstance<'a, T: MacSample> {
    /// Number of biquad stages.
    pub num_stages: u8,
    /// Output right-shift.
    pub post_shift: u8,
    /// Filter coefficients.
    pub coeffs: &'a [T],
    /// Filter state buffer.
    pub state: &'a mut [T],
}

impl<'a, T: MacSample> BiquadCascadeDf2tInstance<'a, T> {
    /// Initializes the instance with no coefficient headroom (`post_shift = 0`) and a zero state.
    pub fn init(num_stages: u8, coeffs: &'a [T], state: &'a mut [T]) -> (r: Self)
        ensures
            r.num_stages == num_stages,
            r.post_shift == 0,
            r.coeffs@ == coeffs@,
            r.state@ == Seq::new(old(state)@.len(), |i: int| T::spec_zero()),
    {
        zero_fill(state);
        Self { num_stages, post_shift: 0, coeffs, state }
    }

    /// Initializes the instance with a coefficient `post_shift` (fixed-point headroom) and a zero
    /// state.
    pub fn with_post_shift(num_stages: u8, coeffs: &'a [T], state: &'a mut [T], post_shift: u8) -> (r:
        Self)
        ensures
            r.num_stages == num_stages,
            r.post_shift == post_shift,
            r.coeffs@ == coeffs@,
            r.state@ == Seq::new(old(state)@.len(), |i: int| T::spec_zero()),
    {
        zero_fill(state);
        Self { num_stages, post_shift, coeffs, state }
    }
}

/// Biquad cascade, transposed Direct Form II, generic over the sample width: each of the first
/// `min(src.len(), dst.len())` samples runs through every stage in turn; the rest of `dst` is
/// left alone.
pub fn biquad_cascade_df2t<T: MacSample>(
    instance: &mut BiquadCascadeDf2tInstance<'_, T>,
    src: &[T],
    dst: &mut [T],
)
    requires
        src@.len() > 0 && old(dst)@.len() > 0 ==> old(instance).coeffs@.len() >= 5 * old(
            instance,
        ).num_stages && old(instance).state@.len() >= 2 * old(instance).num_stages,
    ensures
        ({
            let n = if src@.len() < old(dst)@.len() { src@.len() } else { old(dst)@.len() };
            let run = cascade_run(
                true,
                old(instance).coeffs@,
                old(instance).state@,
                old(instance).num_stages as nat,
                cascade_shift(T::spec_frac(), old(instance).post_shift),
                src@,
                n,
            );
            &&& final(instance).num_stages == old(instance).num_stages
            &&& final(instance).post_shift == old(instance).post_shift
            &&& final(instance).coeffs@ == old(instance).coeffs@
            &&& final(instance).state@ == run.0
            &&& final(dst)@ == run.1 + old(dst)@.skip(n as int)
        }),
{
    let num_stages = instance.num_stages as usize;
    let block = if src.len() < dst.len() {
        src.len()
    } else {
        dst.len()
    };
    let frac = T::frac();
    let shift = cascade_shift_exec(frac, instance.post_shift);
    let ghost c0 = instance.coeffs@;
    let ghost s0 = instance.state@;
    let ghost d0 = dst@;
    let ghost stages = num_stages as nat;
    let ghost ps = instance.post_shift;
    let mut i: usize = 0;
    while i < block
        invariant
            i <= block,
            block == (if src@.len() < d0.len() { src@.len() } else { d0.len() }),
            block > 0 ==> c0.len() >= 5 * stages && s0.len() >= 2 * stages,
            num_stages == stages,
            stages <= 255,
            instance.num_stages == stages,
            instance.post_shift == ps,
            instance.coeffs@ == c0,
            frac == T::spec_frac(),
            frac <= 63,
            shift == cascade_shift(frac, ps),
            shift <= frac,
            dst@.len() == d0.len(),
            ({
                let run = cascade_run(true, c0, s0, stages, shift, src@, i as nat);
                &&& instance.state@ == run.0
                &&& dst@ == run.1 + d0.skip(i as int)
            }),
        decreases block - i,
    {
        proof {
            lemma_cascade_run_len(true, c0, s0, stages, shift, src@, i as nat);
        }
        let ghost prev = cascade_run(true, c0, s0, stages, shift, src@, i as nat);
        let mut in_val = src[i];
        let mut stage: usize = 0;
        while stage < num_stages
            invariant
                stage <= num_stages,
                num_stages == stages,
                stages <= 255,
                c0.len() >= 5 * stages,
                prev.0.len() >= 2 * stages,
                instance.num_stages == stages,
                instance.post_shift == ps,
                instance.coeffs@ == c0,
                frac == T::spec_frac(),
                shift <= frac,
                frac <= 63,
                (instance.state@, in_val) == df2t_stages(c0, prev.0, shift, src@[i as int], stage as nat),
            decreases num_stages - stage,
        {
            proof {
                lemma_stages_len(true, c0, prev.0, shift, src@[i as int], stage as nat);
            }
            let c = stage * 5;
            let o = stage * 2;
            let b0 = instance.coeffs[c];
            let b1 = instance.coeffs[c + 1];
            let b2 = instance.coeffs[c + 2];
            let a1 = instance.coeffs[c + 3];
            let a2 = instance.coeffs[c + 4];
            let s1 = instance.state[o];
            let s2 = instance.state[o + 1];
            let y_acc = T::accum_add(
                T::madd(T::accum_zero(), in_val, b0),
                T::accum_from_shifted(s1, shift),
            );
            let y = T::from_accum_shifted(y_acc, shift);
            let s1_acc = T::accum_add(
                T::madd(T::madd(T::accum_zero(), in_val, b1), y, a1),
                T::accum_from_shifted(s2, shift),
            );
            let s1_new = T::from_accum_shifted(s1_acc, shift);
            let s2_acc = T::madd(T::madd(T::accum_zero(), in_val, b2), y, a2);
            let s2_new = T::from_accum_shifted(s2_acc, shift);
            let ghost before = instance.state@;
            instance.state[o] = s1_new;
            instance.state[o + 1] = s2_new;
            proof {
                assert(instance.state@ =~= before.update(o as int, s1_new).update(o + 1, s2_new));
            }
            in_val = y;
            stage = stage + 1;
        }
        dst[i] = in_val;
        proof {
            assert(dst@ =~= prev.1.push(in_val) + d0.skip(i + 1));
        }
        i = i + 1;
    }
}

} // verus!
