//! LMS / NLMS adaptive filters.
use vstd::prelude::*;

use crate::types::{clamp_int, q15, saturate_i16, DspSample, MacSample};

verus! {

/// Scalar algebra for the adaptive filters, whose coefficient updates differ between sample
/// formats. The [`LmsInstance`]/[`NlmsInstance`] stages are generic over it; coefficients have
/// the sample type itself.
pub trait AdaptiveSample: MacSample {
    /// The product `x·y` at sample scale, kept wide.
    spec fn spec_mul_high(x: Self, y: Self) -> Self::Accum;

    /// Leaky-LMS retention factor `keep` for `w ← keep·w + alpha·x`.
    spec fn spec_lms_keep(leak: Self) -> Self::Accum;

    /// LMS step `2·μ·e`.
    spec fn spec_lms_alpha(mu: Self, e: Self) -> Self::Accum;

    /// One LMS coefficient update: `w ← keep·w + alpha·x`.
    spec fn spec_lms_apply(w: Self, x: Self, alpha: Self::Accum, keep: Self::Accum) -> Self;

    /// NLMS power denominator seed from `eps`.
    spec fn spec_nlms_power_seed(eps: Self) -> Self::Accum;

    /// NLMS step `μ·e / power`.
    spec fn spec_nlms_alpha(mu: Self, e: Self, power: Self::Accum) -> Self::Accum;

    /// One NLMS coefficient update: `w ← w + alpha·x`.
    spec fn spec_nlms_apply(w: Self, x: Self, alpha: Self::Accum) -> Self;

    /// `alpha` and `keep` are in the range an LMS update accepts.
    spec fn lms_update_ok(alpha: Self::Accum, keep: Self::Accum) -> bool;

    /// `power` can divide an NLMS step.
    spec fn power_ok(power: Self::Accum) -> bool;

    /// `alpha` is in the range an NLMS update accepts.
    spec fn nlms_update_ok(alpha: Self::Accum) -> bool;

    /// Every LMS step and retention factor is accepted by the update.
    proof fn lemma_lms_update_ok(mu: Self, e: Self, leak: Self)
        ensures
            Self::lms_update_ok(Self::spec_lms_alpha(mu, e), Self::spec_lms_keep(leak)),
    ;

    /// The seed is a usable power, and adding a squared sample keeps it usable.
    proof fn lemma_power_ok(eps: Self, power: Self::Accum, x: Self)
        ensures
            Self::power_ok(Self::spec_nlms_power_seed(eps)),
            Self::power_ok(power) ==> Self::power_ok(
                Self::spec_accum_add(power, Self::spec_mul_high(x, x)),
            ),
    ;

    /// Every NLMS step taken with a usable power is accepted by the update.
    proof fn lemma_nlms_update_ok(mu: Self, e: Self, power: Self::Accum)
        requires
            Self::power_ok(power),
        ensures
            Self::nlms_update_ok(Self::spec_nlms_alpha(mu, e, power)),
    ;

    /// The product `x·y` at sample scale, kept wide.
    fn mul_high(x: Self, y: Self) -> (r: Self::Accum)
        ensures
            r == Self::spec_mul_high(x, y),
    ;

    /// Leaky-LMS retention factor `keep` for `w ← keep·w + alpha·x`.
    fn lms_keep(leak: Self) -> (r: Self::Accum)
        ensures
            r == Self::spec_lms_keep(leak),
    ;

    /// LMS step `2·μ·e`.
    fn lms_alpha(mu: Self, e: Self) -> (r: Self::Accum)
        ensures
            r == Self::spec_lms_alpha(mu, e),
    ;

    /// One LMS coefficient update: `w ← keep·w + alpha·x`.
    fn lms_apply(w: Self, x: Self, alpha: Self::Accum, keep: Self::Accum) -> (r: Self)
        requires
            Self::lms_update_ok(alpha, keep),
        ensures
            r == Self::spec_lms_apply(w, x, alpha, keep),
    ;

    /// NLMS power denominator seed from `eps`.
    fn nlms_power_seed(eps: Self) -> (r: Self::Accum)
        ensures
            r == Self::spec_nlms_power_seed(eps),
    ;

    /// NLMS step `μ·e / power`.
    fn nlms_alpha(mu: Self, e: Self, power: Self::Accum) -> (r: Self::Accum)
        requires
            Self::power_ok(power),
        ensures
            r == Self::spec_nlms_alpha(mu, e, power),
    ;

    /// One NLMS coefficient update: `w ← w + alpha·x`.
    fn nlms_apply(w: Self, x: Self, alpha: Self::Accum) -> (r: Self)
        requires
            Self::nlms_update_ok(alpha),
        ensures
            r == Self::spec_nlms_apply(w, x, alpha),
    ;
}


/// `a / b` rounded toward zero.
pub open spec fn trunc_div(a: int, b: int) -> int {
    let m = crate::types::abs_int(a) / crate::types::abs_int(b);
    if (a < 0) != (b < 0) {
        -m
    } else {
        m
    }
}


fn trunc_div_i64(a: i64, b: i64) -> (r: i64)
    requires
        b > 0,
        -0x4000_0000_0000_0000 <= a <= 0x4000_0000_0000_0000,
    ensures
        r == trunc_div(a as int, b as int),
{
    let ua: u64 = if a < 0 { (-a) as u64 } else { a as u64 };
    let m: u64 = ua / (b as u64);
    assert(m <= ua) by (nonlinear_arith)
        requires b >= 1, m == ua / (b as u64);
    if a < 0 {
        -(m as i64)
    } else {
        m as i64
    }
}

/// Q1.15 adaptive steps, in the `i64` accumulator of [`MacSample`].
impl AdaptiveSample for q15 {
    open spec fn spec_mul_high(x: q15, y: q15) -> i64 {
        ((x.0 * y.0) / 0x8000) as i64
    }

    /// `32767 - max(leak, 0)`.
    open spec fn spec_lms_keep(leak: q15) -> i64 {
        (0x7fff - if leak.0 < 0 { 0 } else { leak.0 as int }) as i64
    }

    /// `(2 μ e) >> 15`.
    open spec fn spec_lms_alpha(mu: q15, e: q15) -> i64 {
        ((2 * mu.0 * e.0) / 0x8000) as i64
    }

    /// `((keep w) >> 15) + ((alpha x) >> 15)`, saturated.
    open spec fn spec_lms_apply(w: q15, x: q15, alpha: i64, keep: i64) -> q15 {
        q15(
            clamp_int(
                (keep * w.0) / 0x8000 + (alpha * x.0) / 0x8000,
                i16::MIN as int,
                i16::MAX as int,
            ) as i16,
        )
    }

    /// `max(eps, 1)`: fixed point floors the seed at one LSB.
    open spec fn spec_nlms_power_seed(eps: q15) -> i64 {
        if eps.0 < 1 {
            1
        } else {
            eps.0 as i64
        }
    }

    /// `(μ e) / power`, rounded toward zero.
    open spec fn spec_nlms_alpha(mu: q15, e: q15, power: i64) -> i64 {
        trunc_div(mu.0 * e.0, power as int) as i64
    }

    /// `w + ((alpha x) >> 15)`, saturated.
    open spec fn spec_nlms_apply(w: q15, x: q15, alpha: i64) -> q15 {
        q15(clamp_int(w.0 + (alpha * x.0) / 0x8000, i16::MIN as int, i16::MAX as int) as i16)
    }

    open spec fn lms_update_ok(alpha: i64, keep: i64) -> bool {
        -0x1_0000 <= alpha <= 0x1_0000 && 0 <= keep <= 0x7fff
    }

    open spec fn power_ok(power: i64) -> bool {
        power >= 1
    }

    open spec fn nlms_update_ok(alpha: i64) -> bool {
        -0x4000_0000 <= alpha <= 0x4000_0000
    }

    proof fn lemma_lms_update_ok(mu: q15, e: q15, leak: q15) {
        let t = 2 * mu.0 * e.0;
        assert(-0x8000_0000 <= t <= 0x8000_0000) by (nonlinear_arith)
            requires
                t == 2 * mu.0 * e.0,
                -0x8000 <= mu.0 < 0x8000,
                -0x8000 <= e.0 < 0x8000,
        ;
        assert(-0x1_0000 <= t / 0x8000 <= 0x1_0000) by (nonlinear_arith)
            requires -0x8000_0000 <= t <= 0x8000_0000;
    }

    proof fn lemma_power_ok(eps: q15, power: i64, x: q15) {
        let sq = x.0 * x.0;
        assert(0 <= sq / 0x8000 <= 0x8000) by (nonlinear_arith)
            requires
                sq == x.0 * x.0,
                -0x8000 <= x.0 < 0x8000,
        ;
    }

    proof fn lemma_nlms_update_ok(mu: q15, e: q15, power: i64) {
        crate::types::lemma_mul_abs_bound(mu.0 as int, e.0 as int, 0x8000);
        let a = mu.0 * e.0;
        let m = crate::types::abs_int(a) / crate::types::abs_int(power as int);
        assert(m <= crate::types::abs_int(a)) by (nonlinear_arith)
            requires
                power >= 1,
                crate::types::abs_int(a) >= 0,
                m == crate::types::abs_int(a) / crate::types::abs_int(power as int),
        ;
    }

    fn mul_high(x: q15, y: q15) -> (r: i64) {
        proof {
            crate::types::lemma_mul_abs_bound(x.0 as int, y.0 as int, 0x8000);
            crate::types::lemma_shr_is_floor_div();
        }
        (x.0 as i64 * y.0 as i64) >> 15u64
    }

    fn lms_keep(leak: q15) -> (r: i64) {
        32767i64 - if leak.0 < 0 {
            0i64
        } else {
            leak.0 as i64
        }
    }

    fn lms_alpha(mu: q15, e: q15) -> (r: i64) {
        proof {
            crate::types::lemma_mul_abs_bound(mu.0 as int, e.0 as int, 0x8000);
            crate::types::lemma_shr_is_floor_div();
        }
        let p: i64 = mu.0 as i64 * e.0 as i64;
        assert(2 * p == 2 * mu.0 * e.0) by (nonlinear_arith)
            requires p == mu.0 * e.0;
        (2 * p) >> 15u64
    }

    fn lms_apply(w: q15, x: q15, alpha: i64, keep: i64) -> (r: q15) {
        proof {
            crate::types::lemma_mul_abs_bound(keep as int, w.0 as int, 0x8000);
            crate::types::lemma_mul_abs_bound(alpha as int, x.0 as int, 0x1_0001);
            crate::types::lemma_shr_is_floor_div();
        }
        let leaked = (keep * w.0 as i64) >> 15u64;
        let upd = leaked + ((alpha * x.0 as i64) >> 15u64);
        q15(saturate_i16(upd))
    }

    fn nlms_power_seed(eps: q15) -> (r: i64) {
        if eps.0 < 1 {
            1
        } else {
            eps.0 as i64
        }
    }

    fn nlms_alpha(mu: q15, e: q15, power: i64) -> (r: i64) {
        proof {
            crate::types::lemma_mul_abs_bound(mu.0 as int, e.0 as int, 0x8000);
            let a = mu.0 * e.0;
            let m = crate::types::abs_int(a) / crate::types::abs_int(power as int);
            assert(m <= crate::types::abs_int(a)) by (nonlinear_arith)
                requires
                    power >= 1,
                    crate::types::abs_int(a) >= 0,
                    m == crate::types::abs_int(a) / crate::types::abs_int(power as int),
            ;
        }
        trunc_div_i64(mu.0 as i64 * e.0 as i64, power)
    }

    fn nlms_apply(w: q15, x: q15, alpha: i64) -> (r: q15) {
        proof {
            crate::types::lemma_mul_abs_bound(alpha as int, x.0 as int, 0x4000_0001);
            crate::types::lemma_shr_is_floor_div();
        }
        let upd = w.0 as i64 + ((alpha * x.0 as i64) >> 15u64);
        q15(saturate_i16(upd))
    }
}


// ─────────────────────────────────────────────────────────────────────────────
// The LMS / NLMS recurrences
// ─────────────────────────────────────────────────────────────────────────────

/// The number of samples a block call processes: the shortest of its four buffers.
pub open spec fn block_len(a: nat, b: nat, c: nat, d: nat) -> nat {
    let ab = if a < b { a } else { b };
    let cd = if c < d { c } else { d };
    if ab < cd {
        ab
    } else {
        cd
    }
}

fn block_len_exec(a: usize, b: usize, c: usize, d: usize) -> (r: usize)
    ensures
        r == block_len(a as nat, b as nat, c as nat, d as nat),
{
    let ab = if a < b { a } else { b };
    let cd = if c < d { c } else { d };
    if ab < cd {
        ab
    } else {
        cd
    }
}

/// The delay line after pushing `x`: `x` in front, the first `taps - 1` entries moved down one
/// place, the entries past the taps untouched.
pub open spec fn push_state<T>(state: Seq<T>, taps: int, x: T) -> Seq<T> {
    Seq::new(
        state.len(),
        |k: int|
            if k == 0 {
                x
            } else if k < taps {
                state[k - 1]
            } else {
                state[k]
            },
    )
}

/// `Σ state[k]·coeffs[k]` over the first `n` taps, accumulated in order.
pub open spec fn weighted_sum<T: AdaptiveSample>(state: Seq<T>, coeffs: Seq<T>, n: nat) -> T::Accum
    decreases n,
{
    if n == 0 {
        T::spec_accum_zero()
    } else {
        T::spec_madd(weighted_sum(state, coeffs, (n - 1) as nat), state[n - 1], coeffs[n - 1])
    }
}

/// `seed + Σ state[k]²` over the first `n` taps, accumulated in order.
pub open spec fn nlms_power<T: AdaptiveSample>(seed: T::Accum, state: Seq<T>, n: nat) -> T::Accum
    decreases n,
{
    if n == 0 {
        seed
    } else {
        T::spec_accum_add(
            nlms_power(seed, state, (n - 1) as nat),
            T::spec_mul_high(state[n - 1], state[n - 1]),
        )
    }
}

/// The coefficients after an LMS update of the first `taps` of them.
pub open spec fn lms_coeffs<T: AdaptiveSample>(
    coeffs: Seq<T>,
    state: Seq<T>,
    taps: int,
    alpha: T::Accum,
    keep: T::Accum,
) -> Seq<T> {
    Seq::new(
        coeffs.len(),
        |k: int|
            if k < taps {
                T::spec_lms_apply(coeffs[k], state[k], alpha, keep)
            } else {
                coeffs[k]
            },
    )
}

/// The coefficients after an NLMS update of the first `taps` of them.
pub open spec fn nlms_coeffs<T: AdaptiveSample>(
    coeffs: Seq<T>,
    state: Seq<T>,
    taps: int,
    alpha: T::Accum,
) -> Seq<T> {
    Seq::new(
        coeffs.len(),
        |k: int|
            if k < taps {
                T::spec_nlms_apply(coeffs[k], state[k], alpha)
            } else {
                coeffs[k]
            },
    )
}

/// One LMS sample: push `x`, filter `y = Σ w·x`, error `e = r - y`, then
/// `w ← keep·w + 2 μ e x`. The result is `(state, coeffs, y, e)`.
pub open spec fn lms_sample<T: AdaptiveSample>(
    state: Seq<T>,
    coeffs: Seq<T>,
    taps: int,
    mu: T,
    keep: T::Accum,
    x: T,
    r: T,
) -> (Seq<T>, Seq<T>, T, T) {
    let s = push_state(state, taps, x);
    let y = T::spec_from_accum(weighted_sum(s, coeffs, taps as nat));
    let e = r.spec_sat_sub(y);
    (s, lms_coeffs(coeffs, s, taps, T::spec_lms_alpha(mu, e), keep), y, e)
}

/// The first `n` LMS samples of `src` against `refs`: `(state, coeffs, outputs, errors)`.
pub open spec fn lms_run<T: AdaptiveSample>(
    state: Seq<T>,
    coeffs: Seq<T>,
    taps: int,
    mu: T,
    keep: T::Accum,
    src: Seq<T>,
    refs: Seq<T>,
    n: nat,
) -> (Seq<T>, Seq<T>, Seq<T>, Seq<T>)
    decreases n,
{
    if n == 0 {
        (state, coeffs, Seq::empty(), Seq::empty())
    } else {
        let prev = lms_run(state, coeffs, taps, mu, keep, src, refs, (n - 1) as nat);
        let step = lms_sample(prev.0, prev.1, taps, mu, keep, src[n - 1], refs[n - 1]);
        (step.0, step.1, prev.2.push(step.2), prev.3.push(step.3))
    }
}

/// One NLMS sample: push `x`, filter `y = Σ w·x`, error `e = r - y`, power
/// `p = eps + Σ x²`, then `w ← w + μ e x / p`. The result is `(state, coeffs, y, e)`.
pub open spec fn nlms_sample<T: AdaptiveSample>(
    state: Seq<T>,
    coeffs: Seq<T>,
    taps: int,
    mu: T,
    eps: T,
    x: T,
    r: T,
) -> (Seq<T>, Seq<T>, T, T) {
    let s = push_state(state, taps, x);
    let y = T::spec_from_accum(weighted_sum(s, coeffs, taps as nat));
    let e = r.spec_sat_sub(y);
    let power = nlms_power(T::spec_nlms_power_seed(eps), s, taps as nat);
    (s, nlms_coeffs(coeffs, s, taps, T::spec_nlms_alpha(mu, e, power)), y, e)
}

/// The first `n` NLMS samples of `src` against `refs`: `(state, coeffs, outputs, errors)`.
pub open spec fn nlms_run<T: AdaptiveSample>(
    state: Seq<T>,
    coeffs: Seq<T>,
    taps: int,
    mu: T,
    eps: T,
    src: Seq<T>,
    refs: Seq<T>,
    n: nat,
) -> (Seq<T>, Seq<T>, Seq<T>, Seq<T>)
    decreases n,
{
    if n == 0 {
        (state, coeffs, Seq::empty(), Seq::empty())
    } else {
        let prev = nlms_run(state, coeffs, taps, mu, eps, src, refs, (n - 1) as nat);
        let step = nlms_sample(prev.0, prev.1, taps, mu, eps, src[n - 1], refs[n - 1]);
        (step.0, step.1, prev.2.push(step.2), prev.3.push(step.3))
    }
}

/// The run keeps the lengths of the delay line and the coefficients.
proof fn lemma_lms_run_len<T: AdaptiveSample>(
    state: Seq<T>,
    coeffs: Seq<T>,
    taps: int,
    mu: T,
    keep: T::Accum,
    src: Seq<T>,
    refs: Seq<T>,
    n: nat,
)
    ensures
        lms_run(state, coeffs, taps, mu, keep, src, refs, n).0.len() == state.len(),
        lms_run(state, coeffs, taps, mu, keep, src, refs, n).1.len() == coeffs.len(),
        lms_run(state, coeffs, taps, mu, keep, src, refs, n).2.len() == n,
        lms_run(state, coeffs, taps, mu, keep, src, refs, n).3.len() == n,
    decreases n,
{
    if n > 0 {
        lemma_lms_run_len(state, coeffs, taps, mu, keep, src, refs, (n - 1) as nat);
    }
}

/// The run keeps the lengths of the delay line and the coefficients.
proof fn lemma_nlms_run_len<T: AdaptiveSample>(
    state: Seq<T>,
    coeffs: Seq<T>,
    taps: int,
    mu: T,
    eps: T,
    src: Seq<T>,
    refs: Seq<T>,
    n: nat,
)
    ensures
        nlms_run(state, coeffs, taps, mu, eps, src, refs, n).0.len() == state.len(),
        nlms_run(state, coeffs, taps, mu, eps, src, refs, n).1.len() == coeffs.len(),
        nlms_run(state, coeffs, taps, mu, eps, src, refs, n).2.len() == n,
        nlms_run(state, coeffs, taps, mu, eps, src, refs, n).3.len() == n,
    decreases n,
{
    if n > 0 {
        lemma_nlms_run_len(state, coeffs, taps, mu, eps, src, refs, (n - 1) as nat);
    }
}

/// Push `x` onto the first `taps` entries of the delay line.
pub(crate) fn push_delay<T: Copy>(state: &mut [T], taps: usize, x: T)
    requires
        old(state)@.len() >= 1,
        old(state)@.len() >= taps,
    ensures
        final(state)@ == push_state(old(state)@, taps as int, x),
{
    let ghost s0 = state@;
    let mut k: usize = taps;
    while k > 1
        invariant
            k <= taps,
            taps <= s0.len(),
            state@.len() == s0.len(),
            forall|j: int|
                #![trigger state@[j]]
                0 <= j < s0.len() ==> state@[j] == if 1 <= j && k <= j && j < taps {
                    s0[j - 1]
                } else {
                    s0[j]
                },
        decreases k,
    {
        state[k - 1] = state[k - 2];
        k = k - 1;
    }
    state[0] = x;
    assert(state@ =~= push_state(s0, taps as int, x));
}

/// Instance structure for the LMS adaptive filter, generic over the sample width.
pub struct LmsInstance<'a, T: AdaptiveSample> {
    /// Number of filter taps.
    pub num_taps: u16,
    /// Filter coefficients.
    pub coeffs: &'a mut [T],
    /// Filter state buffer.
    pub state: &'a mut [T],
    /// Adaptation step size.
    pub mu: T,
}

/// `s` with every element set to the zero sample.
fn fill_zero<T: DspSample>(s: &mut [T])
    ensures
        final(s)@ == Seq::new(old(s)@.len(), |i: int| T::spec_zero()),
{
    let mut i: usize = 0;
    let z = T::zero();
    while i < s.len()
        invariant
            i <= s@.len(),
            s@.len() == old(s)@.len(),
            z == T::spec_zero(),
            forall|j: int| 0 <= j < i ==> s@[j] == T::spec_zero(),
        decreases s@.len() - i,
    {
        s[i] = z;
        i = i + 1;
    }
    assert(s@ =~= Seq::new(old(s)@.len(), |i: int| T::spec_zero()));
}

impl<'a, T: AdaptiveSample> LmsInstance<'a, T> {
    /// Initializes the instance: the state and the coefficients are cleared to zero.
    pub fn init(num_taps: u16, coeffs: &'a mut [T], state: &'a mut [T], mu: T) -> (r: Self)
        ensures
            r.num_taps == num_taps,
            r.mu == mu,
            r.state@ == Seq::new(old(state)@.len(), |i: int| T::spec_zero()),
            r.coeffs@ == Seq::new(old(coeffs)@.len(), |i: int| T::spec_zero()),
    {
        fill_zero(state);
        fill_zero(coeffs);
        Self { num_taps, coeffs, state, mu }
    }
}

/// LMS adaptive filtering, generic over the sample width: [`lms_leaky`] with no leak.
pub fn lms<T: AdaptiveSample>(
    instance: &mut LmsInstance<'_, T>,
    src: &[T],
    ref_signal: &[T],
    out: &mut [T],
    err: &mut [T],
)
    requires
        block_len(src@.len(), ref_signal@.len(), old(out)@.len(), old(err)@.len()) > 0
            ==> old(instance).state@.len() >= 1,
        old(instance).state@.len() >= old(instance).num_taps,
        old(instance).coeffs@.len() >= old(instance).num_taps,
    ensures
        ({
            let n = block_len(src@.len(), ref_signal@.len(), old(out)@.len(), old(err)@.len());
            let run = lms_run(
                old(instance).state@,
                old(instance).coeffs@,
                old(instance).num_taps as int,
                old(instance).mu,
                T::spec_lms_keep(T::spec_zero()),
                src@,
                ref_signal@,
                n,
            );
            &&& final(instance).num_taps == old(instance).num_taps
            &&& final(instance).mu == old(instance).mu
            &&& final(instance).state@ == run.0
            &&& final(instance).coeffs@ == run.1
            &&& final(out)@ == run.2 + old(out)@.skip(n as int)
            &&& final(err)@ == run.3 + old(err)@.skip(n as int)
        }),
{
    lms_leaky(instance, src, ref_signal, out, err, T::zero());
}

/// Leaky LMS: `w ← keep·w + 2 μ e x`. `leak = 0` matches [`lms`].
///
/// Each of the first `n` samples (`n` the shortest buffer) is pushed into the delay line, filtered
/// by the first `num_taps` coefficients into `out`, compared with the reference into `err`, and
/// then used to update those coefficients.
pub fn lms_leaky<T: AdaptiveSample>(
    instance: &mut LmsInstance<'_, T>,
    src: &[T],
    ref_signal: &[T],
    out: &mut [T],
    err: &mut [T],
    leak: T,
)
    requires
        block_len(src@.len(), ref_signal@.len(), old(out)@.len(), old(err)@.len()) > 0
            ==> old(instance).state@.len() >= 1,
        old(instance).state@.len() >= old(instance).num_taps,
        old(instance).coeffs@.len() >= old(instance).num_taps,
    ensures
        ({
            let n = block_len(src@.len(), ref_signal@.len(), old(out)@.len(), old(err)@.len());
            let run = lms_run(
                old(instance).state@,
                old(instance).coeffs@,
                old(instance).num_taps as int,
                old(instance).mu,
                T::spec_lms_keep(leak),
                src@,
                ref_signal@,
                n,
            );
            &&& final(instance).num_taps == old(instance).num_taps
            &&& final(instance).mu == old(instance).mu
            &&& final(instance).state@ == run.0
            &&& final(instance).coeffs@ == run.1
            &&& final(out)@ == run.2 + old(out)@.skip(n as int)
            &&& final(err)@ == run.3 + old(err)@.skip(n as int)
        }),
{
    let num_taps = instance.num_taps as usize;
    let block = block_len_exec(src.len(), ref_signal.len(), out.len(), err.len());
    let keep = T::lms_keep(leak);
    let ghost s0 = instance.state@;
    let ghost c0 = instance.coeffs@;
    let ghost out0 = out@;
    let ghost err0 = err@;
    let ghost mu = instance.mu;
    let ghost taps = num_taps as int;

    let mut i: usize = 0;
    while i < block
        invariant
            i <= block,
            block == block_len(src@.len(), ref_signal@.len(), out0.len(), err0.len()),
            block > 0 ==> s0.len() >= 1,
            num_taps == taps,
            instance.num_taps == taps,
            instance.mu == mu,
            keep == T::spec_lms_keep(leak),
            s0.len() >= taps,
            c0.len() >= taps,
            out@.len() == out0.len(),
            err@.len() == err0.len(),
            ({
                let run = lms_run(s0, c0, taps, mu, keep, src@, ref_signal@, i as nat);
                &&& instance.state@ == run.0
                &&& instance.coeffs@ == run.1
                &&& out@ == run.2 + out0.skip(i as int)
                &&& err@ == run.3 + err0.skip(i as int)
            }),
        decreases block - i,
    {
        proof {
            lemma_lms_run_len(s0, c0, taps, mu, keep, src@, ref_signal@, i as nat);
        }
        let ghost prev = lms_run(s0, c0, taps, mu, keep, src@, ref_signal@, i as nat);
        push_delay(instance.state, num_taps, src[i]);

        let mut acc = T::accum_zero();
        let mut k: usize = 0;
        while k < num_taps
            invariant
                k <= num_taps,
                instance.num_taps == taps,
                instance.mu == mu,
                num_taps <= instance.state@.len(),
                num_taps <= instance.coeffs@.len(),
                acc == weighted_sum(instance.state@, instance.coeffs@, k as nat),
            decreases num_taps - k,
        {
            acc = T::madd(acc, instance.state[k], instance.coeffs[k]);
            k = k + 1;
        }
        let y = T::from_accum(acc);
        out[i] = y;
        let e = ref_signal[i].sat_sub(y);
        err[i] = e;

        let alpha = T::lms_alpha(instance.mu, e);
        proof {
            T::lemma_lms_update_ok(mu, e, leak);
        }
        let ghost c_before = instance.coeffs@;
        let ghost s_now = instance.state@;
        let mut k: usize = 0;
        while k < num_taps
            invariant
                k <= num_taps,
                instance.state@ == s_now,
                instance.num_taps == taps,
                instance.mu == mu,
                num_taps <= instance.state@.len(),
                instance.coeffs@.len() == c_before.len(),
                num_taps <= c_before.len(),
                T::lms_update_ok(alpha, keep),
                forall|j: int|
                    #![trigger instance.coeffs@[j]]
                    0 <= j < c_before.len() ==> instance.coeffs@[j] == if j < k {
                        T::spec_lms_apply(c_before[j], instance.state@[j], alpha, keep)
                    } else {
                        c_before[j]
                    },
            decreases num_taps - k,
        {
            instance.coeffs[k] = T::lms_apply(instance.coeffs[k], instance.state[k], alpha, keep);
            k = k + 1;
        }
        proof {
            assert(instance.coeffs@ =~= lms_coeffs(c_before, instance.state@, taps, alpha, keep));
            assert(lms_sample(prev.0, prev.1, taps, mu, keep, src@[i as int], ref_signal@[i as int])
                == (instance.state@, instance.coeffs@, y, e));
            assert(out@ =~= prev.2.push(y) + out0.skip(i + 1));
            assert(err@ =~= prev.3.push(e) + err0.skip(i + 1));
        }
        i = i + 1;
    }
}

/// Instance structure for the normalized LMS adaptive filter, generic over the sample width.
pub struct NlmsInstance<'a, T: AdaptiveSample> {
    /// Number of filter taps.
    pub num_taps: u16,
    /// Filter coefficients.
    pub coeffs: &'a mut [T],
    /// Filter state buffer.
    pub state: &'a mut [T],
    /// Adaptation step size.
    pub mu: T,
    /// Regularization epsilon.
    pub eps: T,
}

impl<'a, T: AdaptiveSample> NlmsInstance<'a, T> {
    /// Initializes the instance: the state and the coefficients are cleared to zero.
    pub fn init(num_taps: u16, coeffs: &'a mut [T], state: &'a mut [T], mu: T, eps: T) -> (r:
        Self)
        ensures
            r.num_taps == num_taps,
            r.mu == mu,
            r.eps == eps,
            r.state@ == Seq::new(old(state)@.len(), |i: int| T::spec_zero()),
            r.coeffs@ == Seq::new(old(coeffs)@.len(), |i: int| T::spec_zero()),
    {
        fill_zero(state);
        fill_zero(coeffs);
        Self { num_taps, coeffs, state, mu, eps }
    }
}

/// Normalized LMS: `w ← w + μ e x / (eps + ‖x‖²)`, generic over the sample width.
///
/// Each of the first `n` samples (`n` the shortest buffer) is pushed into the delay line, filtered
/// by the first `num_taps` coefficients into `out`, compared with the reference into `err`, and
/// then used to update those coefficients, with the step normalised by the power in the taps.
pub fn nlms<T: AdaptiveSample>(
    instance: &mut NlmsInstance<'_, T>,
    src: &[T],
    ref_signal: &[T],
    out: &mut [T],
    err: &mut [T],
)
    requires
        block_len(src@.len(), ref_signal@.len(), old(out)@.len(), old(err)@.len()) > 0
            ==> old(instance).state@.len() >= 1,
        old(instance).state@.len() >= old(instance).num_taps,
        old(instance).coeffs@.len() >= old(instance).num_taps,
    ensures
        ({
            let n = block_len(src@.len(), ref_signal@.len(), old(out)@.len(), old(err)@.len());
            let run = nlms_run(
                old(instance).state@,
                old(instance).coeffs@,
                old(instance).num_taps as int,
                old(instance).mu,
                old(instance).eps,
                src@,
                ref_signal@,
                n,
            );
            &&& final(instance).num_taps == old(instance).num_taps
            &&& final(instance).mu == old(instance).mu
            &&& final(instance).eps == old(instance).eps
            &&& final(instance).state@ == run.0
            &&& final(instance).coeffs@ == run.1
            &&& final(out)@ == run.2 + old(out)@.skip(n as int)
            &&& final(err)@ == run.3 + old(err)@.skip(n as int)
        }),
{
    let num_taps = instance.num_taps as usize;
    let block = block_len_exec(src.len(), ref_signal.len(), out.len(), err.len());
    let ghost s0 = instance.state@;
    let ghost c0 = instance.coeffs@;
    let ghost out0 = out@;
    let ghost err0 = err@;
    let ghost mu = instance.mu;
    let ghost eps = instance.eps;
    let ghost taps = num_taps as int;

    let mut i: usize = 0;
    while i < block
        invariant
            i <= block,
            block == block_len(src@.len(), ref_signal@.len(), out0.len(), err0.len()),
            block > 0 ==> s0.len() >= 1,
            num_taps == taps,
            instance.num_taps == taps,
            instance.mu == mu,
            instance.eps == eps,
            s0.len() >= taps,
            c0.len() >= taps,
            out@.len() == out0.len(),
            err@.len() == err0.len(),
            ({
                let run = nlms_run(s0, c0, taps, mu, eps, src@, ref_signal@, i as nat);
                &&& instance.state@ == run.0
                &&& instance.coeffs@ == run.1
                &&& out@ == run.2 + out0.skip(i as int)
                &&& err@ == run.3 + err0.skip(i as int)
            }),
        decreases block - i,
    {
        proof {
            lemma_nlms_run_len(s0, c0, taps, mu, eps, src@, ref_signal@, i as nat);
        }
        let ghost prev = nlms_run(s0, c0, taps, mu, eps, src@, ref_signal@, i as nat);
        push_delay(instance.state, num_taps, src[i]);

        let mut acc = T::accum_zero();
        let mut power = T::nlms_power_seed(instance.eps);
        proof {
            T::lemma_power_ok(eps, power, src[i as int]);
        }
        let mut k: usize = 0;
        while k < num_taps
            invariant
                k <= num_taps,
                instance.num_taps == taps,
                instance.mu == mu,
                instance.eps == eps,
                num_taps <= instance.state@.len(),
                num_taps <= instance.coeffs@.len(),
                acc == weighted_sum(instance.state@, instance.coeffs@, k as nat),
                power == nlms_power(T::spec_nlms_power_seed(eps), instance.state@, k as nat),
                T::power_ok(power),
            decreases num_taps - k,
        {
            acc = T::madd(acc, instance.state[k], instance.coeffs[k]);
            proof {
                T::lemma_power_ok(eps, power, instance.state@[k as int]);
            }
            power = T::accum_add(power, T::mul_high(instance.state[k], instance.state[k]));
            k = k + 1;
        }
        let y = T::from_accum(acc);
        out[i] = y;
        let e = ref_signal[i].sat_sub(y);
        err[i] = e;

        let alpha = T::nlms_alpha(instance.mu, e, power);
        proof {
            T::lemma_nlms_update_ok(mu, e, power);
        }
        let ghost c_before = instance.coeffs@;
        let ghost s_now = instance.state@;
        let mut k: usize = 0;
        while k < num_taps
            invariant
                k <= num_taps,
                instance.state@ == s_now,
                instance.num_taps == taps,
                instance.mu == mu,
                instance.eps == eps,
                num_taps <= instance.state@.len(),
                instance.coeffs@.len() == c_before.len(),
                num_taps <= c_before.len(),
                T::nlms_update_ok(alpha),
                forall|j: int|
                    #![trigger instance.coeffs@[j]]
                    0 <= j < c_before.len() ==> instance.coeffs@[j] == if j < k {
                        T::spec_nlms_apply(c_before[j], instance.state@[j], alpha)
                    } else {
                        c_before[j]
                    },
            decreases num_taps - k,
        {
            instance.coeffs[k] = T::nlms_apply(instance.coeffs[k], instance.state[k], alpha);
            k = k + 1;
        }
        proof {
            assert(instance.coeffs@ =~= nlms_coeffs(c_before, instance.state@, taps, alpha));
            assert(nlms_sample(prev.0, prev.1, taps, mu, eps, src@[i as int], ref_signal@[i as int])
                == (instance.state@, instance.coeffs@, y, e));
            assert(out@ =~= prev.2.push(y) + out0.skip(i + 1));
            assert(err@ =~= prev.3.push(e) + err0.skip(i + 1));
        }
        i = i + 1;
    }
}

} // verus!
