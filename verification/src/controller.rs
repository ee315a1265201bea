//! Fixed-point PID controllers, the Clarke and Park transforms, and the PID-style controller
//! vocabulary: the actions a second-order-section controller combines, the feedback-term order,
//! and the parameter errors its builder reports.
use vstd::prelude::*;

use crate::types::{clamp_int, q15, q31, saturate_i16, saturate_i32};

verus! {

/// Five possible PID-style actions of a biquad SOS controller, lowest order first.
#[derive(Copy, Clone, Debug, PartialEq, Eq, PartialOrd, Ord)]
pub enum PidAction {
    /// Double integrator (-40 dB/decade)
    I2,
    /// Single integrator (-20 dB/decade)
    I,
    /// Proportional (flat gain)
    P,
    /// Derivative (+20 dB/decade)
    D,
    /// Double derivative (+40 dB/decade)
    D2,
}

/// Feedback-term order: the lowest-order action included in the controller.
///
/// The builder uses three consecutive actions `order ..= order + 2`; gains for actions outside
/// that window are ignored.
#[derive(Copy, Clone, Debug, Default, PartialEq, Eq, PartialOrd, Ord)]
pub enum PidOrder {
    /// Double integrator (lowest order): uses `I², I, P`.
    I2,
    /// Single integrator (default): uses `I, P, D`.
    #[default]
    I,
    /// Proportional only: uses `P, D, D²`.
    P,
}

/// Errors reported when validating controller parameters; each names the parameter.
#[derive(Copy, Clone, Debug, PartialEq, Eq)]
pub enum PidError {
    /// A parameter is NaN or infinite.
    NonFinite(&'static str),
    /// A period or gain limit is not strictly positive.
    NonPositive(&'static str),
    /// A gain and its limit have opposite signs.
    SignMismatch(&'static str),
    /// The output minimum exceeds the maximum.
    InvertedRange(&'static str),
}


// ─────────────────────────────────────────────────────────────────────────────
// Fixed-point PID controllers
// ─────────────────────────────────────────────────────────────────────────────

/// `v` wrapped into the `i16` range.
pub open spec fn wrap16(v: int) -> int {
    (v + 0x8000) % 0x1_0000 - 0x8000
}

/// `v` wrapped into the `i32` range.
pub open spec fn wrap32(v: int) -> int {
    (v + 0x8000_0000) % 0x1_0000_0000 - 0x8000_0000
}

/// The Q1.15 product `(a · b) >> 15`, wrapped: only `-1 · -1` wraps, to `-1`.
pub open spec fn wrapping_mul15(a: int, b: int) -> int {
    wrap16((a * b) / 0x8000)
}

/// The Q1.31 product `(a · b) >> 31`, wrapped: only `-1 · -1` wraps, to `-1`.
pub open spec fn wrapping_mul31(a: int, b: int) -> int {
    wrap32((a * b) / 0x8000_0000)
}

/// The Q1.31 product is the product scaled down by `2^31` and rounded toward negative
/// infinity: `r · 2^31 <= a · b < (r + 1) · 2^31`, so its sign is the sign of `a · b` (zero
/// only for products below one LSB). The one product out of range, `-1 · -1`, wraps to `-1`.
pub proof fn lemma_q31_product(a: i32, b: i32)
    ensures
        i32::MIN <= wrapping_mul31(a as int, b as int) <= i32::MAX,
        !(a == i32::MIN && b == i32::MIN) ==> wrapping_mul31(a as int, b as int) * 0x8000_0000
            <= a * b < wrapping_mul31(a as int, b as int) * 0x8000_0000 + 0x8000_0000,
        a == i32::MIN && b == i32::MIN ==> wrapping_mul31(a as int, b as int) == i32::MIN,
        a * b < 0 ==> wrapping_mul31(a as int, b as int) < 0,
        a * b >= 0 && !(a == i32::MIN && b == i32::MIN) ==> wrapping_mul31(a as int, b as int)
            >= 0,
{
    let p = a * b;
    crate::types::lemma_mul_abs_bound(a as int, b as int, 0x8000_0000);
    let q = p / 0x8000_0000;
    vstd::arithmetic::div_mod::lemma_fundamental_div_mod(p, 0x8000_0000);
    assert(q * 0x8000_0000 <= p < q * 0x8000_0000 + 0x8000_0000);
    assert(-0x8000_0000 <= q <= 0x8000_0000);
    if a == i32::MIN && b == i32::MIN {
        assert(p == 0x4000_0000_0000_0000) by (nonlinear_arith)
            requires
                a == -0x8000_0000,
                b == -0x8000_0000,
                p == a * b,
        ;
        assert(q == 0x8000_0000);
    } else {
        assert(p < 0x4000_0000_0000_0000) by (nonlinear_arith)
            requires
                -0x8000_0000 <= a <= 0x7fff_ffff,
                -0x8000_0000 <= b <= 0x7fff_ffff,
                !(a == -0x8000_0000 && b == -0x8000_0000),
                p == a * b,
        ;
        assert(q < 0x8000_0000);
        vstd::arithmetic::div_mod::lemma_small_mod(
            (q + 0x8000_0000) as nat,
            0x1_0000_0000,
        );
    }
}

/// The Q1.15 product is the product scaled down by `2^15` and rounded toward negative
/// infinity: `r · 2^15 <= a · b < (r + 1) · 2^15`, so its sign is the sign of `a · b`. The one
/// product out of range, `-1 · -1`, wraps to `-1`.
pub proof fn lemma_q15_product(a: i16, b: i16)
    ensures
        i16::MIN <= wrapping_mul15(a as int, b as int) <= i16::MAX,
        !(a == i16::MIN && b == i16::MIN) ==> wrapping_mul15(a as int, b as int) * 0x8000
            <= a * b < wrapping_mul15(a as int, b as int) * 0x8000 + 0x8000,
        a == i16::MIN && b == i16::MIN ==> wrapping_mul15(a as int, b as int) == i16::MIN,
        a * b < 0 ==> wrapping_mul15(a as int, b as int) < 0,
        a * b >= 0 && !(a == i16::MIN && b == i16::MIN) ==> wrapping_mul15(a as int, b as int)
            >= 0,
{
    let p = a * b;
    crate::types::lemma_mul_abs_bound(a as int, b as int, 0x8000);
    let q = p / 0x8000;
    vstd::arithmetic::div_mod::lemma_fundamental_div_mod(p, 0x8000);
    assert(q * 0x8000 <= p < q * 0x8000 + 0x8000);
    assert(-0x8000 <= q <= 0x8000);
    if a == i16::MIN && b == i16::MIN {
        assert(p == 0x4000_0000) by (nonlinear_arith)
            requires
                a == -0x8000,
                b == -0x8000,
                p == a * b,
        ;
        assert(q == 0x8000);
    } else {
        assert(p < 0x4000_0000) by (nonlinear_arith)
            requires
                -0x8000 <= a <= 0x7fff,
                -0x8000 <= b <= 0x7fff,
                !(a == -0x8000 && b == -0x8000),
                p == a * b,
        ;
        assert(q < 0x8000);
        vstd::arithmetic::div_mod::lemma_small_mod((q + 0x8000) as nat, 0x1_0000);
    }
}

fn wrapping_mul_q15(a: q15, b: q15) -> (r: i16)
    ensures
        r == wrapping_mul15(a.0 as int, b.0 as int),
{
    proof {
        crate::types::lemma_mul_abs_bound(a.0 as int, b.0 as int, 0x8000);
        crate::types::lemma_shr_is_floor_div();
    }
    let p = (a.0 as i64 * b.0 as i64) >> 15u64;
    assert(-0x8000 <= p <= 0x8000) by (nonlinear_arith)
        requires
            p == (a.0 * b.0) / 0x8000,
            -0x4000_0000 <= a.0 * b.0 <= 0x4000_0000,
    ;
    if p == 0x8000 {
        i16::MIN
    } else {
        p as i16
    }
}

fn wrapping_mul_q31(a: q31, b: q31) -> (r: i32)
    ensures
        r == wrapping_mul31(a.0 as int, b.0 as int),
{
    proof {
        crate::types::lemma_mul_abs_bound(a.0 as int, b.0 as int, 0x8000_0000);
        crate::types::lemma_shr_is_floor_div();
    }
    let p = (a.0 as i64 * b.0 as i64) >> 31u64;
    assert(-0x8000_0000 <= p <= 0x8000_0000) by (nonlinear_arith)
        requires
            p == (a.0 * b.0) / 0x8000_0000,
            -0x4000_0000_0000_0000 <= a.0 * b.0 <= 0x4000_0000_0000_0000,
    ;
    if p == 0x8000_0000 {
        i32::MIN
    } else {
        p as i32
    }
}

/// The Q15 PID difference-equation gains from `(kp, ki, kd)`: `a0 = kp + ki + kd` and
/// `a1 = -kp - 2 kd` (saturating, with `2 kd` wrapped), `a2 = kd`.
pub open spec fn pid_gains15(kp: q15, ki: q15, kd: q15) -> (q15, q15, q15) {
    let a0 = clamp_int(
        clamp_int(kp.0 + ki.0, i16::MIN as int, i16::MAX as int) + kd.0,
        i16::MIN as int,
        i16::MAX as int,
    );
    let a1 = clamp_int(-kp.0 - wrap16(2 * kd.0), i16::MIN as int, i16::MAX as int);
    (q15(a0 as i16), q15(a1 as i16), kd)
}

/// The Q31 PID difference-equation gains from `(kp, ki, kd)`: `a0 = kp + ki + kd` and
/// `a1 = -kp - 2 kd` (saturating, with `2 kd` wrapped), `a2 = kd`.
pub open spec fn pid_gains31(kp: q31, ki: q31, kd: q31) -> (q31, q31, q31) {
    let a0 = clamp_int(
        clamp_int(kp.0 + ki.0, i32::MIN as int, i32::MAX as int) + kd.0,
        i32::MIN as int,
        i32::MAX as int,
    );
    let a1 = clamp_int(-kp.0 - wrap32(2 * kd.0), i32::MIN as int, i32::MAX as int);
    (q31(a0 as i32), q31(a1 as i32), kd)
}

/// PID controller in Q15, in the incremental form
/// `y[n] = y[n-1] + a0 x[n] + a1 x[n-1] + a2 x[n-2]`.
#[derive(Debug, Clone, PartialEq, Default)]
pub struct PidInstanceQ15 {
    /// Gain on the current input.
    pub a0: q15,
    /// Gain on the previous input.
    pub a1: q15,
    /// Gain on the input before that.
    pub a2: q15,
    /// `[x[n-1], x[n-2], y[n-1]]`.
    pub state: [q15; 3],
    /// Proportional gain.
    pub kp: q15,
    /// Integral gain.
    pub ki: q15,
    /// Derivative gain.
    pub kd: q15,
}

impl PidInstanceQ15 {
    /// A controller with the given gains, its difference-equation gains derived and its state
    /// zero. `kp` may not be `-1` (its negation overflows).
    pub fn new(kp: q15, ki: q15, kd: q15) -> (r: Self)
        requires
            kp.0 != i16::MIN,
        ensures
            (r.kp, r.ki, r.kd) == (kp, ki, kd),
            (r.a0, r.a1, r.a2) == pid_gains15(kp, ki, kd),
            r.state@ == seq![q15(0), q15(0), q15(0)],
    {
        let mut pid = Self {
            a0: q15(0),
            a1: q15(0),
            a2: q15(0),
            state: [q15(0); 3],
            kp,
            ki,
            kd,
        };
        pid.init(1);
        pid
    }

    /// Derive the difference-equation gains from `kp`, `ki`, `kd`; clear the state when
    /// `reset_state_flag` is non-zero.
    pub fn init(&mut self, reset_state_flag: i32)
        requires
            old(self).kp.0 != i16::MIN,
        ensures
            (final(self).kp, final(self).ki, final(self).kd) == (old(self).kp, old(self).ki, old(
                self,
            ).kd),
            (final(self).a0, final(self).a1, final(self).a2) == pid_gains15(
                old(self).kp,
                old(self).ki,
                old(self).kd,
            ),
            reset_state_flag != 0 ==> final(self).state@ == seq![q15(0), q15(0), q15(0)],
            reset_state_flag == 0 ==> final(self).state == old(self).state,
    {
        let kp = self.kp.0 as i32;
        let ki = self.ki.0 as i32;
        let kd = self.kd.0 as i32;
        let s = saturate_i16((kp + ki) as i64);
        self.a0 = q15(saturate_i16(s as i64 + kd as i64));
        let twice = 2 * kd;
        let wrapped: i32 = if twice >= 0x8000 {
            twice - 0x1_0000
        } else if twice < -0x8000 {
            twice + 0x1_0000
        } else {
            twice
        };
        self.a1 = q15(saturate_i16((-kp - wrapped) as i64));
        self.a2 = self.kd;
        if reset_state_flag != 0 {
            self.reset();
        }
    }

    /// Clear the state.
    pub fn reset(&mut self)
        ensures
            final(self).state@ == seq![q15(0), q15(0), q15(0)],
            (final(self).a0, final(self).a1, final(self).a2) == (old(self).a0, old(self).a1, old(
                self,
            ).a2),
            (final(self).kp, final(self).ki, final(self).kd) == (old(self).kp, old(self).ki, old(
                self,
            ).kd),
    {
        self.state = [q15(0); 3];
        assert(self.state@ =~= seq![q15(0), q15(0), q15(0)]);
    }

    /// One controller step: `y = y[n-1] + a0 x + a1 x[n-1] + a2 x[n-2]`, each product a wrapped
    /// Q15 product and only the sum saturated; the state moves to `[x, x[n-1], y]`.
    pub fn process(&mut self, in_val: q15) -> (out: q15)
        ensures
            out.0 == clamp_int(
                old(self).state[2].0 + wrapping_mul15(old(self).a0.0 as int, in_val.0 as int)
                    + wrapping_mul15(old(self).a1.0 as int, old(self).state[0].0 as int)
                    + wrapping_mul15(old(self).a2.0 as int, old(self).state[1].0 as int),
                i16::MIN as int,
                i16::MAX as int,
            ),
            final(self).state@ == seq![in_val, old(self).state[0], out],
            (final(self).a0, final(self).a1, final(self).a2) == (old(self).a0, old(self).a1, old(
                self,
            ).a2),
            (final(self).kp, final(self).ki, final(self).kd) == (old(self).kp, old(self).ki, old(
                self,
            ).kd),
    {
        let t0 = wrapping_mul_q15(self.a0, in_val);
        let t1 = wrapping_mul_q15(self.a1, self.state[0]);
        let t2 = wrapping_mul_q15(self.a2, self.state[1]);
        let acc = (self.state[2].0 as i32) + (t0 as i32) + (t1 as i32) + (t2 as i32);
        let out = q15(saturate_i16(acc as i64));
        self.state[1] = self.state[0];
        self.state[0] = in_val;
        self.state[2] = out;
        assert(self.state@ =~= seq![in_val, old(self).state[0], out]);
        out
    }
}

/// One step of a Q15 PID controller.
pub fn pid_q15(instance: &mut PidInstanceQ15, in_val: q15) -> (out: q15)
    ensures
        out.0 == clamp_int(
            old(instance).state[2].0 + wrapping_mul15(old(instance).a0.0 as int, in_val.0 as int)
                + wrapping_mul15(old(instance).a1.0 as int, old(instance).state[0].0 as int)
                + wrapping_mul15(old(instance).a2.0 as int, old(instance).state[1].0 as int),
            i16::MIN as int,
            i16::MAX as int,
        ),
        final(instance).state@ == seq![in_val, old(instance).state[0], out],
        (final(instance).a0, final(instance).a1, final(instance).a2) == (
            old(instance).a0,
            old(instance).a1,
            old(instance).a2,
        ),
        (final(instance).kp, final(instance).ki, final(instance).kd) == (
            old(instance).kp,
            old(instance).ki,
            old(instance).kd,
        ),
{
    instance.process(in_val)
}

/// PID controller in Q31, in the incremental form
/// `y[n] = y[n-1] + a0 x[n] + a1 x[n-1] + a2 x[n-2]`.
#[derive(Debug, Clone, PartialEq, Default)]
pub struct PidInstanceQ31 {
    /// Gain on the current input.
    pub a0: q31,
    /// Gain on the previous input.
    pub a1: q31,
    /// Gain on the input before that.
    pub a2: q31,
    /// `[x[n-1], x[n-2], y[n-1]]`.
    pub state: [q31; 3],
    /// Proportional gain.
    pub kp: q31,
    /// Integral gain.
    pub ki: q31,
    /// Derivative gain.
    pub kd: q31,
}

impl PidInstanceQ31 {
    /// A controller with the given gains, its difference-equation gains derived and its state
    /// zero. `kp` may not be `-1` (its negation overflows).
    pub fn new(kp: q31, ki: q31, kd: q31) -> (r: Self)
        requires
            kp.0 != i32::MIN,
        ensures
            (r.kp, r.ki, r.kd) == (kp, ki, kd),
            (r.a0, r.a1, r.a2) == pid_gains31(kp, ki, kd),
            r.state@ == seq![q31(0), q31(0), q31(0)],
    {
        let mut pid = Self {
            a0: q31(0),
            a1: q31(0),
            a2: q31(0),
            state: [q31(0); 3],
            kp,
            ki,
            kd,
        };
        pid.init(1);
        pid
    }

    /// Derive the difference-equation gains from `kp`, `ki`, `kd`; clear the state when
    /// `reset_state_flag` is non-zero.
    pub fn init(&mut self, reset_state_flag: i32)
        requires
            old(self).kp.0 != i32::MIN,
        ensures
            (final(self).kp, final(self).ki, final(self).kd) == (old(self).kp, old(self).ki, old(
                self,
            ).kd),
            (final(self).a0, final(self).a1, final(self).a2) == pid_gains31(
                old(self).kp,
                old(self).ki,
                old(self).kd,
            ),
            reset_state_flag != 0 ==> final(self).state@ == seq![q31(0), q31(0), q31(0)],
            reset_state_flag == 0 ==> final(self).state == old(self).state,
    {
        let kp = self.kp.0 as i64;
        let ki = self.ki.0 as i64;
        let kd = self.kd.0 as i64;
        let s = saturate_i32(kp + ki);
        self.a0 = q31(saturate_i32(s as i64 + kd));
        let twice = 2 * kd;
        let wrapped: i64 = if twice >= 0x8000_0000 {
            twice - 0x1_0000_0000
        } else if twice < -0x8000_0000 {
            twice + 0x1_0000_0000
        } else {
            twice
        };
        self.a1 = q31(saturate_i32(-kp - wrapped));
        self.a2 = self.kd;
        if reset_state_flag != 0 {
            self.reset();
        }
    }

    /// Clear the state.
    pub fn reset(&mut self)
        ensures
            final(self).state@ == seq![q31(0), q31(0), q31(0)],
            (final(self).a0, final(self).a1, final(self).a2) == (old(self).a0, old(self).a1, old(
                self,
            ).a2),
            (final(self).kp, final(self).ki, final(self).kd) == (old(self).kp, old(self).ki, old(
                self,
            ).kd),
    {
        self.state = [q31(0); 3];
        assert(self.state@ =~= seq![q31(0), q31(0), q31(0)]);
    }

    /// One controller step: `y = y[n-1] + a0 x + a1 x[n-1] + a2 x[n-2]`, each product a wrapped
    /// Q31 product and only the sum saturated; the state moves to `[x, x[n-1], y]`.
    pub fn process(&mut self, in_val: q31) -> (out: q31)
        ensures
            out.0 == clamp_int(
                old(self).state[2].0 + wrapping_mul31(old(self).a0.0 as int, in_val.0 as int)
                    + wrapping_mul31(old(self).a1.0 as int, old(self).state[0].0 as int)
                    + wrapping_mul31(old(self).a2.0 as int, old(self).state[1].0 as int),
                i32::MIN as int,
                i32::MAX as int,
            ),
            final(self).state@ == seq![in_val, old(self).state[0], out],
            (final(self).a0, final(self).a1, final(self).a2) == (old(self).a0, old(self).a1, old(
                self,
            ).a2),
            (final(self).kp, final(self).ki, final(self).kd) == (old(self).kp, old(self).ki, old(
                self,
            ).kd),
    {
        let t0 = wrapping_mul_q31(self.a0, in_val);
        let t1 = wrapping_mul_q31(self.a1, self.state[0]);
        let t2 = wrapping_mul_q31(self.a2, self.state[1]);
        let acc = (self.state[2].0 as i64) + (t0 as i64) + (t1 as i64) + (t2 as i64);
        let out = q31(saturate_i32(acc));
        self.state[1] = self.state[0];
        self.state[0] = in_val;
        self.state[2] = out;
        assert(self.state@ =~= seq![in_val, old(self).state[0], out]);
        out
    }
}

/// From rest (zero history and zero previous output) one Q31 controller step gives the error
/// times `a0` scaled down by `2^31` and rounded toward negative infinity, with the sign of the
/// product: a negative error against a positive gain pushes the output negative.
pub proof fn lemma_pid_q31_step_from_rest(a0: q31, a1: q31, a2: q31, x: q31)
    requires
        !(a0.0 == i32::MIN && x.0 == i32::MIN),
    ensures
        ({
            let y = clamp_int(
                q31(0).0 + wrapping_mul31(a0.0 as int, x.0 as int) + wrapping_mul31(
                    a1.0 as int,
                    q31(0).0 as int,
                ) + wrapping_mul31(a2.0 as int, q31(0).0 as int),
                i32::MIN as int,
                i32::MAX as int,
            );
            &&& y * 0x8000_0000 <= a0.0 * x.0 < y * 0x8000_0000 + 0x8000_0000
            &&& (a0.0 * x.0 < 0 ==> y < 0)
        }),
{
    lemma_q31_product(a0.0, x.0);
    lemma_q31_product(a1.0, 0);
    lemma_q31_product(a2.0, 0);
}

/// From rest (zero history and zero previous output) one Q15 controller step gives the error
/// times `a0` scaled down by `2^15` and rounded toward negative infinity, with the sign of the
/// product.
pub proof fn lemma_pid_q15_step_from_rest(a0: q15, a1: q15, a2: q15, x: q15)
    requires
        !(a0.0 == i16::MIN && x.0 == i16::MIN),
    ensures
        ({
            let y = clamp_int(
                q15(0).0 + wrapping_mul15(a0.0 as int, x.0 as int) + wrapping_mul15(
                    a1.0 as int,
                    q15(0).0 as int,
                ) + wrapping_mul15(a2.0 as int, q15(0).0 as int),
                i16::MIN as int,
                i16::MAX as int,
            );
            &&& y * 0x8000 <= a0.0 * x.0 < y * 0x8000 + 0x8000
            &&& (a0.0 * x.0 < 0 ==> y < 0)
        }),
{
    lemma_q15_product(a0.0, x.0);
    lemma_q15_product(a1.0, 0);
    lemma_q15_product(a2.0, 0);
}

/// One step of a Q31 PID controller.
pub fn pid_q31(instance: &mut PidInstanceQ31, in_val: q31) -> (out: q31)
    ensures
        out.0 == clamp_int(
            old(instance).state[2].0 + wrapping_mul31(old(instance).a0.0 as int, in_val.0 as int)
                + wrapping_mul31(old(instance).a1.0 as int, old(instance).state[0].0 as int)
                + wrapping_mul31(old(instance).a2.0 as int, old(instance).state[1].0 as int),
            i32::MIN as int,
            i32::MAX as int,
        ),
        final(instance).state@ == seq![in_val, old(instance).state[0], out],
        (final(instance).a0, final(instance).a1, final(instance).a2) == (
            old(instance).a0,
            old(instance).a1,
            old(instance).a2,
        ),
        (final(instance).kp, final(instance).ki, final(instance).kd) == (
            old(instance).kp,
            old(instance).ki,
            old(instance).kd,
        ),
{
    instance.process(in_val)
}

// ─────────────────────────────────────────────────────────────────────────────
// Clarke and Park transforms in Q15
// ─────────────────────────────────────────────────────────────────────────────

/// `1/√3` in Q15.
pub const INV_SQRT3_Q15: i32 = 18919;

/// `√3/2` in Q15.
pub const SQRT3_2_Q15: i32 = 28378;

/// `v` saturated to the `i16` range.
pub open spec fn sat16(v: int) -> i16 {
    clamp_int(v, i16::MIN as int, i16::MAX as int) as i16
}

/// Forward Clarke transform in Q15: `alpha = ia`, `beta = ((ia + 2 ib) · (1/√3)) >> 15`,
/// saturated.
pub fn clarke_q15(ia: q15, ib: q15, p_alpha: &mut q15, p_beta: &mut q15)
    ensures
        *final(p_alpha) == ia,
        final(p_beta).0 == sat16(((ia.0 + 2 * ib.0) * INV_SQRT3_Q15) / 0x8000),
{
    *p_alpha = ia;
    let s: i32 = ia.0 as i32 + 2 * ib.0 as i32;
    assert(-98304 <= s <= 98301);
    assert(-98304 * 18919 <= s * 18919 <= 98301 * 18919) by (nonlinear_arith)
        requires -98304 <= s <= 98301;
    let acc: i64 = (s * INV_SQRT3_Q15) as i64;
    proof {
        crate::types::lemma_shr_is_floor_div();
    }
    *p_beta = q15(saturate_i16(acc >> 15u64));
}

/// Inverse Clarke transform in Q15: `ia = alpha`, `ib = (-(alpha << 14) + (√3/2) beta) >> 15`,
/// saturated.
pub fn inv_clarke_q15(alpha: q15, beta: q15, p_ia: &mut q15, p_ib: &mut q15)
    ensures
        *final(p_ia) == alpha,
        final(p_ib).0 == sat16((-(alpha.0 * 0x4000) + SQRT3_2_Q15 * beta.0) / 0x8000),
{
    *p_ia = alpha;
    let b: i32 = beta.0 as i32;
    assert(-32768 * 28378 <= 28378 * b <= 32767 * 28378) by (nonlinear_arith)
        requires -32768 <= b <= 32767;
    let acc: i64 = (-(alpha.0 as i32 * 0x4000) + SQRT3_2_Q15 * b) as i64;
    proof {
        crate::types::lemma_shr_is_floor_div();
    }
    *p_ib = q15(saturate_i16(acc >> 15u64));
}

/// The inverse Clarke transform undoes the forward one: `ia` comes back exactly and `ib` to
/// within two LSB below, on every input for which the forward `beta` does not saturate.
pub proof fn lemma_inv_clarke_undoes_clarke(ia: q15, ib: q15)
    requires
        i16::MIN <= ((ia.0 + 2 * ib.0) * INV_SQRT3_Q15) / 0x8000 <= i16::MAX,
    ensures
        ({
            let beta = sat16(((ia.0 + 2 * ib.0) * INV_SQRT3_Q15) / 0x8000);
            let ib_back = sat16((-(ia.0 * 0x4000) + SQRT3_2_Q15 * beta) / 0x8000);
            ib.0 - 2 <= ib_back <= ib.0
        }),
{
    let s: int = ia.0 + 2 * ib.0;
    let b: int = (s * 18919) / 32768;
    let r: int = (s * 18919) % 32768;
    vstd::arithmetic::div_mod::lemma_fundamental_div_mod(s * 18919, 32768);
    assert(s * 18919 == 32768 * b + r);
    assert(0 <= r < 32768);
    assert(sat16(b) == b);
    let t: int = -(ia.0 * 0x4000) + 28378 * b;
    assert(32768 * t == 1073741824 * ib.0 + 12470 * s - 28378 * r);
    assert(32768 * (ib.0 - 2) <= t < 32768 * (ib.0 + 1));
    let q: int = t / 32768;
    vstd::arithmetic::div_mod::lemma_fundamental_div_mod(t, 32768);
    assert(ib.0 - 2 <= q <= ib.0);
}

/// The inputs on which the forward Park transform's `i32` sums stay in range.
pub open spec fn park_ok(alpha: q15, beta: q15, sin_t: q15, cos_t: q15) -> bool {
    &&& i32::MIN <= alpha.0 * cos_t.0 + beta.0 * sin_t.0 <= i32::MAX
    &&& i32::MIN <= -alpha.0 * sin_t.0 + beta.0 * cos_t.0 <= i32::MAX
}

/// Forward Park transform in Q15: `d = (alpha cos + beta sin) >> 15`,
/// `q = (-alpha sin + beta cos) >> 15`, each saturated. `sin_t` / `cos_t` are the Q15 sine and
/// cosine of the angle.
pub fn park_q15(alpha: q15, beta: q15, sin_t: q15, cos_t: q15, p_d: &mut q15, p_q: &mut q15)
    requires
        park_ok(alpha, beta, sin_t, cos_t),
    ensures
        final(p_d).0 == sat16((alpha.0 * cos_t.0 + beta.0 * sin_t.0) / 0x8000),
        final(p_q).0 == sat16((-alpha.0 * sin_t.0 + beta.0 * cos_t.0) / 0x8000),
{
    let (a, b, s, c) = (alpha.0 as i64, beta.0 as i64, sin_t.0 as i64, cos_t.0 as i64);
    proof {
        crate::types::lemma_mul_abs_bound(a as int, c as int, 0x8000);
        crate::types::lemma_mul_abs_bound(b as int, s as int, 0x8000);
        crate::types::lemma_mul_abs_bound(-a as int, s as int, 0x8000);
        crate::types::lemma_mul_abs_bound(b as int, c as int, 0x8000);
        crate::types::lemma_shr_is_floor_div();
    }
    let d = (a * c + b * s) >> 15u64;
    let q = (-a * s + b * c) >> 15u64;
    *p_d = q15(saturate_i16(d));
    *p_q = q15(saturate_i16(q));
}

/// The inputs on which the inverse Park transform's `i32` sums stay in range.
pub open spec fn inv_park_ok(d: q15, q: q15, sin_t: q15, cos_t: q15) -> bool {
    &&& i32::MIN <= d.0 * cos_t.0 - q.0 * sin_t.0 <= i32::MAX
    &&& i32::MIN <= d.0 * sin_t.0 + q.0 * cos_t.0 <= i32::MAX
}

/// Inverse Park transform in Q15: `alpha = (d cos - q sin) >> 15`,
/// `beta = (d sin + q cos) >> 15`, each saturated.
pub fn inv_park_q15(d: q15, q: q15, sin_t: q15, cos_t: q15, p_alpha: &mut q15, p_beta: &mut q15)
    requires
        inv_park_ok(d, q, sin_t, cos_t),
    ensures
        final(p_alpha).0 == sat16((d.0 * cos_t.0 - q.0 * sin_t.0) / 0x8000),
        final(p_beta).0 == sat16((d.0 * sin_t.0 + q.0 * cos_t.0) / 0x8000),
{
    let (dd, qq, s, c) = (d.0 as i64, q.0 as i64, sin_t.0 as i64, cos_t.0 as i64);
    proof {
        crate::types::lemma_mul_abs_bound(dd as int, c as int, 0x8000);
        crate::types::lemma_mul_abs_bound(qq as int, s as int, 0x8000);
        crate::types::lemma_mul_abs_bound(dd as int, s as int, 0x8000);
        crate::types::lemma_mul_abs_bound(qq as int, c as int, 0x8000);
        crate::types::lemma_shr_is_floor_div();
    }
    let alpha = (dd * c - qq * s) >> 15u64;
    let beta = (dd * s + qq * c) >> 15u64;
    *p_alpha = q15(saturate_i16(alpha));
    *p_beta = q15(saturate_i16(beta));
}

} // verus!
