//! Integer lowpass filters with a wide (`i64`) state.
use vstd::prelude::*;
use crate::types::clamp_int;

verus! {

/// The high word of a wide state value: `s >> 32`, the floor of `s / 2^32`.
pub open spec fn hi_word(s: i64) -> int {
    s as int / 0x1_0000_0000
}

/// The lead term `sat(x - hi(s0)) * k0`, with the difference saturated to `i32`.
pub open spec fn lowpass_lead(s0: i64, k0: i32, x: i32) -> int {
    clamp_int(x - hi_word(s0), i32::MIN as int, i32::MAX as int) * k0
}

/// In `i64` range.
pub open spec fn fits_i64(v: int) -> bool {
    i64::MIN <= v <= i64::MAX
}

/// The state update increment: the lead term, plus the lag term `hi(s1) * k1` for order 2.
pub open spec fn lowpass_increment(k: Seq<i32>, s: Seq<i64>, x: i32) -> int {
    if k.len() == 1 {
        lowpass_lead(s[0], k[0], x)
    } else {
        lowpass_lead(s[0], k[0], x) + hi_word(s[1]) * k[1]
    }
}

/// No intermediate of one update leaves the `i64` range.
pub open spec fn lowpass_step_ok(k: Seq<i32>, s: Seq<i64>, x: i32) -> bool {
    let d = lowpass_increment(k, s, x);
    if k.len() == 1 {
        fits_i64(s[0] + d) && fits_i64(s[0] + 2 * d)
    } else {
        let s1 = s[1] + d;
        &&& fits_i64(d)
        &&& fits_i64(s1)
        &&& fits_i64(s[0] + s1)
        &&& fits_i64(s[0] + 2 * s1)
        &&& fits_i64(s1 + d)
    }
}

/// The output for input `x`: the high word of the first state after its first half-update.
pub open spec fn lowpass_output(k: Seq<i32>, s: Seq<i64>, x: i32) -> int {
    let d = lowpass_increment(k, s, x);
    if k.len() == 1 {
        hi_word((s[0] + d) as i64)
    } else {
        hi_word((s[0] + s[1] + d) as i64)
    }
}

/// The state after input `x`.
pub open spec fn lowpass_next_state(k: Seq<i32>, s: Seq<i64>, x: i32) -> Seq<i64> {
    let d = lowpass_increment(k, s, x);
    if k.len() == 1 {
        seq![(s[0] + 2 * d) as i64]
    } else {
        seq![(s[0] + 2 * (s[1] + d)) as i64, (s[1] + 2 * d) as i64]
    }
}

proof fn lemma_hi_word(s: i64)
    ensures
        (s >> 32u64) as int == hi_word(s),
        i32::MIN <= hi_word(s) <= i32::MAX,
{
    crate::types::lemma_shr_is_floor_div();
    assert((s >> 32u64) == s / 0x1_0000_0000);
}

/// Arbitrary-order integer lowpass filter with high dynamic range. DC gain is 1.
///
/// Supports order `N = 1` (first-order) and `N = 2` (second-order Butterworth).
///
/// **First-order** (`N = 1`): `k[0] = π * (1 << 31) * f0 / fn`, where `f0` is the 3 dB corner
/// frequency and `fn` is the Nyquist frequency.
///
/// **Second-order Butterworth** (`N = 2`): `k = [k_sq >> 32, -k / q]`, where `q = 1/sqrt(2)`.
///
/// Both variants have zeros at Nyquist.
#[derive(Clone, Debug)]
pub struct IntLowpass<const N: usize> {
    /// Lead/lag gain coefficients in Q1.31 fixed-point.
    pub k: [i32; N],
    /// Wide internal state accumulators.
    state: [i64; N],
}

impl<const N: usize> IntLowpass<N> {
    /// The gain coefficients: the public field `k`. (The state field is private, so contracts
    /// outside this module name `k` through this function.)
    pub closed spec fn gains(&self) -> [i32; N] {
        self.k
    }

    /// The wide internal state accumulators.
    pub closed spec fn state_words(&self) -> Seq<i64> {
        self.state@
    }

    /// Create a new filter from gain coefficients, with a zero state.
    pub fn new(k: [i32; N]) -> (r: Self)
        requires
            N == 1 || N == 2,
        ensures
            r.gains() == k,
            r.state_words() == Seq::new(N as nat, |i: int| 0i64),
    {
        let r = Self { k, state: [0i64; N] };
        assert(r.state@ =~= Seq::new(N as nat, |i: int| 0i64));
        r
    }

    /// Reset internal state to zero.
    pub fn reset(&mut self)
        ensures
            final(self).gains() == old(self).gains(),
            final(self).state_words() == Seq::new(N as nat, |i: int| 0i64),
    {
        self.state = [0i64; N];
        assert(self.state@ =~= Seq::new(N as nat, |i: int| 0i64));
    }

    /// Process a single sample and return the filtered output.
    pub fn process(&mut self, x: i32) -> (y: i32)
        requires
            N == 1 || N == 2,
            lowpass_step_ok(old(self).gains()@, old(self).state_words(), x),
        ensures
            y == lowpass_output(old(self).gains()@, old(self).state_words(), x),
            final(self).state_words() == lowpass_next_state(
                old(self).gains()@,
                old(self).state_words(),
                x,
            ),
            final(self).gains() == old(self).gains(),
    {
        let ghost s = self.state@;
        let ghost k = self.k@;
        proof {
            lemma_hi_word(s[0]);
        }
        let hi0 = (self.state[0] >> 32u64) as i32;
        let e = crate::types::saturate_i32(x as i64 - hi0 as i64);
        proof {
            assert(e == clamp_int(x - hi_word(s[0]), i32::MIN as int, i32::MAX as int));
            crate::types::lemma_mul_abs_bound(e as int, self.k[0] as int, 0x8000_0000);
        }
        if N == 1 {
            let d: i64 = e as i64 * self.k[0] as i64;
            let s0 = self.state[0] + d;
            proof {
                lemma_hi_word(s0);
            }
            let y = (s0 >> 32u64) as i32;
            self.state[0] = s0 + d;
            proof {
                assert(self.state@ =~= lowpass_next_state(k, s, x));
            }
            y
        } else {
            proof {
                lemma_hi_word(s[1]);
                crate::types::lemma_mul_abs_bound(hi_word(s[1]), self.k[1] as int, 0x8000_0000);
            }
            let mut d: i64 = e as i64 * self.k[0] as i64;
            d = d + (self.state[1] >> 32u64) * self.k[1] as i64;
            let s1 = self.state[1] + d;
            let s0 = self.state[0] + s1;
            proof {
                lemma_hi_word(s0);
            }
            let y = (s0 >> 32u64) as i32;
            self.state[0] = s0 + s1;
            self.state[1] = s1 + d;
            proof {
                assert(self.state@ =~= lowpass_next_state(k, s, x));
            }
            y
        }
    }
}

/// DC gain is 1: a filter whose state holds `x * 2^32` in its first word (and 0 in the second)
/// outputs `x` for input `x` and keeps its state.
pub proof fn lemma_int_lowpass_dc_fixed_point(k: Seq<i32>, s: Seq<i64>, x: i32)
    requires
        k.len() == 1 || k.len() == 2,
        s.len() == k.len(),
        s[0] == x * 0x1_0000_0000,
        k.len() == 2 ==> s[1] == 0,
    ensures
        lowpass_step_ok(k, s, x),
        lowpass_output(k, s, x) == x,
        lowpass_next_state(k, s, x) == s,
{
    assert(hi_word(s[0]) == x) by {
        vstd::arithmetic::div_mod::lemma_div_multiples_vanish(x as int, 0x1_0000_0000);
    }
    assert(clamp_int(x - hi_word(s[0]), i32::MIN as int, i32::MAX as int) == 0);
    assert(lowpass_lead(s[0], k[0], x) == 0);
    if k.len() == 2 {
        assert(hi_word(s[1]) == 0);
        vstd::arithmetic::mul::lemma_mul_basics(k[1] as int);
    }
    assert(lowpass_increment(k, s, x) == 0);
    if k.len() == 1 {
        assert(lowpass_next_state(k, s, x) =~= s);
    } else {
        assert(lowpass_next_state(k, s, x) =~= s);
    }
}

} // verus!
