//! Delta-Sigma Modulator (MASH-1^K architecture).
//!
//! Provides noise-shaped output from a `u32` input, useful for DAC oversampling and precision
//! frequency synthesis on embedded targets.
use vstd::prelude::*;
use vstd::arithmetic::power2::pow2;

verus! {

/// `2^32`, the modulus of the accumulators.
pub open spec fn acc_modulus() -> int {
    0x1_0000_0000
}

/// The sum formed in accumulator stage `j` (before wrapping): the old accumulator plus the
/// input (stage 0) or the new value of the previous stage.
pub open spec fn stage_sum(a: Seq<u32>, x: u32, j: nat) -> int
    decreases j,
{
    if j == 0 {
        a[0] + x
    } else {
        a[j as int] + stage_sum(a, x, (j - 1) as nat) % acc_modulus()
    }
}

/// The new value of accumulator `j` after one input.
pub open spec fn stage_acc(a: Seq<u32>, x: u32, j: nat) -> int {
    stage_sum(a, x, j) % acc_modulus()
}

/// The carry out of accumulator `j` after one input (0 or 1).
pub open spec fn stage_carry(a: Seq<u32>, x: u32, j: nat) -> int {
    if stage_sum(a, x, j) >= acc_modulus() {
        1
    } else {
        0
    }
}

/// The error-feedback value after `t` feedback stages of a `k`-stage modulator: the carry of
/// the last stage, then each earlier stage's carry plus the first difference of the value
/// before it (`c` holds those values from the previous input).
pub open spec fn feedback_value(a: Seq<u32>, c: Seq<i8>, x: u32, k: nat, t: nat) -> int
    decreases t,
{
    if t == 0 {
        stage_carry(a, x, (k - 1) as nat)
    } else {
        stage_carry(a, x, (k - 1 - t) as nat) + feedback_value(a, c, x, k, (t - 1) as nat) - c[t
            - 1]
    }
}

/// The output of a `k`-stage modulator in state `(a, c)` for input `x`.
pub open spec fn dsm_output(a: Seq<u32>, c: Seq<i8>, x: u32, k: nat) -> int {
    if k == 0 {
        0
    } else {
        feedback_value(a, c, x, k, (k - 1) as nat)
    }
}

/// The accumulators after input `x`.
pub open spec fn dsm_next_acc(a: Seq<u32>, x: u32, k: nat) -> Seq<u32> {
    Seq::new(k, |j: int| stage_acc(a, x, j as nat) as u32)
}

/// The feedback registers after input `x`: register `t` takes feedback value `t`, and the last
/// register (never read) keeps its value.
pub open spec fn dsm_next_feedback(a: Seq<u32>, c: Seq<i8>, x: u32, k: nat) -> Seq<i8> {
    Seq::new(
        k,
        |t: int|
            if t + 1 < k {
                feedback_value(a, c, x, k, t as nat) as i8
            } else {
                c[t]
            },
    )
}

/// Feedback register `t` stays within `1 - 2^t ..= 2^t`.
pub open spec fn feedback_in_range(c: Seq<i8>, k: nat) -> bool {
    forall|t: int| 0 <= t && t + 1 < k ==> 1 - pow2(t as nat) <= #[trigger] c[t] <= pow2(t as nat)
}

/// The carries of the first `j` stages packed into an integer, stage 0 most significant.
spec fn packed_carries(a: Seq<u32>, x: u32, j: nat) -> int
    decreases j,
{
    if j == 0 {
        0
    } else {
        2 * packed_carries(a, x, (j - 1) as nat) + stage_carry(a, x, (j - 1) as nat)
    }
}

proof fn lemma_packed_bound(a: Seq<u32>, x: u32, j: nat)
    ensures
        0 <= packed_carries(a, x, j) < pow2(j),
    decreases j,
{
    if j > 0 {
        lemma_packed_bound(a, x, (j - 1) as nat);
        vstd::arithmetic::power2::lemma_pow2_unfold(j);
    } else {
        vstd::arithmetic::power2::lemma2_to64();
    }
}

proof fn lemma_shift_in(d: u8, b: u8)
    requires
        d < 128,
        b <= 1,
    ensures
        (d << 1u8) | b == 2 * d + b,
        ((2 * d + b) as u8) & 1 == b,
        ((2 * d + b) as u8) >> 1u8 == d,
{
    assert((d << 1u8) | b == 2 * d + b) by (bit_vector)
        requires
            d < 128,
            b <= 1,
    ;
    assert(((2 * d + b) as u8) & 1 == b && ((2 * d + b) as u8) >> 1u8 == d) by (bit_vector)
        requires
            d < 128,
            b <= 1,
    ;
}

proof fn lemma_feedback_range(a: Seq<u32>, c: Seq<i8>, x: u32, k: nat, t: nat)
    requires
        feedback_in_range(c, k),
        t < k,
    ensures
        1 - pow2(t) <= feedback_value(a, c, x, k, t) <= pow2(t),
    decreases t,
{
    if t > 0 {
        vstd::arithmetic::power2::lemma_pow2_unfold(t);
        lemma_feedback_range(a, c, x, k, (t - 1) as nat);
        assert(1 - pow2((t - 1) as nat) <= c[t - 1] <= pow2((t - 1) as nat));
    } else {
        vstd::arithmetic::power2::lemma2_to64();
    }
}

/// Output range: from feedback registers in range, a `k`-stage modulator outputs a value in
/// `1 - 2^(k-1) ..= 2^(k-1)`.
pub proof fn lemma_dsm_output_range(a: Seq<u32>, c: Seq<i8>, x: u32, k: nat)
    requires
        k >= 1,
        feedback_in_range(c, k),
    ensures
        1 - pow2((k - 1) as nat) <= dsm_output(a, c, x, k) <= pow2((k - 1) as nat),
{
    lemma_feedback_range(a, c, x, k, (k - 1) as nat);
}

proof fn lemma_pow2_small(e: nat)
    requires
        e <= 7,
    ensures
        pow2(e) <= 128,
        pow2(e) * 2 == pow2(e + 1),
{
    vstd::arithmetic::power2::lemma2_to64();
    vstd::arithmetic::power2::lemma_pow2_unfold(e + 1);
}

proof fn lemma_zero_in_range(k: nat)
    ensures
        feedback_in_range(Seq::new(k, |i: int| 0i8), k),
{
    let z = Seq::new(k, |i: int| 0i8);
    assert forall|t: int| 0 <= t && t + 1 < k implies 1 - pow2(t as nat) <= #[trigger] z[t]
        <= pow2(t as nat) by {
        vstd::arithmetic::power2::lemma_pow2_pos(t as nat);
    }
}

/// The sum of the elements of `xs`.
pub open spec fn sum_u32(xs: Seq<u32>) -> int
    decreases xs.len(),
{
    if xs.len() == 0 {
        0
    } else {
        sum_u32(xs.drop_last()) + xs.last()
    }
}

/// A `k`-stage modulator in state `(a, c)` run over the inputs `xs`: the final accumulators, the
/// final feedback registers and the sum of the outputs.
pub open spec fn dsm_run(a: Seq<u32>, c: Seq<i8>, xs: Seq<u32>, k: nat) -> (Seq<u32>, Seq<i8>, int)
    decreases xs.len(),
{
    if xs.len() == 0 {
        (a, c, 0)
    } else {
        let (a1, c1, total) = dsm_run(a, c, xs.drop_last(), k);
        let x = xs.last();
        (
            dsm_next_acc(a1, x, k),
            dsm_next_feedback(a1, c1, x, k),
            total + dsm_output(a1, c1, x, k),
        )
    }
}

/// The part of the modulator state that carries the long-run balance: the first accumulator,
/// plus `2^32` times the last used feedback register when there is one.
pub open spec fn dsm_balance(a: Seq<u32>, c: Seq<i8>, k: nat) -> int {
    if k >= 2 {
        a[0] - acc_modulus() * c[k - 2]
    } else {
        a[0] as int
    }
}

proof fn lemma_next_feedback_in_range(a: Seq<u32>, c: Seq<i8>, x: u32, k: nat)
    requires
        feedback_in_range(c, k),
        k <= 8,
    ensures
        feedback_in_range(dsm_next_feedback(a, c, x, k), k),
{
    let n = dsm_next_feedback(a, c, x, k);
    assert forall|t: int| 0 <= t && t + 1 < k implies 1 - pow2(t as nat) <= #[trigger] n[t]
        <= pow2(t as nat) by {
        lemma_feedback_range(a, c, x, k, t as nat);
        lemma_pow2_small(t as nat);
        lemma_pow2_small((t + 1) as nat);
    }
}

/// One input moves the balance by exactly `x - 2^32 * y`.
proof fn lemma_dsm_step_balance(a: Seq<u32>, c: Seq<i8>, x: u32, k: nat)
    requires
        1 <= k <= 8,
        a.len() == k,
        c.len() == k,
        feedback_in_range(c, k),
    ensures
        acc_modulus() * dsm_output(a, c, x, k) == x + dsm_balance(a, c, k) - dsm_balance(
            dsm_next_acc(a, x, k),
            dsm_next_feedback(a, c, x, k),
            k,
        ),
{
    let m = acc_modulus();
    assert(stage_sum(a, x, 0) == a[0] + x);
    assert(m * stage_carry(a, x, 0) == a[0] + x - stage_acc(a, x, 0));
    if k >= 2 {
        lemma_feedback_range(a, c, x, k, (k - 2) as nat);
        lemma_pow2_small((k - 2) as nat);
        lemma_pow2_small((k - 1) as nat);
        assert(dsm_next_feedback(a, c, x, k)[k - 2] == feedback_value(a, c, x, k, (k - 2) as nat));
        assert(feedback_value(a, c, x, k, (k - 1) as nat) == stage_carry(a, x, 0) + feedback_value(
            a,
            c,
            x,
            k,
            (k - 2) as nat,
        ) - c[k - 2]);
    }
}

/// Long-run average: over any run of inputs, `2^32` times the sum of the outputs equals the sum
/// of the inputs plus the change of a bounded balance term (the first accumulator and, for two
/// or more stages, the last used feedback register), so the mean output tends to `x / 2^32`.
pub proof fn lemma_dsm_long_run_average(a: Seq<u32>, c: Seq<i8>, xs: Seq<u32>, k: nat)
    requires
        1 <= k <= 8,
        a.len() == k,
        c.len() == k,
        feedback_in_range(c, k),
    ensures
        ({
            let (a1, c1, total) = dsm_run(a, c, xs, k);
            &&& acc_modulus() * total == sum_u32(xs) + dsm_balance(a, c, k) - dsm_balance(a1, c1, k)
            &&& a1.len() == k
            &&& c1.len() == k
            &&& feedback_in_range(c1, k)
        }),
    decreases xs.len(),
{
    if xs.len() > 0 {
        lemma_dsm_long_run_average(a, c, xs.drop_last(), k);
        let (a1, c1, total) = dsm_run(a, c, xs.drop_last(), k);
        lemma_dsm_step_balance(a1, c1, xs.last(), k);
        lemma_next_feedback_in_range(a1, c1, xs.last(), k);
        vstd::arithmetic::mul::lemma_mul_is_distributive_add(
            acc_modulus(),
            total,
            dsm_output(a1, c1, xs.last(), k),
        );
    }
}

/// MASH-(1)^K Delta-Sigma Modulator.
///
/// - `K` stages (0 ≤ K ≤ 8; `K = 0` always outputs 0).
/// - Output range: `1 - (1 << (K-1))..=(1 << (K-1))`.
/// - For a constant input `x0`, long-run average output = `x0 / 2^32`.
#[derive(Copy, Clone, Debug, PartialEq, Eq)]
pub struct Dsm<const K: usize> {
    a: [u32; K],
    c: [i8; K],
}

impl<const K: usize> Dsm<K> {
    #[verifier::type_invariant]
    spec fn registers_in_range(self) -> bool {
        feedback_in_range(self.c@, K as nat)
    }

    /// The `K` phase accumulators.
    pub closed spec fn accumulators(&self) -> Seq<u32> {
        self.a@
    }

    /// The `K` error-feedback registers (the last one is never used).
    pub closed spec fn feedback(&self) -> Seq<i8> {
        self.c@
    }

    /// Process one input sample, returning the noise-shaped output.
    ///
    /// With `K == 8` the largest output, `128`, does not fit an `i8`; that input is refused.
    pub fn process(&mut self, x: u32) -> (y: i8)
        requires
            K <= 8,
            K < 8 || dsm_output(old(self).accumulators(), old(self).feedback(), x, K as nat)
                <= i8::MAX,
        ensures
            y == dsm_output(old(self).accumulators(), old(self).feedback(), x, K as nat),
            K == 0 ==> y == 0,
            K > 0 ==> 1 - pow2((K - 1) as nat) <= y <= pow2((K - 1) as nat),
            final(self).accumulators() == dsm_next_acc(old(self).accumulators(), x, K as nat),
            final(self).feedback() == dsm_next_feedback(
                old(self).accumulators(),
                old(self).feedback(),
                x,
                K as nat,
            ),
    {
        proof {
            use_type_invariant(&*self);
        }
        let ghost a0 = self.a@;
        let ghost c0 = self.c@;
        if K == 0 {
            proof {
                assert(self.a@ =~= dsm_next_acc(a0, x, 0));
                assert(self.c@ =~= dsm_next_feedback(a0, c0, x, 0));
            }
            return 0;
        }
        let mut acc = self.a;
        let mut fb = self.c;
        let mut d: u8 = 0;
        let mut carry_in: u32 = x;
        let mut j: usize = 0;
        while j < K
            invariant
                1 <= K <= 8,
                0 <= j <= K,
                acc@.len() == K,
                fb@ == c0,
                forall|i: int| 0 <= i < j ==> acc@[i] == stage_acc(a0, x, i as nat),
                forall|i: int| j <= i < K ==> acc@[i] == a0[i],
                d == packed_carries(a0, x, j as nat),
                j == 0 ==> carry_in == x,
                j > 0 ==> carry_in == stage_acc(a0, x, (j - 1) as nat),
            decreases K - j,
        {
            let sum: u64 = acc[j] as u64 + carry_in as u64;
            let carry: u8 = if sum >= 0x1_0000_0000 {
                1
            } else {
                0
            };
            let new_a: u32 = if sum >= 0x1_0000_0000 {
                (sum - 0x1_0000_0000) as u32
            } else {
                sum as u32
            };
            proof {
                assert(sum == stage_sum(a0, x, j as nat));
                assert(new_a == stage_acc(a0, x, j as nat));
                assert(carry == stage_carry(a0, x, j as nat));
                lemma_packed_bound(a0, x, j as nat);
                vstd::arithmetic::power2::lemma2_to64();
                lemma_pow2_small(j as nat);
                lemma_shift_in(d, carry);
            }
            acc.set(j, new_a);
            d = (d << 1u8) | carry;
            carry_in = new_a;
            j = j + 1;
        }
        proof {
            lemma_packed_bound(a0, x, (K - 1) as nat);
            vstd::arithmetic::power2::lemma2_to64();
            lemma_pow2_small((K - 1) as nat);
            lemma_shift_in(
                packed_carries(a0, x, (K - 1) as nat) as u8,
                stage_carry(a0, x, (K - 1) as nat) as u8,
            );
        }
        let mut y: i8 = (d & 1) as i8;
        let mut ds: u8 = d >> 1u8;
        let mut t: usize = 0;
        while t + 1 < K
            invariant
                1 <= K <= 8,
                0 <= t < K,
                acc@ == dsm_next_acc(a0, x, K as nat),
                fb@.len() == K,
                feedback_in_range(c0, K as nat),
                K < 8 || dsm_output(a0, c0, x, K as nat) <= i8::MAX,
                forall|u: int| 0 <= u < t ==> fb@[u] == feedback_value(
                    a0,
                    c0,
                    x,
                    K as nat,
                    u as nat,
                ),
                forall|u: int| t <= u < K ==> fb@[u] == c0[u],
                y == feedback_value(a0, c0, x, K as nat, t as nat),
                ds == packed_carries(a0, x, (K - 1 - t) as nat),
            decreases K - t,
        {
            let ghost m = (K - 1 - t) as nat;
            proof {
                lemma_packed_bound(a0, x, (m - 1) as nat);
                vstd::arithmetic::power2::lemma2_to64();
                lemma_pow2_small((m - 1) as nat);
                lemma_shift_in(
                    packed_carries(a0, x, (m - 1) as nat) as u8,
                    stage_carry(a0, x, (m - 1) as nat) as u8,
                );
                lemma_feedback_range(a0, c0, x, K as nat, t as nat);
                lemma_feedback_range(a0, c0, x, K as nat, (t + 1) as nat);
                assert(1 - pow2(t as nat) <= c0[t as int] <= pow2(t as nat));
                lemma_pow2_small((t + 1) as nat);
            }
            let bit: i8 = (ds & 1) as i8;
            let old_c: i8 = fb[t];
            let new_y: i8 = (bit + y) - old_c;
            ds = ds >> 1u8;
            fb.set(t, y);
            y = new_y;
            t = t + 1;
        }
        proof {
            lemma_dsm_output_range(a0, c0, x, K as nat);
            assert(acc@ =~= dsm_next_acc(a0, x, K as nat));
            assert(fb@ =~= dsm_next_feedback(a0, c0, x, K as nat));
            assert forall|u: int| 0 <= u && u + 1 < K implies 1 - pow2(u as nat) <= #[trigger] fb@[u]
                <= pow2(u as nat) by {
                lemma_feedback_range(a0, c0, x, K as nat, u as nat);
            }
        }
        self.a = acc;
        self.c = fb;
        y
    }

    /// Reset internal accumulators.
    /// A zeroed modulator: every accumulator and feedback register at 0.
    pub fn new() -> (r: Self)
        ensures
            r.accumulators() == Seq::new(K as nat, |i: int| 0u32),
            r.feedback() == Seq::new(K as nat, |i: int| 0i8),
    {
        proof {
            lemma_zero_in_range(K as nat);
            assert([0i8; K]@ =~= Seq::new(K as nat, |i: int| 0i8));
        }
        let r = Self { a: [0u32; K], c: [0i8; K] };
        proof {
            assert(r.a@ =~= Seq::new(K as nat, |i: int| 0u32));
            assert(r.c@ =~= Seq::new(K as nat, |i: int| 0i8));
        }
        r
    }

    pub fn reset(&mut self)
        ensures
            final(self).accumulators() == Seq::new(K as nat, |i: int| 0u32),
            final(self).feedback() == Seq::new(K as nat, |i: int| 0i8),
    {
        proof {
            use_type_invariant(&*self);
            lemma_zero_in_range(K as nat);
            assert([0i8; K]@ =~= Seq::new(K as nat, |i: int| 0i8));
        }
        self.a = [0u32; K];
        self.c = [0i8; K];
        proof {
            assert(self.a@ =~= Seq::new(K as nat, |i: int| 0u32));
            assert(self.c@ =~= Seq::new(K as nat, |i: int| 0i8));
        }
    }
}

impl<const K: usize> Default for Dsm<K> {
    fn default() -> (r: Self)
        ensures
            r.accumulators() == Seq::new(K as nat, |i: int| 0u32),
            r.feedback() == Seq::new(K as nat, |i: int| 0i8),
    {
        Self::new()
    }
}

} // verus!
