//! Finite impulse response filters: the block FIR stage and the real-time circular buffer /
//! delay line.
use vstd::prelude::*;

use super::adaptive::{block_len, push_delay, push_state};
use super::convolution::FixedSample;

verus! {

/// Const-generic zero-allocation circular buffer and delay line for real-time sample streams.
#[derive(Debug, Copy)]
pub struct CircularBuffer<T, const N: usize> {
    buffer: [T; N],
    head: usize,
    count: usize,
}

impl<T, const N: usize> CircularBuffer<T, N> {
    /// The buffer's bookkeeping is consistent: `head` is a slot index and `count <= N`.
    #[verifier::type_invariant]
    spec fn wf(self) -> bool {
        &&& self.count <= N
        &&& (N > 0 ==> self.head < N)
        &&& (N == 0 ==> self.head == 0)
    }
}

impl<T: Copy, const N: usize> Clone for CircularBuffer<T, N> {
    /// A copy of the buffer.
    fn clone(&self) -> (r: Self)
        ensures
            r == *self,
    {
        *self
    }
}

impl<T: Copy, const N: usize> CircularBuffer<T, N> {
    /// The stored samples, oldest first.
    pub closed spec fn samples(self) -> Seq<T> {
        Seq::new(
            self.count as nat,
            |j: int| self.buffer@[((self.head + N - self.count + j) % (N as int))],
        )
    }

    /// Creates a new, empty circular buffer whose slots all hold `init_val`.
    pub fn new(init_val: T) -> (r: Self)
        ensures
            r.samples() == Seq::<T>::empty(),
    {
        let r = Self { buffer: [init_val; N], head: 0, count: 0 };
        assert(r.samples() =~= Seq::<T>::empty());
        r
    }

    /// Pushes a new sample into the buffer, overwriting the oldest sample when full.
    pub fn push(&mut self, sample: T)
        ensures
            old(self).samples().len() <= N,
            final(self).samples().len() <= N,
            N == 0 ==> final(self).samples() == old(self).samples(),
            N > 0 && old(self).samples().len() < N ==> final(self).samples() == old(
                self,
            ).samples().push(sample),
            N > 0 && old(self).samples().len() == N ==> final(self).samples() == old(
                self,
            ).samples().drop_first().push(sample),
    {
        proof {
            use_type_invariant(&*self);
        }
        if N == 0 {
            return;
        }
        let ghost old_s = self.samples();
        let ghost c = self.count as int;
        let ghost h = self.head as int;
        self.buffer[self.head] = sample;
        self.head = (self.head + 1) % N;
        if self.count < N {
            self.count += 1;
        }
        proof {
            let n = N as int;
            let new_s = self.samples();
            lemma_mod_small2(h + 1, n);
            let h1 = (h + 1) % n;
            if c < n {
                assert forall|j: int| 0 <= j < c + 1 implies new_s[j] == old_s.push(sample)[j] by {
                    lemma_mod_small2(h1 + n - (c + 1) + j, n);
                    if j < c {
                        lemma_mod_small2(h + n - c + j, n);
                    }
                }
                assert(new_s =~= old_s.push(sample));
            } else {
                assert forall|j: int| 0 <= j < c implies new_s[j] == old_s.drop_first().push(
                    sample,
                )[j] by {
                    lemma_mod_small2(h1 + n - n + j, n);
                    if j + 1 < c {
                        lemma_mod_small2(h + n - n + (j + 1), n);
                    }
                }
                assert(new_s =~= old_s.drop_first().push(sample));
            }
        }
    }

    /// Gets the sample with historical lag `lag`, where lag 0 is the newest sample.
    /// Returns `None` if `lag >= self.len()`.
    pub fn get(&self, lag: usize) -> (r: Option<T>)
        ensures
            self.samples().len() <= N,
            r == if lag < self.samples().len() {
                Some(self.samples()[self.samples().len() - 1 - lag])
            } else {
                None::<T>
            },
    {
        proof {
            use_type_invariant(self);
        }
        if lag >= self.count || N == 0 {
            return None;
        }
        proof {
            lemma_ring_get(self.head as int, N as int, self.count as int, lag as int);
            lemma_mod_small2(self.head + N - 1 - lag, N as int);
        }
        let idx = if self.head > lag {
            self.head - 1 - lag
        } else {
            self.head + (N - 1 - lag)
        };
        Some(self.buffer[idx])
    }

    /// Returns the most recently pushed sample.
    pub fn latest(&self) -> (r: Option<T>)
        ensures
            self.samples().len() <= N,
            r == if self.samples().len() > 0 {
                Some(self.samples().last())
            } else {
                None::<T>
            },
    {
        self.get(0)
    }

    /// Returns the oldest sample stored in the buffer.
    pub fn oldest(&self) -> (r: Option<T>)
        ensures
            self.samples().len() <= N,
            r == if self.samples().len() > 0 {
                Some(self.samples()[0])
            } else {
                None::<T>
            },
    {
        proof {
            use_type_invariant(self);
        }
        if self.count == 0 {
            None
        } else {
            self.get(self.count - 1)
        }
    }

    /// Returns the number of valid samples currently stored in the buffer.
    pub fn len(&self) -> (r: usize)
        ensures
            r == self.samples().len(),
            r <= N,
    {
        proof {
            use_type_invariant(self);
        }
        self.count
    }

    /// Returns the capacity of the circular buffer (`N`).
    pub fn capacity(&self) -> (r: usize)
        ensures
            r == N,
    {
        N
    }

    /// Returns `true` if the buffer contains no samples.
    pub fn is_empty(&self) -> (r: bool)
        ensures
            r == (self.samples().len() == 0),
    {
        self.count == 0
    }

    /// Returns `true` if the buffer is filled to capacity `N`.
    pub fn is_full(&self) -> (r: bool)
        ensures
            r == (self.samples().len() == N),
    {
        self.count == N
    }

    /// Clears the circular buffer, resetting the sample count and filling every slot with
    /// `reset_val`.
    pub fn clear(&mut self, reset_val: T)
        ensures
            final(self).samples() == Seq::<T>::empty(),
    {
        proof {
            use_type_invariant(&*self);
        }
        self.buffer = [reset_val; N];
        self.head = 0;
        self.count = 0;
        assert(self.samples() =~= Seq::<T>::empty());
    }
}

proof fn lemma_mod_small2(a: int, n: int)
    requires
        n > 0,
        0 <= a < 2 * n,
    ensures
        a % n == (if a < n { a } else { a - n }),
{
    if a < n {
        vstd::arithmetic::div_mod::lemma_fundamental_div_mod_converse(a, n, 0, a);
    } else {
        vstd::arithmetic::div_mod::lemma_fundamental_div_mod_converse(a, n, 1, a - n);
    }
}

proof fn lemma_ring_get(h: int, n: int, c: int, lag: int)
    requires
        0 <= h < n,
        0 < c <= n,
        0 <= lag < c,
    ensures
        lag % n == lag,
        0 <= (h + n - 1 - lag) % n < n,
        (h + n - 1 - lag) % n == (h + n - c + (c - 1 - lag)) % n,
{
    vstd::arithmetic::div_mod::lemma_small_mod(lag as nat, n as nat);
    lemma_mod_small2(h + n - 1 - lag, n);
}

/// After a push, the newest sample is the one pushed and every older one moves back one lag.
pub proof fn lemma_circular_buffer_push_get<T>(before: Seq<T>, after: Seq<T>, sample: T, cap: nat, lag: int)
    requires
        cap > 0,
        before.len() <= cap,
        before.len() < cap ==> after == before.push(sample),
        before.len() == cap ==> after == before.drop_first().push(sample),
        1 <= lag < after.len(),
    ensures
        after.len() > 0,
        after[after.len() - 1] == sample,
        after[after.len() - 1 - lag] == before[before.len() - lag],
{
}


// --- FIR Filter ---

/// Instance structure for the FIR filter, generic over the sample width: the coefficients and
/// the delay line, both in the sample format.
pub struct FirInstance<'a, T: FixedSample> {
    /// Number of filter taps.
    pub num_taps: u16,
    /// Filter coefficients.
    pub coeffs: &'a [T],
    /// Filter state buffer.
    pub state: &'a mut [T],
}

impl<'a, T: FixedSample> FirInstance<'a, T> {
    /// Initializes the instance: the delay line is cleared to zero.
    pub fn init(num_taps: u16, coeffs: &'a [T], state: &'a mut [T]) -> (r: Self)
        ensures
            r.num_taps == num_taps,
            r.coeffs@ == coeffs@,
            r.state@.len() == old(state)@.len(),
            forall|i: int| 0 <= i < r.state@.len() ==> (#[trigger] r.state@[i]).value() == 0,
    {
        let z = T::zero_sample();
        let mut i: usize = 0;
        while i < state.len()
            invariant
                i <= state@.len(),
                state@.len() == old(state)@.len(),
                z.value() == 0,
                forall|j: int| 0 <= j < i ==> (#[trigger] state@[j]).value() == 0,
            decreases state@.len() - i,
        {
            state[i] = z;
            i = i + 1;
        }
        Self { num_taps, coeffs, state }
    }
}

/// `Σ (state[k] · coeffs[k]) >> frac` over the first `n` taps, each product shifted before it is
/// summed.
pub open spec fn fir_sum<T: FixedSample>(state: Seq<T>, coeffs: Seq<T>, n: nat) -> int
    decreases n,
{
    if n == 0 {
        0
    } else {
        fir_sum(state, coeffs, (n - 1) as nat) + (state[n - 1].value() * coeffs[n - 1].value())
            / T::frac_scale()
    }
}

/// The first `n` samples of `src` through the filter: `(state, outputs)`. Each sample is pushed
/// into the delay line and the output is the saturated sum of the taps.
pub open spec fn fir_run<T: FixedSample>(
    state: Seq<T>,
    coeffs: Seq<T>,
    taps: int,
    src: Seq<T>,
    n: nat,
) -> (Seq<T>, Seq<T>)
    decreases n,
{
    if n == 0 {
        (state, Seq::empty())
    } else {
        let prev = fir_run(state, coeffs, taps, src, (n - 1) as nat);
        let s = push_state(prev.0, taps, src[n - 1]);
        (s, prev.1.push(T::from_acc(fir_sum(s, coeffs, taps as nat))))
    }
}

proof fn lemma_fir_run_len<T: FixedSample>(
    state: Seq<T>,
    coeffs: Seq<T>,
    taps: int,
    src: Seq<T>,
    n: nat,
)
    ensures
        fir_run(state, coeffs, taps, src, n).0.len() == state.len(),
        fir_run(state, coeffs, taps, src, n).1.len() == n,
    decreases n,
{
    if n > 0 {
        lemma_fir_run_len(state, coeffs, taps, src, (n - 1) as nat);
    }
}

/// FIR filtering into `dst`, generic over the sample width: each of the first
/// `min(src.len(), dst.len())` samples is pushed into the delay line and filtered by the first
/// `num_taps` coefficients; the rest of `dst` is left alone.
pub fn fir<T: FixedSample>(instance: &mut FirInstance<'_, T>, src: &[T], dst: &mut [T])
    requires
        block_len(src@.len(), old(dst)@.len(), src@.len(), old(dst)@.len()) > 0
            ==> old(instance).state@.len() >= 1,
        old(instance).state@.len() >= old(instance).num_taps,
        old(instance).coeffs@.len() >= old(instance).num_taps,
    ensures
        ({
            let n = block_len(src@.len(), old(dst)@.len(), src@.len(), old(dst)@.len());
            let run = fir_run(
                old(instance).state@,
                old(instance).coeffs@,
                old(instance).num_taps as int,
                src@,
                n,
            );
            &&& final(instance).num_taps == old(instance).num_taps
            &&& final(instance).coeffs@ == old(instance).coeffs@
            &&& final(instance).state@ == run.0
            &&& final(dst)@ == run.1 + old(dst)@.skip(n as int)
        }),
{
    let num_taps = instance.num_taps as usize;
    let block = if src.len() < dst.len() {
        src.len()
    } else {
        dst.len()
    };
    let ghost s0 = instance.state@;
    let ghost c0 = instance.coeffs@;
    let ghost d0 = dst@;
    let ghost taps = num_taps as int;
    let mut i: usize = 0;
    while i < block
        invariant
            i <= block,
            block == block_len(src@.len(), d0.len(), src@.len(), d0.len()),
            block > 0 ==> s0.len() >= 1,
            num_taps == taps,
            taps <= 0xffff,
            instance.num_taps == taps,
            instance.coeffs@ == c0,
            s0.len() >= taps,
            c0.len() >= taps,
            dst@.len() == d0.len(),
            ({
                let run = fir_run(s0, c0, taps, src@, i as nat);
                &&& instance.state@ == run.0
                &&& dst@ == run.1 + d0.skip(i as int)
            }),
        decreases block - i,
    {
        proof {
            lemma_fir_run_len(s0, c0, taps, src@, i as nat);
        }
        let ghost prev = fir_run(s0, c0, taps, src@, i as nat);
        push_delay(instance.state, num_taps, src[i]);
        let mut acc: i64 = 0;
        let mut k: usize = 0;
        while k < num_taps
            invariant
                k <= num_taps,
                num_taps <= 0xffff,
                num_taps <= instance.state@.len(),
                num_taps <= instance.coeffs@.len(),
                acc == fir_sum(instance.state@, instance.coeffs@, k as nat),
                -(k as int) * 0x8000_0000 <= acc <= (k as int) * 0x8000_0000,
            decreases num_taps - k,
        {
            let t = T::product(instance.state[k], instance.coeffs[k]);
            assert((k as int + 1) * 0x8000_0000 <= 0x1_0000 * 0x8000_0000) by (nonlinear_arith)
                requires k < 0xffff;
            acc = acc + t;
            k = k + 1;
        }
        dst[i] = T::saturate(acc);
        proof {
            assert(dst@ =~= prev.1.push(T::from_acc(fir_sum(instance.state@, c0, taps as nat)))
                + d0.skip(i + 1));
        }
        i = i + 1;
    }
}

} // verus!
