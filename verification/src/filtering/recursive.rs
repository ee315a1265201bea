//! Single-pole, DC-blocker, and recursive moving-average filters.
use vstd::prelude::*;

use super::fir::CircularBuffer;
use crate::types::{clamp_int, q15, saturate_i16, DspSample, MacSample};

verus! {

// --- Single-Pole Recursive Filter (Steven W. Smith, Ch. 19) ---

/// Single-pole recursive filter `y[n] = b0·x[n] + b1·x[n-1] + a1·y[n-1]`, accumulated at full
/// width and narrowed once.
#[derive(Debug, Clone, Copy)]
pub struct SinglePoleFilter<T: MacSample> {
    b0: T,
    b1: T,
    a1: T,
    x1: T,
    y1: T,
}

/// The output of a single-pole step: `b0·x + b1·x1 + a1·y1`, summed in order in the wide
/// accumulator and narrowed.
pub open spec fn single_pole_output<T: MacSample>(taps: (T, T, T), memory: (T, T), x: T) -> T {
    T::spec_from_accum(
        T::spec_madd(
            T::spec_madd(T::spec_madd(T::spec_accum_zero(), x, taps.0), memory.0, taps.1),
            memory.1,
            taps.2,
        ),
    )
}

impl<T: MacSample> SinglePoleFilter<T> {
    /// The coefficients `(b0, b1, a1)`.
    pub closed spec fn taps(self) -> (T, T, T) {
        (self.b0, self.b1, self.a1)
    }

    /// The delayed input and output `(x[n-1], y[n-1])`.
    pub closed spec fn memory(self) -> (T, T) {
        (self.x1, self.y1)
    }

    /// A filter with the given coefficients and a zero history.
    pub fn new(b0: T, b1: T, a1: T) -> (r: Self)
        ensures
            r.taps() == (b0, b1, a1),
            r.memory() == (T::spec_zero(), T::spec_zero()),
    {
        Self { b0, b1, a1, x1: T::zero(), y1: T::zero() }
    }

    /// Filter one sample.
    pub fn process(&mut self, x: T) -> (y: T)
        ensures
            y == single_pole_output(old(self).taps(), old(self).memory(), x),
            final(self).taps() == old(self).taps(),
            final(self).memory() == (x, y),
    {
        let acc = T::madd(T::madd(T::madd(T::accum_zero(), x, self.b0), self.x1, self.b1), self.y1, self.a1);
        let y = T::from_accum(acc);
        self.x1 = x;
        self.y1 = y;
        y
    }

    /// Clear the history.
    pub fn reset(&mut self)
        ensures
            final(self).taps() == old(self).taps(),
            final(self).memory() == (T::spec_zero(), T::spec_zero()),
    {
        self.x1 = T::zero();
        self.y1 = T::zero();
    }
}

impl<T: MacSample> Default for SinglePoleFilter<T> {
    /// All coefficients and the history zero.
    fn default() -> (r: Self)
        ensures
            r.taps() == (T::spec_zero(), T::spec_zero(), T::spec_zero()),
            r.memory() == (T::spec_zero(), T::spec_zero()),
    {
        Self { b0: T::zero(), b1: T::zero(), a1: T::zero(), x1: T::zero(), y1: T::zero() }
    }
}

impl SinglePoleFilter<q15> {
    /// Single-pole low-pass from a Q15 decay `d` (negative read as 0):
    /// `b0 = 32767 - d`, `b1 = 0`, `a1 = d`.
    pub fn lowpass(decay: q15) -> (r: Self)
        ensures
            ({
                let d: int = if decay.0 < 0 { 0 } else { decay.0 as int };
                r.taps() == (q15((0x7fff - d) as i16), q15(0), q15(d as i16))
            }),
            r.memory() == (q15(0), q15(0)),
    {
        let d: i16 = if decay.0 < 0 {
            0
        } else {
            decay.0
        };
        Self::new(q15(32767 - d), q15(0), q15(d))
    }

    /// Single-pole high-pass from the same decay `d` (negative read as 0):
    /// `b0 = (32767 + d) / 2`, `b1 = -b0`, `a1 = d`.
    pub fn highpass(decay: q15) -> (r: Self)
        ensures
            ({
                let d: int = if decay.0 < 0 { 0 } else { decay.0 as int };
                let b0: int = (0x7fff + d) / 2;
                r.taps() == (q15(b0 as i16), q15((-b0) as i16), q15(d as i16))
            }),
            r.memory() == (q15(0), q15(0)),
    {
        let d: i16 = if decay.0 < 0 {
            0
        } else {
            decay.0
        };
        let b0: i16 = ((32767i32 + d as i32) / 2) as i16;
        Self::new(q15(b0), q15(-b0), q15(d))
    }
}

/// High-pass single-pole used as a DC blocker (Smith Ch. 19).
#[derive(Debug, Clone, Copy)]
pub struct DcBlockerQ15 {
    inner: SinglePoleFilter<q15>,
}

impl DcBlockerQ15 {
    /// The underlying high-pass.
    pub closed spec fn filter(self) -> SinglePoleFilter<q15> {
        self.inner
    }

    /// `decay` is the same Q15 factor as [`SinglePoleFilter::highpass`].
    pub fn new(decay: q15) -> (r: Self)
        ensures
            ({
                let d: int = if decay.0 < 0 { 0 } else { decay.0 as int };
                let b0: int = (0x7fff + d) / 2;
                r.filter().taps() == (q15(b0 as i16), q15((-b0) as i16), q15(d as i16))
            }),
            r.filter().memory() == (q15(0), q15(0)),
    {
        Self { inner: SinglePoleFilter::<q15>::highpass(decay) }
    }

    /// Filter one sample.
    pub fn process(&mut self, x: q15) -> (y: q15)
        ensures
            y == single_pole_output(old(self).filter().taps(), old(self).filter().memory(), x),
            final(self).filter().taps() == old(self).filter().taps(),
            final(self).filter().memory() == (x, y),
    {
        self.inner.process(x)
    }

    /// Clear the history.
    pub fn reset(&mut self)
        ensures
            final(self).filter().taps() == old(self).filter().taps(),
            final(self).filter().memory() == (q15(0), q15(0)),
    {
        self.inner.reset();
    }
}

impl Default for DcBlockerQ15 {
    /// A blocker whose coefficients and history are all zero.
    fn default() -> (r: Self)
        ensures
            r.filter().taps() == (q15(0), q15(0), q15(0)),
            r.filter().memory() == (q15(0), q15(0)),
    {
        Self { inner: SinglePoleFilter::default() }
    }
}

// --- Recursive Moving Average Filter (Steven W. Smith, Ch. 15) ---

/// The sum of the values of a sequence of Q15 samples.
pub open spec fn q15_sum(s: Seq<q15>) -> int
    decreases s.len(),
{
    if s.len() == 0 {
        0
    } else {
        q15_sum(s.drop_last()) + s.last().0
    }
}

proof fn lemma_q15_sum_bound(s: Seq<q15>)
    ensures
        -0x8000 * s.len() <= q15_sum(s) <= 0x7fff * s.len(),
    decreases s.len(),
{
    if s.len() > 0 {
        lemma_q15_sum_bound(s.drop_last());
    }
}

proof fn lemma_q15_sum_drop_first(s: Seq<q15>)
    requires
        s.len() > 0,
    ensures
        q15_sum(s) == s[0].0 + q15_sum(s.drop_first()),
    decreases s.len(),
{
    if s.len() > 1 {
        lemma_q15_sum_drop_first(s.drop_last());
        assert(s.drop_last().drop_first() =~= s.drop_first().drop_last());
    } else {
        assert(s.drop_last() =~= Seq::<q15>::empty());
        assert(s.drop_first() =~= Seq::<q15>::empty());
    }
}

/// `N`-point moving average updated recursively: one add and one subtract per sample, whatever
/// `N` is.
#[derive(Debug, Clone)]
pub struct RecursiveMovingAverage<T: MacSample, const N: usize> {
    history: CircularBuffer<T, N>,
    sum: T::Accum,
}

/// `a / b` rounded toward zero.
pub open spec fn trunc_quotient(a: int, b: int) -> int {
    if a < 0 {
        -((-a) / b)
    } else {
        a / b
    }
}

impl<const N: usize> RecursiveMovingAverage<q15, N> {
    /// The samples in the window, oldest first.
    pub closed spec fn window(self) -> Seq<q15> {
        self.history.samples()
    }

    /// The running sum. It is the sum of the window, except for `N == 0`, where it keeps adding
    /// every input.
    pub closed spec fn total(self) -> int {
        self.sum as int
    }

    /// The running sum and the window agree.
    pub closed spec fn wf(self) -> bool {
        &&& self.history.samples().len() <= N
        &&& (N > 0 ==> self.sum == q15_sum(self.history.samples()))
    }

    /// An empty window.
    pub fn new() -> (r: Self)
        ensures
            r.wf(),
            r.window() == Seq::<q15>::empty(),
            r.total() == 0,
    {
        Self { history: CircularBuffer::new(q15(0)), sum: 0 }
    }

    /// Push `x` and return the mean of the window, rounded toward zero (0 for `N == 0`).
    pub fn process(&mut self, x: q15) -> (y: q15)
        requires
            old(self).wf(),
            N < 0x1_0000_0000_0000,
            N == 0 ==> -0x7fff_ffff_ffff_0000 <= old(self).total() <= 0x7fff_ffff_ffff_0000,
        ensures
            final(self).wf(),
            old(self).window().len() <= N,
            final(self).window().len() <= N,
            N > 0 && old(self).window().len() < N ==> final(self).window() == old(
                self,
            ).window().push(x),
            N > 0 && old(self).window().len() == N ==> final(self).window() == old(
                self,
            ).window().drop_first().push(x),
            N == 0 ==> final(self).total() == old(self).total() + x.0 && y == q15(0),
            N > 0 ==> y.0 == trunc_quotient(
                q15_sum(final(self).window()),
                final(self).window().len() as int,
            ),
    {
        let ghost w0 = self.history.samples();
        proof {
            if N > 0 {
                lemma_q15_sum_bound(w0);
            }
        }
        let oldest = if self.history.is_full() {
            match self.history.oldest() {
                Some(v) => v,
                None => q15(0),
            }
        } else {
            q15(0)
        };
        let delta: i64 = x.0 as i64 - oldest.0 as i64;
        proof {
            if N > 0 {
                assert(0x8000 * (N as int) < 0x8000_0000_0000_0000) by (nonlinear_arith)
                    requires N < 0x1_0000_0000_0000;
                if w0.len() == N {
                    lemma_q15_sum_drop_first(w0);
                    lemma_q15_sum_bound(w0.drop_first());
                } else {
                    lemma_q15_sum_bound(w0);
                }
            }
        }
        self.sum = self.sum + delta;
        self.history.push(x);
        proof {
            if N > 0 {
                let w1 = self.history.samples();
                if w0.len() == N {
                    lemma_q15_sum_drop_first(w0);
                    assert(w1.drop_last() =~= w0.drop_first());
                } else {
                    assert(w1.drop_last() =~= w0);
                }
                lemma_q15_sum_bound(w1);
            }
        }
        if self.history.is_empty() {
            q15(0)
        } else {
            let len = self.history.len() as i64;
            let s = self.sum;
            proof {
                assert(N > 0);
                assert(0x8000 * (len as int) < 0x8000_0000_0000_0000) by (nonlinear_arith)
                    requires len < 0x1_0000_0000_0000;
            }
            let q: i64 = if s < 0 {
                -((-s) / len)
            } else {
                s / len
            };
            proof {
                let l = len as int;
                let si = s as int;
                if si < 0 {
                    assert((-si) / l <= 0x8000) by (nonlinear_arith)
                        requires
                            l >= 1,
                            0 < -si <= 0x8000 * l,
                    ;
                } else {
                    assert(si / l <= 0x7fff) by (nonlinear_arith)
                        requires
                            l >= 1,
                            0 <= si <= 0x7fff * l,
                    ;
                }
            }
            q15(q as i16)
        }
    }

    /// Empty the window and the sum.
    pub fn reset(&mut self)
        ensures
            final(self).wf(),
            final(self).window() == Seq::<q15>::empty(),
            final(self).total() == 0,
    {
        self.history.clear(q15(0));
        self.sum = 0;
    }
}

impl<const N: usize> Default for RecursiveMovingAverage<q15, N> {
    /// An empty window.
    fn default() -> (r: Self)
        ensures
            r.wf(),
            r.window() == Seq::<q15>::empty(),
            r.total() == 0,
    {
        Self::new()
    }
}

} // verus!
