//! Zero-allocation composable DSP pipeline and streaming abstraction.
//!
//! Provides the [`DspNode`] trait and pipeline combinators ([`Chain`], [`Gain`], [`Limiter`])
//! for sample-by-sample or block processing, the split configuration/state traits
//! ([`SplitProcess`], [`SplitInplace`]) and typed frame-major / lane-major views of sample
//! buffers.
use core::marker::PhantomData;
use vstd::prelude::*;
use vstd::view::View as _;
use crate::types::{array_of, filled, lemma_array_of, DspSample, SampleFill, q15};

verus! {

// ─────────────────────────────────────────────────────────────────────────────
// Running a step function over a sequence
// ─────────────────────────────────────────────────────────────────────────────

/// Runs the step function `step` over `xs` from state `s`, front to back: the final state and
/// the outputs in input order.
pub open spec fn run_steps<X, Y, S>(step: spec_fn(S, X) -> (S, Y), s: S, xs: Seq<X>) -> (S, Seq<Y>)
    decreases xs.len(),
{
    if xs.len() == 0 {
        (s, Seq::empty())
    } else {
        let (s1, ys) = run_steps(step, s, xs.drop_last());
        let (s2, y) = step(s1, xs.last());
        (s2, ys.push(y))
    }
}

/// Running over one more input extends the run by one step.
pub proof fn lemma_run_steps_push<X, Y, S>(step: spec_fn(S, X) -> (S, Y), s: S, xs: Seq<X>, x: X)
    ensures
        run_steps(step, s, xs.push(x)) == ({
            let (s1, ys) = run_steps(step, s, xs);
            let (s2, y) = step(s1, x);
            (s2, ys.push(y))
        }),
{
    assert(xs.push(x).drop_last() =~= xs);
}

/// Running over `a + b` is running over `a` and then over `b` from where `a` left off.
pub proof fn lemma_run_steps_append<X, Y, S>(
    step: spec_fn(S, X) -> (S, Y),
    s: S,
    a: Seq<X>,
    b: Seq<X>,
)
    ensures
        run_steps(step, s, a + b) == ({
            let (s1, ya) = run_steps(step, s, a);
            let (s2, yb) = run_steps(step, s1, b);
            (s2, ya + yb)
        }),
    decreases b.len(),
{
    if b.len() == 0 {
        assert(a + b =~= a);
        let (s1, ya) = run_steps(step, s, a);
        assert(ya + Seq::<Y>::empty() =~= ya);
    } else {
        let bl = b.drop_last();
        lemma_run_steps_append(step, s, a, bl);
        assert((a + b).drop_last() =~= a + bl);
        let (s1, ya) = run_steps(step, s, a);
        let (s2, yb) = run_steps(step, s1, bl);
        let (s3, y) = step(s2, b.last());
        assert((ya + yb).push(y) =~= ya + yb.push(y));
    }
}

/// The outputs of a run are as many as its inputs.
pub proof fn lemma_run_steps_len<X, Y, S>(step: spec_fn(S, X) -> (S, Y), s: S, xs: Seq<X>)
    ensures
        run_steps(step, s, xs).1.len() == xs.len(),
    decreases xs.len(),
{
    if xs.len() > 0 {
        lemma_run_steps_len(step, s, xs.drop_last());
    }
}

// ─────────────────────────────────────────────────────────────────────────────
// Node traits
// ─────────────────────────────────────────────────────────────────────────────

/// A processing element in a real-time digital signal processing pipeline.
pub trait DspNode<T: Copy>: Sized {
    /// The node after processing `input`, and the sample it produces.
    spec fn spec_process_sample(self, input: T) -> (Self, T);

    /// Process a single input sample and produce one output sample.
    fn process_sample(&mut self, input: T) -> (r: T)
        ensures
            (*final(self), r) == old(self).spec_process_sample(input),
    ;

    /// Process a block of samples from `in_buf` into `out_buf`, over the shorter of the two;
    /// the rest of `out_buf` is left as it was.
    fn process_block(&mut self, in_buf: &[T], out_buf: &mut [T])
        ensures
            ({
                let len = if in_buf@.len() <= old(out_buf)@.len() {
                    in_buf@.len()
                } else {
                    old(out_buf)@.len()
                };
                let (s, ys) = run_steps(
                    |n: Self, x: T| n.spec_process_sample(x),
                    *old(self),
                    in_buf@.subrange(0, len as int),
                );
                &&& *final(self) == s
                &&& final(out_buf)@ == ys + old(out_buf)@.subrange(len as int, old(out_buf)@.len() as int)
            }),
    {
        let len = if in_buf.len() <= out_buf.len() {
            in_buf.len()
        } else {
            out_buf.len()
        };
        let ghost step = |n: Self, x: T| n.spec_process_sample(x);
        let ghost s0 = *self;
        let ghost o0 = out_buf@;
        let mut i: usize = 0;
        while i < len
            invariant
                len <= in_buf@.len(),
                len <= out_buf@.len(),
                out_buf@.len() == o0.len(),
                0 <= i <= len,
                step == (|n: Self, x: T| n.spec_process_sample(x)),
                (*self, out_buf@.subrange(0, i as int)) == run_steps(step, s0, in_buf@.subrange(0, i as int)),
                out_buf@.subrange(len as int, o0.len() as int) == o0.subrange(len as int, o0.len() as int),
            decreases len - i,
        {
            let x = in_buf[i];
            let y = self.process_sample(x);
            out_buf[i] = y;
            proof {
                lemma_run_steps_push(step, s0, in_buf@.subrange(0, i as int), x);
                assert(in_buf@.subrange(0, i as int).push(x) =~= in_buf@.subrange(0, i + 1));
                assert(out_buf@.subrange(0, i + 1) =~= out_buf@.subrange(0, i as int).push(y));
                assert(out_buf@.subrange(len as int, o0.len() as int) =~= o0.subrange(len as int, o0.len() as int));
            }
            i += 1;
        }
        proof {
            assert(out_buf@ =~= out_buf@.subrange(0, len as int) + out_buf@.subrange(len as int, o0.len() as int));
        }
    }

    /// Process a block of samples in place.
    fn process_in_place(&mut self, buf: &mut [T])
        ensures
            (*final(self), final(buf)@) == run_steps(
                |n: Self, x: T| n.spec_process_sample(x),
                *old(self),
                old(buf)@,
            ),
    {
        let ghost step = |n: Self, x: T| n.spec_process_sample(x);
        let ghost s0 = *self;
        let ghost b0 = buf@;
        let n = buf.len();
        let mut i: usize = 0;
        while i < n
            invariant
                n == buf@.len(),
                b0.len() == n,
                0 <= i <= n,
                step == (|n: Self, x: T| n.spec_process_sample(x)),
                (*self, buf@.subrange(0, i as int)) == run_steps(step, s0, b0.subrange(0, i as int)),
                forall|j: int| i <= j < n ==> buf@[j] == b0[j],
            decreases n - i,
        {
            let x = buf[i];
            let y = self.process_sample(x);
            buf[i] = y;
            proof {
                lemma_run_steps_push(step, s0, b0.subrange(0, i as int), x);
                assert(b0.subrange(0, i as int).push(x) =~= b0.subrange(0, i + 1));
                assert(buf@.subrange(0, i + 1) =~= buf@.subrange(0, i as int).push(y));
            }
            i += 1;
        }
        proof {
            assert(buf@.subrange(0, n as int) =~= buf@);
            assert(b0.subrange(0, n as int) =~= b0);
        }
    }

    /// Chains this node with another processing node into a sequential pipeline.
    fn then<Next>(self, next: Next) -> (r: Chain<Self, Next>)
        ensures
            r.first == self,
            r.second == next,
    {
        Chain { first: self, second: next }
    }
}

// ─────────────────────────────────────────────────────────────────────────────
// Process / Inplace
// ─────────────────────────────────────────────────────────────────────────────

/// Single-input synchronous processing with state held in `&mut self`.
pub trait Process<X: Copy, Y = X>: Sized {
    /// The processor after consuming `x`, and the output it produces.
    spec fn spec_process(self, x: X) -> (Self, Y);

    /// Update internal state with a new input sample and produce an output sample.
    fn process(&mut self, x: X) -> (y: Y)
        ensures
            (*final(self), y) == old(self).spec_process(x),
    ;

    /// Process a block of input samples into an output slice of the same length.
    fn block(&mut self, x: &[X], y: &mut [Y])
        requires
            x@.len() == old(y)@.len(),
        ensures
            (*final(self), final(y)@) == run_steps(
                |p: Self, v: X| p.spec_process(v),
                *old(self),
                x@,
            ),
    {
        let ghost step = |p: Self, v: X| p.spec_process(v);
        let ghost s0 = *self;
        let n = x.len();
        let mut i: usize = 0;
        while i < n
            invariant
                n == x@.len(),
                n == y@.len(),
                0 <= i <= n,
                step == (|p: Self, v: X| p.spec_process(v)),
                (*self, y@.subrange(0, i as int)) == run_steps(step, s0, x@.subrange(0, i as int)),
            decreases n - i,
        {
            let xi = x[i];
            let yi = self.process(xi);
            y[i] = yi;
            proof {
                lemma_run_steps_push(step, s0, x@.subrange(0, i as int), xi);
                assert(x@.subrange(0, i as int).push(xi) =~= x@.subrange(0, i + 1));
                assert(y@.subrange(0, i + 1) =~= y@.subrange(0, i as int).push(yi));
            }
            i += 1;
        }
        proof {
            assert(x@.subrange(0, n as int) =~= x@);
            assert(y@.subrange(0, n as int) =~= y@);
        }
    }
}

/// In-place processing where input and output share the same storage.
pub trait Inplace<X: Copy>: Process<X> {
    /// Overwrite slice `xy` with processed output samples.
    fn inplace(&mut self, xy: &mut [X])
        ensures
            (*final(self), final(xy)@) == run_steps(
                |p: Self, v: X| p.spec_process(v),
                *old(self),
                old(xy)@,
            ),
    {
        let ghost step = |p: Self, v: X| p.spec_process(v);
        let ghost s0 = *self;
        let ghost b0 = xy@;
        let n = xy.len();
        let mut i: usize = 0;
        while i < n
            invariant
                n == xy@.len(),
                b0.len() == n,
                0 <= i <= n,
                step == (|p: Self, v: X| p.spec_process(v)),
                (*self, xy@.subrange(0, i as int)) == run_steps(step, s0, b0.subrange(0, i as int)),
                forall|j: int| i <= j < n ==> xy@[j] == b0[j],
            decreases n - i,
        {
            let v = xy[i];
            let w = self.process(v);
            xy[i] = w;
            proof {
                lemma_run_steps_push(step, s0, b0.subrange(0, i as int), v);
                assert(b0.subrange(0, i as int).push(v) =~= b0.subrange(0, i + 1));
                assert(xy@.subrange(0, i + 1) =~= xy@.subrange(0, i as int).push(w));
            }
            i += 1;
        }
        proof {
            assert(xy@.subrange(0, n as int) =~= xy@);
            assert(b0.subrange(0, n as int) =~= b0);
        }
    }
}

// ─────────────────────────────────────────────────────────────────────────────
// Split configuration / state
// ─────────────────────────────────────────────────────────────────────────────

/// Processing with split state and configuration: an immutable configuration `&self`
/// operates on an explicit mutable runtime state `&mut S`.
pub trait SplitProcess<X: Copy, Y = X, S = ()>: Sized {
    /// The state after consuming `x` from `state`, and the output produced.
    spec fn spec_process(&self, state: S, x: X) -> (S, Y);

    /// Process an input into an output using explicit state `state`.
    fn process(&self, state: &mut S, x: X) -> (y: Y)
        ensures
            (*final(state), y) == self.spec_process(*old(state), x),
    ;

    /// Process a block of input samples using explicit state `state`.
    fn block(&self, state: &mut S, x: &[X], y: &mut [Y])
        requires
            x@.len() == old(y)@.len(),
        ensures
            (*final(state), final(y)@) == run_steps(
                |s: S, v: X| self.spec_process(s, v),
                *old(state),
                x@,
            ),
    {
        let ghost step = |s: S, v: X| self.spec_process(s, v);
        let ghost s0 = *state;
        let n = x.len();
        let mut i: usize = 0;
        while i < n
            invariant
                n == x@.len(),
                n == y@.len(),
                0 <= i <= n,
                step == (|s: S, v: X| self.spec_process(s, v)),
                (*state, y@.subrange(0, i as int)) == run_steps(step, s0, x@.subrange(0, i as int)),
            decreases n - i,
        {
            let xi = x[i];
            let yi = self.process(state, xi);
            y[i] = yi;
            proof {
                lemma_run_steps_push(step, s0, x@.subrange(0, i as int), xi);
                assert(x@.subrange(0, i as int).push(xi) =~= x@.subrange(0, i + 1));
                assert(y@.subrange(0, i + 1) =~= y@.subrange(0, i as int).push(yi));
            }
            i += 1;
        }
        proof {
            assert(x@.subrange(0, n as int) =~= x@);
            assert(y@.subrange(0, n as int) =~= y@);
        }
    }
}

/// In-place processing with split state and configuration.
pub trait SplitInplace<X: Copy, S = ()>: SplitProcess<X, X, S> {
    /// Process slice `xy` in place using explicit state `state`.
    fn inplace(&self, state: &mut S, xy: &mut [X])
        ensures
            (*final(state), final(xy)@) == run_steps(
                |s: S, v: X| self.spec_process(s, v),
                *old(state),
                old(xy)@,
            ),
    {
        let ghost step = |s: S, v: X| self.spec_process(s, v);
        let ghost s0 = *state;
        let ghost b0 = xy@;
        let n = xy.len();
        let mut i: usize = 0;
        while i < n
            invariant
                n == xy@.len(),
                b0.len() == n,
                0 <= i <= n,
                step == (|s: S, v: X| self.spec_process(s, v)),
                (*state, xy@.subrange(0, i as int)) == run_steps(step, s0, b0.subrange(0, i as int)),
                forall|j: int| i <= j < n ==> xy@[j] == b0[j],
            decreases n - i,
        {
            let v = xy[i];
            let w = self.process(state, v);
            xy[i] = w;
            proof {
                lemma_run_steps_push(step, s0, b0.subrange(0, i as int), v);
                assert(b0.subrange(0, i as int).push(v) =~= b0.subrange(0, i + 1));
                assert(xy@.subrange(0, i + 1) =~= xy@.subrange(0, i as int).push(w));
            }
            i += 1;
        }
        proof {
            assert(xy@.subrange(0, n as int) =~= xy@);
            assert(b0.subrange(0, n as int) =~= b0);
        }
    }
}

/// Combines an immutable configuration and a mutable state into an ordinary [`Process`].
#[derive(Debug, Clone, Copy, Default, PartialEq)]
pub struct Split<C, S> {
    /// Node configuration.
    pub config: C,
    /// Processing state.
    pub state: S,
}

impl<C, S> Split<C, S> {
    /// Creates a new instance.
    pub fn new(config: C, state: S) -> (r: Self)
        ensures
            r.config == config,
            r.state == state,
    {
        Self { config, state }
    }
}

impl<C, S, X: Copy, Y> Process<X, Y> for Split<C, S> where C: SplitProcess<X, Y, S> {
    open spec fn spec_process(self, x: X) -> (Self, Y) {
        let (s, y) = self.config.spec_process(self.state, x);
        (Split { config: self.config, state: s }, y)
    }

    fn process(&mut self, x: X) -> (y: Y) {
        self.config.process(&mut self.state, x)
    }
}

/// Running a [`Split`] over a block is running its configuration over the block from its state.
pub proof fn lemma_split_run<C, S, X: Copy, Y>(config: C, state: S, xs: Seq<X>)
    where
        C: SplitProcess<X, Y, S>,
    ensures
        run_steps(|p: Split<C, S>, v: X| p.spec_process(v), Split { config, state }, xs) == ({
            let (s, ys) = run_steps(|s: S, v: X| config.spec_process(s, v), state, xs);
            (Split { config, state: s }, ys)
        }),
    decreases xs.len(),
{
    if xs.len() > 0 {
        lemma_split_run::<C, S, X, Y>(config, state, xs.drop_last());
    }
}

impl<C, S, X: Copy> Inplace<X> for Split<C, S> where C: SplitInplace<X, S> {
    fn inplace(&mut self, xy: &mut [X]) {
        proof {
            lemma_split_run::<C, S, X, X>(self.config, self.state, xy@);
        }
        self.config.inplace(&mut self.state, xy);
    }
}

impl<T: Copy, C, S> DspNode<T> for Split<C, S> where C: SplitProcess<T, T, S> {
    open spec fn spec_process_sample(self, input: T) -> (Self, T) {
        let (s, y) = self.config.spec_process(self.state, input);
        (Split { config: self.config, state: s }, y)
    }

    fn process_sample(&mut self, input: T) -> (r: T) {
        self.config.process(&mut self.state, input)
    }
}

impl<C> Split<C, ()> {
    /// A configuration-only split.
    pub fn stateless(config: C) -> (r: Self)
        ensures
            r.config == config,
    {
        Self::new(config, ())
    }
}

/// Marks a value as *state* rather than configuration.
#[derive(Debug, Clone, Copy, Default, PartialEq, Eq)]
pub struct Unsplit<P>(pub P);

impl<S> Split<(), Unsplit<S>> {
    /// A state-only split.
    pub fn stateful(state: S) -> (r: Self)
        ensures
            r.state == Unsplit(state),
    {
        Self::new((), Unsplit(state))
    }
}

/// Multi-channel wrapper where one shared configuration operates across `N` independent state
/// lanes.
#[derive(Debug, Clone, Copy, Default, PartialEq)]
pub struct Lanes<C>(pub C);

impl<C> Lanes<C> {
    /// Creates a new instance.
    pub fn new(config: C) -> (r: Self)
        ensures
            r.0 == config,
    {
        Self(config)
    }

    /// The shared configuration.
    pub fn into_inner(self) -> (r: C)
        ensures
            r == self.0,
    {
        self.0
    }
}

/// Lane `i` of a lane-wise step: lane `i`'s state and output after `step_i` consumed `x[i]`.
pub open spec fn lanes_related<X, Y, S, const N: usize>(
    step: spec_fn(int, S, X) -> (S, Y),
    s0: [S; N],
    x: [X; N],
    s1: [S; N],
    y: [Y; N],
) -> bool {
    forall|i: int|
        0 <= i < N ==> (#[trigger] s1@[i], y@[i]) == step(i, s0@[i], x@[i])
}

/// The lane-wise application of `step`: every lane runs independently on its own input.
pub open spec fn lanes_apply<X, Y, S, const N: usize>(
    step: spec_fn(int, S, X) -> (S, Y),
    s0: [S; N],
    x: [X; N],
) -> ([S; N], [Y; N]) {
    choose|r: ([S; N], [Y; N])| lanes_related(step, s0, x, r.0, r.1)
}

proof fn lemma_lanes_apply<X, Y, S, const N: usize>(
    step: spec_fn(int, S, X) -> (S, Y),
    s0: [S; N],
    x: [X; N],
    s1: [S; N],
    y: [Y; N],
)
    requires
        lanes_related(step, s0, x, s1, y),
    ensures
        lanes_apply(step, s0, x) == (s1, y),
{
    let w = (s1, y);
    assert(lanes_related(step, s0, x, w.0, w.1));
    let r = lanes_apply(step, s0, x);
    assert(lanes_related(step, s0, x, r.0, r.1));
    assert forall|i: int| 0 <= i < N implies r.0@[i] == s1@[i] && r.1@[i] == y@[i] by {
        assert(lanes_related(step, s0, x, r.0, r.1));
        assert(lanes_related(step, s0, x, s1, y));
        assert((r.0@[i], r.1@[i]) == step(i, s0@[i], x@[i]));
        assert((s1@[i], y@[i]) == step(i, s0@[i], x@[i]));
    }
    assert(r.0@ =~= s1@);
    assert(r.1@ =~= y@);
    vstd::array::axiom_array_ext_equal(r.0, s1);
    vstd::array::axiom_array_ext_equal(r.1, y);
}

impl<X: Copy, Y: Copy + Default, C, S, const N: usize> SplitProcess<[X; N], [Y; N], [S; N]> for Lanes<C> where
    C: SplitProcess<X, Y, S>,
 {
    open spec fn spec_process(&self, state: [S; N], x: [X; N]) -> ([S; N], [Y; N]) {
        lanes_apply(|i: int, s: S, v: X| self.0.spec_process(s, v), state, x)
    }

    fn process(&self, state: &mut [S; N], x: [X; N]) -> (y: [Y; N]) {
        let ghost step = |i: int, s: S, v: X| self.0.spec_process(s, v);
        let ghost s0 = *state;
        let mut y: [Y; N] = [Y::default(); N];
        let mut i: usize = 0;
        while i < N
            invariant
                0 <= i <= N,
                step == (|i: int, s: S, v: X| self.0.spec_process(s, v)),
                forall|j: int| 0 <= j < i ==> (#[trigger] state@[j], y@[j]) == step(j, s0@[j], x@[j]),
                forall|j: int| i <= j < N ==> #[trigger] state@[j] == s0@[j],
            decreases N - i,
        {
            let yi = self.0.process(&mut state[i], x[i]);
            y[i] = yi;
            i += 1;
        }
        proof {
            lemma_lanes_apply(step, s0, x, *state, y);
        }
        y
    }
}

/// Parallel dual-branch processing pair (Hilbert pairs, allpass branch pairs, I/Q branches).
#[derive(Debug, Clone, Copy, Default, PartialEq)]
pub struct Pair<C0, C1>(pub C0, pub C1);

impl<C0, C1> Pair<C0, C1> {
    /// Creates a new instance.
    pub fn new(branch0: C0, branch1: C1) -> (r: Self)
        ensures
            r.0 == branch0,
            r.1 == branch1,
    {
        Self(branch0, branch1)
    }
}

/// Two branches, each with its own state, each consuming one input.
pub open spec fn pair_spec<X, Y, S0, S1>(
    step0: spec_fn(S0, X) -> (S0, Y),
    step1: spec_fn(S1, X) -> (S1, Y),
    state: (S0, S1),
    x: [X; 2],
) -> ((S0, S1), [Y; 2]) {
    let (a, ya) = step0(state.0, x@[0]);
    let (b, yb) = step1(state.1, x@[1]);
    ((a, b), [ya, yb])
}

impl<X: Copy, Y: Copy, C0, C1, S0, S1> SplitProcess<[X; 2], [Y; 2], (S0, S1)> for Pair<C0, C1> where
    C0: SplitProcess<X, Y, S0>,
    C1: SplitProcess<X, Y, S1>,
 {
    open spec fn spec_process(&self, state: (S0, S1), x: [X; 2]) -> ((S0, S1), [Y; 2]) {
        pair_spec(|s: S0, v: X| self.0.spec_process(s, v), |s: S1, v: X| self.1.spec_process(s, v), state, x)
    }

    fn process(&self, state: &mut (S0, S1), x: [X; 2]) -> (y: [Y; 2]) {
        let y0 = self.0.process(&mut state.0, x[0]);
        let y1 = self.1.process(&mut state.1, x[1]);
        [y0, y1]
    }
}

/// Offset addition node: `y = x + offset`, saturating.
#[derive(Debug, Clone, Copy, Default, PartialEq)]
pub struct Offset<T>(pub T);

impl<T: DspSample> Process<T, T> for Offset<T> {
    open spec fn spec_process(self, x: T) -> (Self, T) {
        (self, x.spec_sat_add(self.0))
    }

    fn process(&mut self, x: T) -> (y: T) {
        x.sat_add(self.0)
    }
}

impl<T: DspSample> Inplace<T> for Offset<T> {}

impl<T: DspSample, S> SplitProcess<T, T, S> for Offset<T> {
    open spec fn spec_process(&self, state: S, x: T) -> (S, T) {
        (state, x.spec_sat_add(self.0))
    }

    fn process(&self, state: &mut S, x: T) -> (y: T) {
        x.sat_add(self.0)
    }
}

impl<T: DspSample, S> SplitInplace<T, S> for Offset<T> {}

/// Identity passthrough node.
#[derive(Debug, Clone, Copy, Default, PartialEq, Eq)]
pub struct Identity;

impl<X: Copy> Process<X, X> for Identity {
    open spec fn spec_process(self, x: X) -> (Self, X) {
        (self, x)
    }

    fn process(&mut self, x: X) -> (y: X) {
        x
    }
}

impl<X: Copy> Inplace<X> for Identity {}

impl<X: Copy, S> SplitProcess<X, X, S> for Identity {
    open spec fn spec_process(&self, state: S, x: X) -> (S, X) {
        (state, x)
    }

    fn process(&self, state: &mut S, x: X) -> (y: X) {
        x
    }
}

impl<X: Copy, S> SplitInplace<X, S> for Identity {}

/// A sequential composition of two DSP nodes `A` and `B`.
#[derive(Debug, Clone, Copy, Default)]
pub struct Chain<A, B> {
    /// First stage.
    pub first: A,
    /// Second stage.
    pub second: B,
}

impl<T: Copy, A: DspNode<T>, B: DspNode<T>> DspNode<T> for Chain<A, B> {
    open spec fn spec_process_sample(self, input: T) -> (Self, T) {
        let (a, mid) = self.first.spec_process_sample(input);
        let (b, out) = self.second.spec_process_sample(mid);
        (Chain { first: a, second: b }, out)
    }

    fn process_sample(&mut self, input: T) -> (r: T) {
        let intermediate = self.first.process_sample(input);
        self.second.process_sample(intermediate)
    }
}

impl<T: Copy, A: Process<T, T>, B: Process<T, T>> Process<T, T> for Chain<A, B> {
    open spec fn spec_process(self, input: T) -> (Self, T) {
        let (a, mid) = self.first.spec_process(input);
        let (b, out) = self.second.spec_process(mid);
        (Chain { first: a, second: b }, out)
    }

    fn process(&mut self, input: T) -> (y: T) {
        let intermediate = self.first.process(input);
        self.second.process(intermediate)
    }
}

/// Linear gain scaling node.
#[derive(Debug, Clone, Copy, Default)]
pub struct Gain<T> {
    /// Gain.
    pub gain: T,
}

impl<T> Gain<T> {
    /// Creates a new instance.
    pub fn new(gain: T) -> (r: Self)
        ensures
            r.gain == gain,
    {
        Self { gain }
    }
}

impl<T: DspSample> DspNode<T> for Gain<T> {
    open spec fn spec_process_sample(self, input: T) -> (Self, T) {
        (self, input.spec_sat_mul(self.gain))
    }

    fn process_sample(&mut self, input: T) -> (r: T) {
        input.sat_mul(self.gain)
    }
}

impl<T: DspSample> Process<T, T> for Gain<T> {
    open spec fn spec_process(self, input: T) -> (Self, T) {
        (self, input.spec_sat_mul(self.gain))
    }

    fn process(&mut self, input: T) -> (y: T) {
        input.sat_mul(self.gain)
    }
}

impl<T: DspSample> Inplace<T> for Gain<T> {}

impl DspNode<i16> for Gain<i16> {
    /// Raw `i16` samples are scaled as Q1.15 numbers: `(input * gain) >> 15`, saturated.
    open spec fn spec_process_sample(self, input: i16) -> (Self, i16) {
        (self, q15(input).spec_sat_mul(q15(self.gain)).0)
    }

    fn process_sample(&mut self, input: i16) -> (r: i16) {
        q15::from_bits(input).sat_mul(q15::from_bits(self.gain)).to_bits()
    }
}

impl DspNode<i32> for Gain<i32> {
    /// Raw `i32` samples are scaled as Q1.31 numbers: `(input * gain) >> 31`, saturated.
    open spec fn spec_process_sample(self, input: i32) -> (Self, i32) {
        (
            self,
            crate::types::clamp_int(
                (input * self.gain) / 0x8000_0000,
                i32::MIN as int,
                i32::MAX as int,
            ) as i32,
        )
    }

    fn process_sample(&mut self, input: i32) -> (r: i32) {
        proof {
            crate::types::lemma_mul_abs_bound(input as int, self.gain as int, 0x8000_0000);
        }
        let p = input as i64 * self.gain as i64;
        let prod = p >> 31;
        proof {
            crate::types::lemma_shr_is_floor_div();
        }
        assert(prod == p / 0x8000_0000);
        crate::types::saturate_i32(prod)
    }
}

impl<T: Copy, A: Inplace<T>, B: Inplace<T>> Inplace<T> for Chain<A, B> {
    fn inplace(&mut self, xy: &mut [T]) {
        let ghost a0 = self.first;
        let ghost b0 = self.second;
        let ghost x0 = xy@;
        self.first.inplace(xy);
        let ghost mid = xy@;
        self.second.inplace(xy);
        proof {
            lemma_chain_run::<T, A, B>(a0, b0, x0);
        }
    }
}

/// Running a chain over a block is running the first stage over the block and then the second
/// stage over the first stage's outputs.
pub proof fn lemma_chain_run<T: Copy, A: Process<T, T>, B: Process<T, T>>(a: A, b: B, xs: Seq<T>)
    ensures
        ({
            let (a1, mid) = run_steps(|p: A, v: T| p.spec_process(v), a, xs);
            let (b1, out) = run_steps(|p: B, v: T| p.spec_process(v), b, mid);
            run_steps(|p: Chain<A, B>, v: T| p.spec_process(v), Chain { first: a, second: b }, xs)
                == (Chain { first: a1, second: b1 }, out)
        }),
    decreases xs.len(),
{
    if xs.len() > 0 {
        let xl = xs.drop_last();
        lemma_chain_run::<T, A, B>(a, b, xl);
        let (a1, mid) = run_steps(|p: A, v: T| p.spec_process(v), a, xl);
        let (a2, m) = a1.spec_process(xs.last());
        lemma_run_steps_len(|p: A, v: T| p.spec_process(v), a, xl);
        lemma_run_steps_push(|p: B, v: T| p.spec_process(v), b, mid, m);
    }
}

/// Ordering used by [`Limiter`]: a strict "less than" on samples.
pub trait LimitSample: Copy {
    /// `self` orders strictly below `other`.
    spec fn spec_below(self, other: Self) -> bool;

    /// `self` orders strictly below `other`.
    fn below(self, other: Self) -> (r: bool)
        ensures
            r == self.spec_below(other),
    ;
}

impl LimitSample for i8 {
    open spec fn spec_below(self, other: Self) -> bool {
        self < other
    }

    fn below(self, other: Self) -> (r: bool) {
        self < other
    }
}

impl LimitSample for i16 {
    open spec fn spec_below(self, other: Self) -> bool {
        self < other
    }

    fn below(self, other: Self) -> (r: bool) {
        self < other
    }
}

impl LimitSample for i32 {
    open spec fn spec_below(self, other: Self) -> bool {
        self < other
    }

    fn below(self, other: Self) -> (r: bool) {
        self < other
    }
}

impl LimitSample for i64 {
    open spec fn spec_below(self, other: Self) -> bool {
        self < other
    }

    fn below(self, other: Self) -> (r: bool) {
        self < other
    }
}

impl LimitSample for q15 {
    open spec fn spec_below(self, other: Self) -> bool {
        self.0 < other.0
    }

    fn below(self, other: Self) -> (r: bool) {
        self.0 < other.0
    }
}

impl LimitSample for crate::types::q31 {
    open spec fn spec_below(self, other: Self) -> bool {
        self.0 < other.0
    }

    fn below(self, other: Self) -> (r: bool) {
        self.0 < other.0
    }
}

/// Hard saturation limiter node clamping between `[min, max]`.
#[derive(Debug, Clone, Copy, Default)]
pub struct Limiter<T> {
    /// Minimum saturation clamp.
    pub min: T,
    /// Maximum saturation clamp.
    pub max: T,
}

impl<T> Limiter<T> {
    /// Creates a new instance.
    pub fn new(min: T, max: T) -> (r: Self)
        ensures
            r.min == min,
            r.max == max,
    {
        Self { min, max }
    }
}

/// `input` limited to `[min, max]`: `min` below the range, `max` above it, else unchanged.
pub open spec fn limited<T: LimitSample>(min: T, max: T, input: T) -> T {
    if input.spec_below(min) {
        min
    } else if max.spec_below(input) {
        max
    } else {
        input
    }
}

impl<T: LimitSample> DspNode<T> for Limiter<T> {
    open spec fn spec_process_sample(self, input: T) -> (Self, T) {
        (self, limited(self.min, self.max, input))
    }

    fn process_sample(&mut self, input: T) -> (r: T) {
        if input.below(self.min) {
            self.min
        } else if self.max.below(input) {
            self.max
        } else {
            input
        }
    }
}

impl<T: LimitSample> Process<T, T> for Limiter<T> {
    open spec fn spec_process(self, input: T) -> (Self, T) {
        (self, limited(self.min, self.max, input))
    }

    fn process(&mut self, input: T) -> (y: T) {
        if input.below(self.min) {
            self.min
        } else if self.max.below(input) {
            self.max
        } else {
            input
        }
    }
}

impl<T: LimitSample> Inplace<T> for Limiter<T> {}

// ─────────────────────────────────────────────────────────────────────────────
// Typed layout views
// ─────────────────────────────────────────────────────────────────────────────

/// Frame-major layout marker: frames are contiguous and each frame holds `L` lane values.
#[derive(Debug, Clone, Copy, Default, PartialEq, Eq)]
pub struct FrameMajor;

/// Lane-major layout marker: storage is `L` contiguous lane slices of equal length.
#[derive(Debug, Clone, Copy, Default, PartialEq, Eq)]
pub struct LaneMajor;

/// The samples of `frames`, frame after frame.
pub open spec fn flatten_frames<T, const L: usize>(frames: Seq<[T; L]>) -> Seq<T> {
    Seq::new((frames.len() * L) as nat, |k: int| frames[k / (L as int)]@[k % (L as int)])
}

#[verifier::external_body]
fn flatten_ref<'a, T, const L: usize>(frames: &'a [[T; L]]) -> (r: &'a [T])
    requires
        frames@.len() * L <= usize::MAX,
    ensures
        r@ == flatten_frames(frames@),
{
    frames.as_flattened()
}

#[verifier::external_body]
fn flatten_mut<'a, T, const L: usize>(frames: &'a mut [[T; L]]) -> (r: &'a mut [T])
    requires
        old(frames)@.len() * L <= usize::MAX,
    ensures
        r@ == flatten_frames(old(frames)@),
        final(frames)@.len() == old(frames)@.len(),
        final(r)@.len() == r@.len(),
        flatten_frames(final(frames)@) == final(r)@,
{
    frames.as_flattened_mut()
}

#[verifier::external_body]
fn chunk_ref<'a, T, const L: usize>(flat: &'a [T]) -> (r: (&'a [[T; L]], &'a [T]))
    requires
        L > 0,
    ensures
        r.0@.len() == flat@.len() as int / (L as int),
        flatten_frames(r.0@) == flat@.subrange(0, r.0@.len() * L),
        r.1@ == flat@.subrange(r.0@.len() * L, flat@.len() as int),
{
    flat.as_chunks::<L>()
}

#[verifier::external_body]
fn chunk_mut<'a, T, const L: usize>(flat: &'a mut [T]) -> (r: (&'a mut [[T; L]], &'a mut [T]))
    requires
        L > 0,
    ensures
        r.0@.len() == old(flat)@.len() as int / (L as int),
        flatten_frames(r.0@) == old(flat)@.subrange(0, r.0@.len() * L),
        r.1@ == old(flat)@.subrange(r.0@.len() * L, old(flat)@.len() as int),
        final(r.0)@.len() == r.0@.len(),
        final(r.1)@.len() == r.1@.len(),
        final(flat)@ == flatten_frames(final(r.0)@) + final(r.1)@,
{
    flat.as_chunks_mut::<L>()
}

/// Immutable typed view of a sample slice: `frames * L` samples read under `Layout`.
#[derive(Debug)]
pub struct View<'a, T, Layout, const L: usize> {
    /// The flat storage.
    pub flat: &'a [T],
    /// Number of frames.
    pub frames: usize,
    /// Layout marker.
    pub _layout: PhantomData<Layout>,
}

/// Mutable typed view of a sample slice. See [`View`].
#[derive(Debug)]
pub struct ViewMut<'a, T, Layout, const L: usize> {
    /// The flat storage.
    pub flat: &'a mut [T],
    /// Number of frames.
    pub frames: usize,
    /// Layout marker.
    pub _layout: PhantomData<Layout>,
}

impl<'a, T, Layout, const L: usize> Clone for View<'a, T, Layout, L> {
    fn clone(&self) -> (r: Self)
        ensures
            r == *self,
    {
        View { flat: self.flat, frames: self.frames, _layout: PhantomData }
    }
}

impl<'a, T, Layout, const L: usize> Copy for View<'a, T, Layout, L> {}

impl<'a, T, Layout, const L: usize> View<'a, T, Layout, L> {
    /// The storage holds exactly `frames * L` samples.
    pub open spec fn wf(self) -> bool {
        self.flat@.len() == self.frames * L
    }

    /// The flat storage behind the view.
    pub fn flat(self) -> (r: &'a [T])
        ensures
            r@ == self.flat@,
    {
        self.flat
    }

    /// Number of frames in the view.
    pub fn frames(self) -> (r: usize)
        ensures
            r == self.frames,
    {
        self.frames
    }

    /// Reinterpret the same storage under another layout marker.
    pub fn as_layout<Other>(self) -> (r: View<'a, T, Other, L>)
        ensures
            r.flat@ == self.flat@,
            r.frames == self.frames,
    {
        View { flat: self.flat, frames: self.frames, _layout: PhantomData }
    }
}

impl<'a, T, Layout, const L: usize> ViewMut<'a, T, Layout, L> {
    /// The storage holds exactly `frames * L` samples.
    pub open spec fn wf(&self) -> bool {
        self.flat@.len() == self.frames * L
    }

    /// The flat storage behind the view.
    pub fn flat(&self) -> (r: &[T])
        ensures
            r@ == old(self.flat)@,
    {
        self.flat
    }

    /// The flat storage behind the view, mutably.
    pub fn flat_mut(&mut self) -> (r: &mut [T])
        ensures
            r@ == old(self).flat@,
            final(self).frames == old(self).frames,
            final(self).flat@ == final(r)@,
    {
        self.flat
    }

    /// Number of frames in the view.
    pub fn frames(&self) -> (r: usize)
        ensures
            r == self.frames,
    {
        self.frames
    }

    /// Reinterpret the same storage under another layout marker.
    pub fn as_layout<Other>(self) -> (r: ViewMut<'a, T, Other, L>)
        ensures
            r.flat@ == old(self.flat)@,
            r.frames == self.frames,
            final(r.flat)@ == final(self.flat)@,
    {
        let ViewMut { flat, frames, .. } = self;
        ViewMut { flat, frames, _layout: PhantomData }
    }
}

impl<'a, T, const L: usize> View<'a, T, FrameMajor, L> {
    /// Borrow a conventional frame-major buffer.
    pub fn from_frames(frames: &'a [[T; L]]) -> (r: Self)
        requires
            frames@.len() * L <= usize::MAX,
        ensures
            r.flat@ == flatten_frames(frames@),
            r.frames == frames@.len(),
            r.wf(),
    {
        View { flat: flatten_ref(frames), frames: frames.len(), _layout: PhantomData }
    }

    /// The view as exact frames.
    pub fn as_frames(self) -> (r: &'a [[T; L]])
        requires
            self.wf(),
            L > 0,
        ensures
            r@.len() == self.frames,
            flatten_frames(r@) == self.flat@,
    {
        let (frames, rest) = chunk_ref::<T, L>(self.flat);
        proof {
            vstd::arithmetic::div_mod::lemma_div_multiples_vanish(self.frames as int, L as int);
            vstd::arithmetic::mul::lemma_mul_is_commutative(self.frames as int, L as int);
            assert(self.flat@.subrange(0, self.flat@.len() as int) =~= self.flat@);
        }
        frames
    }

    /// One frame.
    pub fn frame(self, i: usize) -> (r: &'a [T; L])
        requires
            self.wf(),
            L > 0,
            i < self.frames,
        ensures
            r@ == self.flat@.subrange(i * L, i * L + L),
    {
        let frames = self.as_frames();
        proof {
            lemma_frame_of_flatten(frames@, i as int);
        }
        &frames[i]
    }
}

/// Frame `i` of a flattened frame sequence is the samples `i * L .. i * L + L`.
pub proof fn lemma_frame_of_flatten<T, const L: usize>(frames: Seq<[T; L]>, i: int)
    requires
        0 <= i < frames.len(),
        L > 0,
    ensures
        i * L + L <= frames.len() * L,
        frames[i]@ == flatten_frames(frames).subrange(i * L, i * L + L),
{
    let f = flatten_frames(frames);
    let n = frames.len() as int;
    let l = L as int;
    vstd::arithmetic::mul::lemma_mul_inequality(i + 1, n, l);
    vstd::arithmetic::mul::lemma_mul_is_distributive_add_other_way(l, i, 1);
    assert(f.len() == n * l);
    assert forall|j: int| 0 <= j < l implies #[trigger] frames[i]@[j] == f.subrange(i * l, i * l + l)[j] by {
        vstd::arithmetic::div_mod::lemma_fundamental_div_mod_converse(i * l + j, l, i, j);
        assert(f.subrange(i * l, i * l + l)[j] == f[i * l + j]);
    }
    assert(frames[i]@ =~= f.subrange(i * l, i * l + l));
}

impl<'a, T, const L: usize> ViewMut<'a, T, FrameMajor, L> {
    /// Borrow a conventional frame-major buffer, mutably.
    pub fn from_frames(frames: &'a mut [[T; L]]) -> (r: Self)
        requires
            old(frames)@.len() * L <= usize::MAX,
        ensures
            r.flat@ == flatten_frames(old(frames)@),
            r.frames == old(frames)@.len(),
            r.wf(),
            final(frames)@.len() == old(frames)@.len(),
            flatten_frames(final(frames)@) == final(r.flat)@,
    {
        let len = frames.len();
        ViewMut { flat: flatten_mut(frames), frames: len, _layout: PhantomData }
    }

    /// The view as exact frames.
    pub fn as_frames(&self) -> (r: &[[T; L]])
        requires
            self.wf(),
            L > 0,
        ensures
            r@.len() == self.frames,
            flatten_frames(r@) == old(self.flat)@,
    {
        let (frames, rest) = chunk_ref::<T, L>(&*self.flat);
        proof {
            vstd::arithmetic::div_mod::lemma_div_multiples_vanish(self.frames as int, L as int);
            vstd::arithmetic::mul::lemma_mul_is_commutative(self.frames as int, L as int);
            assert(self.flat@.subrange(0, self.flat@.len() as int) =~= self.flat@);
        }
        frames
    }

    /// The view as exact frames, mutably.
    pub fn as_frames_mut(&mut self) -> (r: &mut [[T; L]])
        requires
            old(self).wf(),
            L > 0,
        ensures
            r@.len() == old(self).frames,
            flatten_frames(r@) == old(self).flat@,
            final(self).frames == old(self).frames,
            final(r)@.len() == r@.len(),
            final(self).flat@ == flatten_frames(final(r)@),
    {
        proof {
            vstd::arithmetic::div_mod::lemma_div_multiples_vanish(self.frames as int, L as int);
            vstd::arithmetic::mul::lemma_mul_is_commutative(self.frames as int, L as int);
            assert(self.flat@.subrange(0, self.flat@.len() as int) =~= self.flat@);
        }
        let (frames, rest) = chunk_mut::<T, L>(self.flat);
        proof {
            assert(rest@.len() == 0);
            assert(flatten_frames(final(frames)@) + final(rest)@ =~= flatten_frames(final(frames)@));
        }
        frames
    }

    /// One frame.
    pub fn frame(&self, i: usize) -> (r: &[T; L])
        requires
            self.wf(),
            L > 0,
            i < self.frames,
        ensures
            r@ == old(self.flat)@.subrange(i * L, i * L + L),
    {
        let frames = self.as_frames();
        proof {
            lemma_frame_of_flatten(frames@, i as int);
        }
        &frames[i]
    }

    /// One frame, mutably.
    pub fn frame_mut(&mut self, i: usize) -> (r: &mut [T; L])
        requires
            old(self).wf(),
            L > 0,
            i < old(self).frames,
        ensures
            r@ == old(self).flat@.subrange(i * L, i * L + L),
            final(self).frames == old(self).frames,
            final(self).flat@ == old(self).flat@.subrange(0, i * L) + final(r)@ + old(
                self,
            ).flat@.subrange(i * L + L, old(self).flat@.len() as int),
    {
        let frames = self.as_frames_mut();
        proof {
            lemma_frame_of_flatten(frames@, i as int);
        }
        let ghost f0 = frames@;
        let ghost fin = final(frames)@;
        let (head, tail) = frames.split_at_mut(i);
        let r = tail.first_mut().unwrap();
        proof {
            assert(final(head)@ == head@);
            assert(fin =~= f0.update(i as int, *final(r)));
            lemma_flatten_update(f0, i as int, *final(r));
        }
        r
    }
}

/// Replacing frame `i` replaces samples `i * L .. i * L + L` of the flattened sequence.
pub proof fn lemma_flatten_update<T, const L: usize>(frames: Seq<[T; L]>, i: int, v: [T; L])
    requires
        0 <= i < frames.len(),
        L > 0,
    ensures
        flatten_frames(frames.update(i, v)) == flatten_frames(frames).subrange(0, i * L) + v@
            + flatten_frames(frames).subrange(i * L + L, frames.len() * L),
{
    let f = flatten_frames(frames);
    let g = flatten_frames(frames.update(i, v));
    let n = frames.len() as int;
    let l = L as int;
    lemma_frame_of_flatten(frames, i);
    let h = f.subrange(0, i * l) + v@ + f.subrange(i * l + l, n * l);
    vstd::arithmetic::mul::lemma_mul_nonnegative(i, l);
    assert(g.len() == h.len());
    assert forall|k: int| 0 <= k < g.len() implies g[k] == h[k] by {
        let q = k / l;
        let r = k % l;
        vstd::arithmetic::div_mod::lemma_fundamental_div_mod(k, l);
        vstd::arithmetic::div_mod::lemma_mod_bound(k, l);
        assert(k == l * q + r);
        vstd::arithmetic::mul::lemma_mul_is_commutative(l, q);
        if q >= n {
            vstd::arithmetic::mul::lemma_mul_inequality(n, q, l);
            assert(false);
        }
        assert(0 <= q < n);
        assert(g[k] == frames.update(i, v)[q]@[r]);
        if k < i * l {
            if q >= i {
                vstd::arithmetic::mul::lemma_mul_inequality(i, q, l);
                assert(false);
            }
            assert(h[k] == f[k]);
            assert(f[k] == frames[q]@[r]);
        } else if k < i * l + l {
            vstd::arithmetic::div_mod::lemma_fundamental_div_mod_converse(k, l, i, k - i * l);
            assert(h[k] == v@[k - i * l]);
        } else {
            if q <= i {
                vstd::arithmetic::mul::lemma_mul_inequality(q, i, l);
                assert(false);
            }
            assert(h[k] == f.subrange(i * l + l, n * l)[k - i * l - l]);
            assert(h[k] == f[k]);
            assert(f[k] == frames[q]@[r]);
        }
    }
    assert(g =~= h);
}

impl<'a, T, const L: usize> View<'a, T, LaneMajor, L> {
    /// Borrow a lane-major view over `frames * L` samples.
    ///
    /// `flat` must hold exactly `frames * L` samples.
    pub fn from_flat(flat: &'a [T], frames: usize) -> (r: Self)
        requires
            frames * L <= usize::MAX,
            flat@.len() == frames * L,
        ensures
            r.flat@ == flat@,
            r.frames == frames,
            r.wf(),
    {
        View { flat, frames, _layout: PhantomData }
    }

    /// One contiguous lane: samples `i * frames .. (i + 1) * frames`.
    pub fn lane(self, i: usize) -> (r: &'a [T])
        requires
            i * self.frames + self.frames <= self.flat@.len(),
        ensures
            r@ == self.flat@.subrange(i * self.frames, i * self.frames + self.frames),
    {
        let n = self.flat.len();
        let start = i * self.frames;
        &self.flat[start..start + self.frames]
    }
}

impl<'a, T, const L: usize> ViewMut<'a, T, LaneMajor, L> {
    /// Borrow a lane-major view over `frames * L` samples, mutably.
    pub fn from_flat(flat: &'a mut [T], frames: usize) -> (r: Self)
        requires
            frames * L <= usize::MAX,
            old(flat)@.len() == frames * L,
        ensures
            r.flat@ == old(flat)@,
            r.frames == frames,
            r.wf(),
            final(r.flat)@ == final(flat)@,
    {
        ViewMut { flat, frames, _layout: PhantomData }
    }

    /// One contiguous lane: samples `i * frames .. (i + 1) * frames`.
    pub fn lane(&self, i: usize) -> (r: &[T])
        requires
            i * self.frames + self.frames <= old(self.flat)@.len(),
        ensures
            r@ == old(self.flat)@.subrange(i * self.frames, i * self.frames + self.frames),
    {
        let flat: &[T] = &*self.flat;
        let n = flat.len();
        let start = i * self.frames;
        &flat[start..start + self.frames]
    }

    /// One contiguous lane, mutably.
    pub fn lane_mut(&mut self, i: usize) -> (r: &mut [T])
        requires
            i * old(self).frames + old(self).frames <= old(self).flat@.len(),
        ensures
            r@ == old(self).flat@.subrange(
                i * old(self).frames,
                i * old(self).frames + old(self).frames,
            ),
            final(self).frames == old(self).frames,
            final(self).flat@ == old(self).flat@.subrange(0, i * old(self).frames) + final(r)@
                + old(self).flat@.subrange(
                i * old(self).frames + old(self).frames,
                old(self).flat@.len() as int,
            ),
    {
        let n = self.flat.len();
        let start = i * self.frames;
        let frames = self.frames;
        let ghost f0 = self.flat@;
        let ghost fin = final(self.flat)@;
        let (head, rest) = self.flat.split_at_mut(start);
        let ghost fin_rest = final(rest)@;
        let (lane, tail) = rest.split_at_mut(frames);
        proof {
            assert(final(head)@ == head@);
            assert(final(tail)@ == tail@);
            assert(fin_rest =~= final(lane)@ + tail@);
        }
        lane
    }
}

// ─────────────────────────────────────────────────────────────────────────────
// View processing traits
// ─────────────────────────────────────────────────────────────────────────────

/// Processing over typed views, the view-aware companion to [`Process`]: an input view `X`
/// into an output view of `T` samples laid out as `Layout` with `L` lanes.
pub trait ViewProcess<X, T, Layout, const L: usize>: Sized {
    /// The input view fits this processor and an output view of `frames` frames.
    spec fn view_fits(&self, x: X, frames: usize) -> bool;

    /// From input `x` and output contents `y0`, the processor becomes `next` and the output
    /// holds `y1`.
    spec fn view_done(&self, x: X, y0: Seq<T>, next: Self, y1: Seq<T>) -> bool;

    /// Process one typed input view into one typed output view.
    fn process_view<'b>(&mut self, x: X, y: ViewMut<'b, T, Layout, L>)
        requires
            y.wf(),
            old(self).view_fits(x, y.frames),
        ensures
            old(self).view_done(x, old(y.flat)@, *final(self), final(y.flat)@),
    ;
}

/// In-place processing over a typed view of `T` samples laid out as `Layout` with `L` lanes.
pub trait ViewInplace<T, Layout, const L: usize>: Sized {
    /// From a view of `frames` frames holding `xy0`, the processor becomes `next` and the view
    /// holds `xy1`.
    spec fn view_done(&self, frames: nat, xy0: Seq<T>, next: Self, xy1: Seq<T>) -> bool;

    /// Process one typed view in place.
    fn inplace_view<'a>(&mut self, xy: ViewMut<'a, T, Layout, L>)
        requires
            xy.wf(),
        ensures
            old(self).view_done(xy.frames as nat, old(xy.flat)@, *final(self), final(xy.flat)@),
    ;
}

/// Split-state processing over typed views, the view-aware companion to [`SplitProcess`].
pub trait SplitViewProcess<X, T, Layout, const L: usize, S = ()>: Sized {
    /// The input view fits this processor and an output view of `frames` frames.
    spec fn view_fits(&self, x: X, frames: usize) -> bool;

    /// From state `s0`, input `x` and output contents `y0`, the state becomes `s1` and the
    /// output holds `y1`.
    spec fn view_done(&self, s0: S, x: X, y0: Seq<T>, s1: S, y1: Seq<T>) -> bool;

    /// Process one typed input view into one typed output view using `state`.
    fn process_view<'b>(&self, state: &mut S, x: X, y: ViewMut<'b, T, Layout, L>)
        requires
            y.wf(),
            self.view_fits(x, y.frames),
        ensures
            self.view_done(*old(state), x, old(y.flat)@, *final(state), final(y.flat)@),
    ;
}

/// In-place split-state processing over a typed view.
pub trait SplitViewInplace<T, Layout, const L: usize, S = ()>: Sized {
    /// From state `s0` and a view of `frames` frames holding `xy0`, the state becomes `s1` and
    /// the view holds `xy1`.
    spec fn view_done(&self, s0: S, frames: nat, xy0: Seq<T>, s1: S, xy1: Seq<T>) -> bool;

    /// Process one typed view in place using `state`.
    fn inplace_view<'a>(&self, state: &mut S, xy: ViewMut<'a, T, Layout, L>)
        requires
            xy.wf(),
        ensures
            self.view_done(*old(state), xy.frames as nat, old(xy.flat)@, *final(state), final(xy.flat)@),
    ;
}

/// Frame-major: each frame is one sample of the underlying processor, so the flat storage is a
/// plain block and this is just [`SplitProcess::block`].
impl<'a, X: Copy, Y, S, T, const L: usize> SplitViewProcess<
    View<'a, X, FrameMajor, L>,
    Y,
    FrameMajor,
    L,
    S,
> for T where T: SplitProcess<X, Y, S> {
    open spec fn view_fits(&self, x: View<'a, X, FrameMajor, L>, frames: usize) -> bool {
        &&& x.wf()
        &&& x.frames == frames
    }

    /// The whole flat buffer is one block run from `s0`.
    open spec fn view_done(
        &self,
        s0: S,
        x: View<'a, X, FrameMajor, L>,
        y0: Seq<Y>,
        s1: S,
        y1: Seq<Y>,
    ) -> bool {
        (s1, y1) == run_steps(|s: S, v: X| self.spec_process(s, v), s0, x.flat@)
    }

    fn process_view<'b>(&self, state: &mut S, x: View<'a, X, FrameMajor, L>, y: ViewMut<'b, Y, FrameMajor, L>) {
        self.block(state, x.flat, y.flat);
    }
}

/// In place, frame-major.
impl<X: Copy, S, T, const L: usize> SplitViewInplace<X, FrameMajor, L, S> for T where
    T: SplitInplace<X, S>,
 {
    /// The whole flat buffer is one block run in place from `s0`.
    open spec fn view_done(&self, s0: S, frames: nat, xy0: Seq<X>, s1: S, xy1: Seq<X>) -> bool {
        (s1, xy1) == run_steps(|s: S, v: X| self.spec_process(s, v), s0, xy0)
    }

    fn inplace_view<'a>(&self, state: &mut S, xy: ViewMut<'a, X, FrameMajor, L>) {
        self.inplace(state, xy.flat);
    }
}

impl<X, T, Layout, C, S, const L: usize> ViewProcess<X, T, Layout, L> for Split<C, S> where
    C: SplitViewProcess<X, T, Layout, L, S>,
 {
    open spec fn view_fits(&self, x: X, frames: usize) -> bool {
        self.config.view_fits(x, frames)
    }

    /// The configuration stays; the state and the output change as the configuration's view
    /// processing says.
    open spec fn view_done(&self, x: X, y0: Seq<T>, next: Self, y1: Seq<T>) -> bool {
        &&& next.config == self.config
        &&& self.config.view_done(self.state, x, y0, next.state, y1)
    }

    fn process_view<'b>(&mut self, x: X, y: ViewMut<'b, T, Layout, L>) {
        self.config.process_view(&mut self.state, x, y);
    }
}

impl<T, Layout, C, S, const L: usize> ViewInplace<T, Layout, L> for Split<C, S> where
    C: SplitViewInplace<T, Layout, L, S>,
 {
    /// The configuration stays; the state and the view change as the configuration's in-place
    /// view processing says.
    open spec fn view_done(&self, frames: nat, xy0: Seq<T>, next: Self, xy1: Seq<T>) -> bool {
        &&& next.config == self.config
        &&& self.config.view_done(self.state, frames, xy0, next.state, xy1)
    }

    fn inplace_view<'a>(&mut self, xy: ViewMut<'a, T, Layout, L>) {
        self.config.inplace_view(&mut self.state, xy);
    }
}

/// Lane `i` of a lane-major flat buffer whose lanes hold `frames` samples each.
pub open spec fn lane_of<T>(flat: Seq<T>, frames: int, i: int) -> Seq<T> {
    flat.subrange(i * frames, i * frames + frames)
}

/// The lane boundaries of `n` lanes of `frames` samples lie inside a buffer of `n * frames`.
proof fn lemma_lane_bounds(i: int, n: int, frames: int)
    requires
        0 <= i < n,
        0 <= frames,
    ensures
        0 <= i * frames,
        i * frames + frames <= n * frames,
        (i + 1) * frames == i * frames + frames,
{
    vstd::arithmetic::mul::lemma_mul_inequality(i + 1, n, frames);
    vstd::arithmetic::mul::lemma_mul_is_distributive_add_other_way(frames, i, 1);
    vstd::arithmetic::mul::lemma_mul_is_commutative(frames, n);
    vstd::arithmetic::mul::lemma_mul_is_commutative(frames, i);
    vstd::arithmetic::mul::lemma_mul_nonnegative(i, frames);
}

/// A lane of the concatenation of the finished lanes and the next one.
proof fn lemma_lane_of_push<T>(done: Seq<T>, next: Seq<T>, frames: int, i: int, j: int)
    requires
        0 <= j <= i,
        0 <= frames,
        done.len() == i * frames,
        next.len() == frames,
    ensures
        lane_of(done + next, frames, j) == if j < i {
            lane_of(done, frames, j)
        } else {
            next
        },
{
    lemma_lane_bounds(j, i + 1, frames);
    vstd::arithmetic::mul::lemma_mul_is_distributive_add_other_way(frames, i, 1);
    vstd::arithmetic::mul::lemma_mul_is_commutative(frames, i);
    if j < i {
        lemma_lane_bounds(j, i, frames);
        assert(lane_of(done + next, frames, j) =~= lane_of(done, frames, j));
    } else {
        assert(lane_of(done + next, frames, j) =~= next);
    }
}

// Lane-major views: each lane is one contiguous run, so it is one block of its own.
impl<'a, X: Copy, Y, C, S, const N: usize> SplitViewProcess<
    View<'a, X, LaneMajor, N>,
    Y,
    LaneMajor,
    N,
    [S; N],
> for Lanes<C> where C: SplitProcess<X, Y, S> {
    open spec fn view_fits(&self, x: View<'a, X, LaneMajor, N>, frames: usize) -> bool {
        &&& x.wf()
        &&& x.frames == frames
    }

    /// Every lane is its own block, run by the shared configuration from that lane's state.
    open spec fn view_done(
        &self,
        s0: [S; N],
        x: View<'a, X, LaneMajor, N>,
        y0: Seq<Y>,
        s1: [S; N],
        y1: Seq<Y>,
    ) -> bool {
        &&& y1.len() == y0.len()
        &&& forall|i: int|
            0 <= i < N ==> (s1[i], #[trigger] lane_of(y1, x.frames as int, i)) == run_steps(
                |s: S, v: X| self.0.spec_process(s, v),
                s0[i],
                lane_of(x.flat@, x.frames as int, i),
            )
    }

    fn process_view<'b>(&self, state: &mut [S; N], x: View<'a, X, LaneMajor, N>, y: ViewMut<'b, Y, LaneMajor, N>) {
        let frames = x.frames;
        let ghost fin = final(y.flat)@;
        let ghost y0 = y.flat@;
        let ghost s0 = *state;
        let ghost step = |s: S, v: X| self.0.spec_process(s, v);
        let mut rest: &mut [Y] = y.flat;
        let ghost mut done: Seq<Y> = Seq::empty();
        let mut i: usize = 0;
        proof {
            vstd::arithmetic::mul::lemma_mul_is_commutative(frames as int, N as int);
            assert(rest@ =~= y0.subrange(0, N * frames));
        }
        while i < N
            invariant
                0 <= i <= N,
                x.wf(),
                x.frames == frames,
                y0.len() == N * frames,
                rest@ == y0.subrange(i * frames, N * frames),
                fin == done + final(rest)@,
                done.len() == i * frames,
                step == (|s: S, v: X| self.0.spec_process(s, v)),
                forall|j: int|
                    0 <= j < i ==> (state[j], #[trigger] lane_of(done, frames as int, j)) == run_steps(
                        step,
                        s0[j],
                        lane_of(x.flat@, frames as int, j),
                    ),
                forall|j: int| i <= j < N ==> #[trigger] state[j] == s0[j],
            decreases N - i,
        {
            proof {
                lemma_lane_bounds(i as int, N as int, frames as int);
                vstd::arithmetic::mul::lemma_mul_is_commutative(frames as int, N as int);
            }
            let xi = x.lane(i);
            let (lane, tail) = rest.split_at_mut(frames);
            let ghost s_i = state[i as int];
            let ghost before = *state;
            self.0.block(&mut state[i], xi, lane);
            proof {
                lemma_run_steps_len(step, s_i, xi@);
                let out = lane@;
                assert forall|j: int| 0 <= j < i + 1 implies (state[j], #[trigger] lane_of(
                    done + out,
                    frames as int,
                    j,
                )) == run_steps(step, s0[j], lane_of(x.flat@, frames as int, j)) by {
                    lemma_lane_of_push(done, out, frames as int, i as int, j);
                    if j < i {
                        assert(state[j] == before[j]);
                    }
                }
                done = done + out;
                vstd::arithmetic::mul::lemma_mul_is_distributive_add_other_way(frames as int, i as int, 1);
                vstd::arithmetic::mul::lemma_mul_is_commutative(frames as int, i as int);
                vstd::arithmetic::mul::lemma_mul_is_commutative(frames as int, i + 1);
            }
            rest = tail;
            i += 1;
        }
        proof {
            assert(rest@.len() == 0);
            assert(fin =~= done);
        }
    }
}

impl<X: Copy, C, S, const N: usize> SplitViewInplace<X, LaneMajor, N, [S; N]> for Lanes<C> where
    C: SplitInplace<X, S>,
 {
    /// Every lane is its own block, run in place by the shared configuration from that lane's
    /// state.
    open spec fn view_done(&self, s0: [S; N], frames: nat, xy0: Seq<X>, s1: [S; N], xy1: Seq<X>) -> bool {
        &&& xy1.len() == xy0.len()
        &&& forall|i: int|
            0 <= i < N ==> (s1[i], #[trigger] lane_of(xy1, frames as int, i)) == run_steps(
                |s: S, v: X| self.0.spec_process(s, v),
                s0[i],
                lane_of(xy0, frames as int, i),
            )
    }

    fn inplace_view<'a>(&self, state: &mut [S; N], xy: ViewMut<'a, X, LaneMajor, N>) {
        let frames = xy.frames;
        let ghost fin = final(xy.flat)@;
        let ghost x0 = xy.flat@;
        let ghost s0 = *state;
        let ghost step = |s: S, v: X| self.0.spec_process(s, v);
        let mut rest: &mut [X] = xy.flat;
        let ghost mut done: Seq<X> = Seq::empty();
        let mut i: usize = 0;
        proof {
            vstd::arithmetic::mul::lemma_mul_is_commutative(frames as int, N as int);
            assert(rest@ =~= x0.subrange(0, N * frames));
        }
        while i < N
            invariant
                0 <= i <= N,
                x0.len() == N * frames,
                rest@ == x0.subrange(i * frames, N * frames),
                fin == done + final(rest)@,
                done.len() == i * frames,
                step == (|s: S, v: X| self.0.spec_process(s, v)),
                forall|j: int|
                    0 <= j < i ==> (state[j], #[trigger] lane_of(done, frames as int, j)) == run_steps(
                        step,
                        s0[j],
                        lane_of(x0, frames as int, j),
                    ),
                forall|j: int| i <= j < N ==> #[trigger] state[j] == s0[j],
            decreases N - i,
        {
            proof {
                lemma_lane_bounds(i as int, N as int, frames as int);
            }
            let (lane, tail) = rest.split_at_mut(frames);
            let ghost s_i = state[i as int];
            let ghost l0 = lane@;
            let ghost before = *state;
            self.0.inplace(&mut state[i], lane);
            proof {
                lemma_run_steps_len(step, s_i, l0);
                assert(l0 =~= lane_of(x0, frames as int, i as int));
                let out = lane@;
                assert forall|j: int| 0 <= j < i + 1 implies (state[j], #[trigger] lane_of(
                    done + out,
                    frames as int,
                    j,
                )) == run_steps(step, s0[j], lane_of(x0, frames as int, j)) by {
                    lemma_lane_of_push(done, out, frames as int, i as int, j);
                    if j < i {
                        assert(state[j] == before[j]);
                    }
                }
                done = done + out;
                vstd::arithmetic::mul::lemma_mul_is_distributive_add_other_way(frames as int, i as int, 1);
                vstd::arithmetic::mul::lemma_mul_is_commutative(frames as int, i as int);
                vstd::arithmetic::mul::lemma_mul_is_commutative(frames as int, i + 1);
            }
            rest = tail;
            i += 1;
        }
        proof {
            assert(rest@.len() == 0);
            assert(fin =~= done);
        }
    }
}

// ─────────────────────────────────────────────────────────────────────────────
// Composition combinators
// ─────────────────────────────────────────────────────────────────────────────

/// Butterfly: `[a, b] -> [a + b, a - b]`, saturating like the other sample stages.
#[derive(Debug, Clone, Copy, Default, PartialEq, Eq)]
pub struct Butterfly;

impl<T: DspSample> Process<[T; 2], [T; 2]> for Butterfly {
    open spec fn spec_process(self, x: [T; 2]) -> (Self, [T; 2]) {
        (self, [x@[0].spec_sat_add(x@[1]), x@[0].spec_sat_sub(x@[1])])
    }

    fn process(&mut self, x: [T; 2]) -> (y: [T; 2]) {
        let a = x[0];
        let b = x[1];
        [a.sat_add(b), a.sat_sub(b)]
    }
}

impl<T: DspSample> Inplace<[T; 2]> for Butterfly {}

/// Parallel branches over tuple- or array-shaped data: each branch owns one lane and lanes
/// never interact.
#[derive(Debug, Clone, Copy, Default, PartialEq)]
pub struct Parallel<P>(pub P);

impl<P> Parallel<P> {
    /// Creates a new instance.
    pub fn new(inner: P) -> (r: Self)
        ensures
            r.0 == inner,
    {
        Self(inner)
    }
}

impl<X: Copy, Y: Copy, C0, C1, S0, S1> SplitProcess<[X; 2], [Y; 2], (S0, S1)> for Parallel<(C0, C1)> where
    C0: SplitProcess<X, Y, S0>,
    C1: SplitProcess<X, Y, S1>,
 {
    open spec fn spec_process(&self, state: (S0, S1), x: [X; 2]) -> ((S0, S1), [Y; 2]) {
        pair_spec(
            |s: S0, v: X| self.0.0.spec_process(s, v),
            |s: S1, v: X| self.0.1.spec_process(s, v),
            state,
            x,
        )
    }

    fn process(&self, state: &mut (S0, S1), x: [X; 2]) -> (y: [Y; 2]) {
        let y0 = self.0.0.process(&mut state.0, x[0]);
        let y1 = self.0.1.process(&mut state.1, x[1]);
        [y0, y1]
    }
}

impl<X: Copy, Y: Copy + Default, C, S, const N: usize> SplitProcess<[X; N], [Y; N], [S; N]> for Parallel<[C; N]> where
    C: SplitProcess<X, Y, S>,
 {
    open spec fn spec_process(&self, state: [S; N], x: [X; N]) -> ([S; N], [Y; N]) {
        lanes_apply(|i: int, s: S, v: X| self.0@[i].spec_process(s, v), state, x)
    }

    fn process(&self, state: &mut [S; N], x: [X; N]) -> (y: [Y; N]) {
        let ghost step = |i: int, s: S, v: X| self.0@[i].spec_process(s, v);
        let ghost s0 = *state;
        let mut y: [Y; N] = [Y::default(); N];
        let mut i: usize = 0;
        while i < N
            invariant
                0 <= i <= N,
                step == (|i: int, s: S, v: X| self.0@[i].spec_process(s, v)),
                forall|j: int| 0 <= j < i ==> (#[trigger] state@[j], y@[j]) == step(j, s0@[j], x@[j]),
                forall|j: int| i <= j < N ==> #[trigger] state@[j] == s0@[j],
            decreases N - i,
        {
            let yi = self.0[i].process(&mut state[i], x[i]);
            y[i] = yi;
            i += 1;
        }
        proof {
            lemma_lanes_apply(step, s0, x, *state, y);
        }
        y
    }
}

impl<X: Copy, C, S> SplitInplace<X, S> for Parallel<C> where Self: SplitProcess<X, X, S> {}

/// Per-lane configuration: each lane gets its own processor, run over a lane-major buffer.
#[derive(Debug, Clone, Copy, Default, PartialEq)]
pub struct ByLane<C>(pub C);

impl<C> ByLane<C> {
    /// Creates a new instance.
    pub fn new(lanes: C) -> (r: Self)
        ensures
            r.0 == lanes,
    {
        Self(lanes)
    }
}

impl<X: Copy, Y: Copy, C0, C1, S0, S1> SplitProcess<[X; 2], [Y; 2], (S0, S1)> for ByLane<(C0, C1)> where
    C0: SplitProcess<X, Y, S0>,
    C1: SplitProcess<X, Y, S1>,
 {
    open spec fn spec_process(&self, state: (S0, S1), x: [X; 2]) -> ((S0, S1), [Y; 2]) {
        pair_spec(
            |s: S0, v: X| self.0.0.spec_process(s, v),
            |s: S1, v: X| self.0.1.spec_process(s, v),
            state,
            x,
        )
    }

    fn process(&self, state: &mut (S0, S1), x: [X; 2]) -> (y: [Y; 2]) {
        let y0 = self.0.0.process(&mut state.0, x[0]);
        let y1 = self.0.1.process(&mut state.1, x[1]);
        [y0, y1]
    }
}

impl<X: Copy, Y: Copy + Default, C, S, const N: usize> SplitProcess<[X; N], [Y; N], [S; N]> for ByLane<[C; N]> where
    C: SplitProcess<X, Y, S>,
 {
    open spec fn spec_process(&self, state: [S; N], x: [X; N]) -> ([S; N], [Y; N]) {
        lanes_apply(|i: int, s: S, v: X| self.0@[i].spec_process(s, v), state, x)
    }

    fn process(&self, state: &mut [S; N], x: [X; N]) -> (y: [Y; N]) {
        let ghost step = |i: int, s: S, v: X| self.0@[i].spec_process(s, v);
        let ghost s0 = *state;
        let mut y: [Y; N] = [Y::default(); N];
        let mut i: usize = 0;
        while i < N
            invariant
                0 <= i <= N,
                step == (|i: int, s: S, v: X| self.0@[i].spec_process(s, v)),
                forall|j: int| 0 <= j < i ==> (#[trigger] state@[j], y@[j]) == step(j, s0@[j], x@[j]),
                forall|j: int| i <= j < N ==> #[trigger] state@[j] == s0@[j],
            decreases N - i,
        {
            let yi = self.0[i].process(&mut state[i], x[i]);
            y[i] = yi;
            i += 1;
        }
        proof {
            lemma_lanes_apply(step, s0, x, *state, y);
        }
        y
    }
}

impl<'a, X: Copy, Y, C0, C1, S0, S1> SplitViewProcess<
    View<'a, X, LaneMajor, 2>,
    Y,
    LaneMajor,
    2,
    (S0, S1),
> for ByLane<(C0, C1)> where C0: SplitProcess<X, Y, S0>, C1: SplitProcess<X, Y, S1> {
    open spec fn view_fits(&self, x: View<'a, X, LaneMajor, 2>, frames: usize) -> bool {
        &&& x.wf()
        &&& x.frames == frames
    }

    /// Lane 0 is one block run by the first configuration, lane 1 one run by the second.
    open spec fn view_done(
        &self,
        s0: (S0, S1),
        x: View<'a, X, LaneMajor, 2>,
        y0: Seq<Y>,
        s1: (S0, S1),
        y1: Seq<Y>,
    ) -> bool {
        &&& y1.len() == y0.len()
        &&& (s1.0, lane_of(y1, x.frames as int, 0)) == run_steps(
            |s: S0, v: X| self.0.0.spec_process(s, v),
            s0.0,
            lane_of(x.flat@, x.frames as int, 0),
        )
        &&& (s1.1, lane_of(y1, x.frames as int, 1)) == run_steps(
            |s: S1, v: X| self.0.1.spec_process(s, v),
            s0.1,
            lane_of(x.flat@, x.frames as int, 1),
        )
    }

    fn process_view<'b>(&self, state: &mut (S0, S1), x: View<'a, X, LaneMajor, 2>, y: ViewMut<'b, Y, LaneMajor, 2>) {
        let frames = x.frames;
        let ghost fin = final(y.flat)@;
        let x0 = x.lane(0);
        let x1 = x.lane(1);
        let flat: &mut [Y] = y.flat;
        let (y0, y1) = flat.split_at_mut(frames);
        let ghost s_0 = state.0;
        let ghost s_1 = state.1;
        self.0.0.block(&mut state.0, x0, y0);
        self.0.1.block(&mut state.1, x1, y1);
        proof {
            lemma_run_steps_len(|s: S0, v: X| self.0.0.spec_process(s, v), s_0, x0@);
            lemma_run_steps_len(|s: S1, v: X| self.0.1.spec_process(s, v), s_1, x1@);
            assert(lane_of(fin, frames as int, 0) =~= y0@);
            assert(lane_of(fin, frames as int, 1) =~= y1@);
        }
    }
}

impl<'a, X: Copy, Y, C, S, const N: usize> SplitViewProcess<
    View<'a, X, LaneMajor, N>,
    Y,
    LaneMajor,
    N,
    [S; N],
> for ByLane<[C; N]> where C: SplitProcess<X, Y, S> {
    open spec fn view_fits(&self, x: View<'a, X, LaneMajor, N>, frames: usize) -> bool {
        &&& x.wf()
        &&& x.frames == frames
    }

    /// Lane `i` is one block run by configuration `i` from state `i`.
    open spec fn view_done(
        &self,
        s0: [S; N],
        x: View<'a, X, LaneMajor, N>,
        y0: Seq<Y>,
        s1: [S; N],
        y1: Seq<Y>,
    ) -> bool {
        &&& y1.len() == y0.len()
        &&& forall|i: int|
            0 <= i < N ==> (s1[i], #[trigger] lane_of(y1, x.frames as int, i)) == run_steps(
                |s: S, v: X| self.0[i].spec_process(s, v),
                s0[i],
                lane_of(x.flat@, x.frames as int, i),
            )
    }

    fn process_view<'b>(&self, state: &mut [S; N], x: View<'a, X, LaneMajor, N>, y: ViewMut<'b, Y, LaneMajor, N>) {
        let frames = x.frames;
        let ghost fin = final(y.flat)@;
        let ghost y0 = y.flat@;
        let ghost s0 = *state;
        let mut rest: &mut [Y] = y.flat;
        let ghost mut done: Seq<Y> = Seq::empty();
        let mut i: usize = 0;
        proof {
            vstd::arithmetic::mul::lemma_mul_is_commutative(frames as int, N as int);
            assert(rest@ =~= y0.subrange(0, N * frames));
        }
        while i < N
            invariant
                0 <= i <= N,
                x.wf(),
                x.frames == frames,
                y0.len() == N * frames,
                rest@ == y0.subrange(i * frames, N * frames),
                fin == done + final(rest)@,
                done.len() == i * frames,
                forall|j: int|
                    0 <= j < i ==> (state[j], #[trigger] lane_of(done, frames as int, j)) == run_steps(
                        |s: S, v: X| self.0[j].spec_process(s, v),
                        s0[j],
                        lane_of(x.flat@, frames as int, j),
                    ),
                forall|j: int| i <= j < N ==> #[trigger] state[j] == s0[j],
            decreases N - i,
        {
            proof {
                lemma_lane_bounds(i as int, N as int, frames as int);
                vstd::arithmetic::mul::lemma_mul_is_commutative(frames as int, N as int);
            }
            let xi = x.lane(i);
            let (lane, tail) = rest.split_at_mut(frames);
            let ghost s_i = state[i as int];
            let ghost before = *state;
            self.0[i].block(&mut state[i], xi, lane);
            proof {
                lemma_run_steps_len(|s: S, v: X| self.0[i as int].spec_process(s, v), s_i, xi@);
                let out = lane@;
                assert forall|j: int| 0 <= j < i + 1 implies (state[j], #[trigger] lane_of(
                    done + out,
                    frames as int,
                    j,
                )) == run_steps(
                    |s: S, v: X| self.0[j].spec_process(s, v),
                    s0[j],
                    lane_of(x.flat@, frames as int, j),
                ) by {
                    lemma_lane_of_push(done, out, frames as int, i as int, j);
                    if j < i {
                        assert(state[j] == before[j]);
                    }
                }
                done = done + out;
                vstd::arithmetic::mul::lemma_mul_is_distributive_add_other_way(frames as int, i as int, 1);
                vstd::arithmetic::mul::lemma_mul_is_commutative(frames as int, i as int);
                vstd::arithmetic::mul::lemma_mul_is_commutative(frames as int, i + 1);
            }
            rest = tail;
            i += 1;
        }
        proof {
            assert(rest@.len() == 0);
            assert(fin =~= done);
        }
    }
}

/// Runs a chunk processor once per frame of a frame-major view.
#[derive(Debug, Clone, Copy, Default, PartialEq, Eq)]
pub struct PerFrame<C>(pub C);

impl<C, S> Split<C, S> {
    /// Wrap the configuration in [`PerFrame`], so it runs once per frame of a frame-major view.
    pub fn per_frame(self) -> (r: Split<PerFrame<C>, S>)
        ensures
            r.config == PerFrame(self.config),
            r.state == self.state,
    {
        Split::new(PerFrame(self.config), self.state)
    }
}

/// The frame sequence whose flattening is `s` (for sample sequences of whole frames).
pub open spec fn unflatten_frames<T, const L: usize>(s: Seq<T>) -> Seq<[T; L]> {
    choose|fs: Seq<[T; L]>| #[trigger] flatten_frames(fs) == s
}

/// Flattening is one-to-one for nonempty frames, so a flattened sequence determines its frames.
pub proof fn lemma_unflatten<T, const L: usize>(fs: Seq<[T; L]>)
    requires
        L > 0,
    ensures
        unflatten_frames::<T, L>(flatten_frames(fs)) == fs,
{
    let s = flatten_frames(fs);
    assert(exists|hs: Seq<[T; L]>| #[trigger] flatten_frames(hs) == s);
    let gs = unflatten_frames::<T, L>(s);
    assert(flatten_frames(gs) == s);
    let l = L as int;
    assert(gs.len() * l == fs.len() * l);
    vstd::arithmetic::mul::lemma_mul_is_commutative(gs.len() as int, l);
    vstd::arithmetic::mul::lemma_mul_is_commutative(fs.len() as int, l);
    vstd::arithmetic::mul::lemma_mul_equality_converse(l, gs.len() as int, fs.len() as int);
    assert forall|i: int| 0 <= i < fs.len() implies gs[i] == fs[i] by {
        lemma_frame_of_flatten(fs, i);
        lemma_frame_of_flatten(gs, i);
        assert(gs[i]@ =~= fs[i]@);
        vstd::array::axiom_array_ext_equal(gs[i], fs[i]);
    }
    assert(gs =~= fs);
}

impl<C, S> Split<PerFrame<C>, S> {
    /// Process a frame-major view one frame at a time, `Q` samples in and `R` samples out.
    pub fn process_frames<'a, 'b, X: Copy, Y, const Q: usize, const R: usize>(
        &mut self,
        x: View<'a, X, FrameMajor, Q>,
        y: ViewMut<'b, Y, FrameMajor, R>,
    ) where C: SplitProcess<[X; Q], [Y; R], S>
        requires
            x.wf(),
            y.wf(),
            x.frames == y.frames,
            Q > 0,
            R > 0,
        ensures
            final(self).config == old(self).config,
            final(self).state == run_steps(
                |s: S, v: [X; Q]| old(self).config.0.spec_process(s, v),
                old(self).state,
                unflatten_frames::<X, Q>(x.flat@),
            ).0,
            final(y.flat)@ == flatten_frames(run_steps(
                |s: S, v: [X; Q]| old(self).config.0.spec_process(s, v),
                old(self).state,
                unflatten_frames::<X, Q>(x.flat@),
            ).1),
    {
        let xf = x.as_frames();
        proof {
            lemma_unflatten(xf@);
            vstd::arithmetic::div_mod::lemma_div_multiples_vanish(y.frames as int, R as int);
            vstd::arithmetic::mul::lemma_mul_is_commutative(y.frames as int, R as int);
        }
        let (yf, rest) = chunk_mut::<Y, R>(y.flat);
        proof {
            assert(rest@.len() == 0);
        }
        self.config.0.block(&mut self.state, xf, yf);
        proof {
            assert(flatten_frames(final(yf)@) + final(rest)@ =~= flatten_frames(final(yf)@));
        }
    }

    /// Process a frame-major view in place, one frame at a time.
    pub fn inplace_frames<'a, X: Copy, const L: usize>(&mut self, xy: ViewMut<'a, X, FrameMajor, L>) where
        C: SplitInplace<[X; L], S>,
        requires
            xy.wf(),
            L > 0,
        ensures
            final(self).config == old(self).config,
            ({
                let (s, ys) = run_steps(
                    |s: S, v: [X; L]| old(self).config.0.spec_process(s, v),
                    old(self).state,
                    unflatten_frames::<X, L>(old(xy.flat)@),
                );
                &&& final(self).state == s
                &&& final(xy.flat)@ == flatten_frames(ys)
            }),
    {
        proof {
            vstd::arithmetic::div_mod::lemma_div_multiples_vanish(xy.frames as int, L as int);
            vstd::arithmetic::mul::lemma_mul_is_commutative(xy.frames as int, L as int);
            assert(xy.flat@.subrange(0, xy.flat@.len() as int) =~= xy.flat@);
        }
        let (f, rest) = chunk_mut::<X, L>(xy.flat);
        proof {
            assert(rest@.len() == 0);
            lemma_unflatten(f@);
        }
        self.config.0.inplace(&mut self.state, f);
        proof {
            assert(flatten_frames(final(f)@) + final(rest)@ =~= flatten_frames(final(f)@));
        }
    }
}

/// Bridges a chunk processor to a block processor.
///
/// Wraps a processor that consumes one `[X; Q]` chunk and emits one `[Y; R]` chunk, exposing it
/// over a block of `[X; N]` into `[Y; M]`, where `N` and `M` hold the same whole number of
/// chunks. A chunk is the unit of work, so a rate-changing stage sees whole chunks rather than a
/// partial one. Pair with [`PerFrame`] to run the same stage once per frame of a frame-major view.
#[derive(Debug, Clone, Copy, Default, PartialEq, Eq)]
pub struct ChunkInOut<P, const Q: usize, const R: usize>(pub P);

/// `Q`-sample chunks in and `R`-sample chunks out tile an `N`-sample block into an `M`-sample one:
/// both chunk sizes are nonzero, both blocks hold whole chunks, and as many of them.
pub open spec fn chunk_shape_ok(q: int, n: int, r: int, m: int) -> bool {
    &&& q > 0
    &&& r > 0
    &&& n % q == 0
    &&& m % r == 0
    &&& n / q == m / r
}

impl<C, S, X: Copy, Y: SampleFill, const Q: usize, const N: usize, const R: usize, const M: usize>
    SplitProcess<[X; N], [Y; M], S> for ChunkInOut<C, Q, R> where
    C: SplitProcess<[X; Q], [Y; R], S>,
 {
    /// The chunks of `x` run through the chunk stage in order; the output is their outputs, chunk
    /// after chunk. A shape that does not tile leaves the state alone and gives fill values.
    open spec fn spec_process(&self, state: S, x: [X; N]) -> (S, [Y; M]) {
        if chunk_shape_ok(Q as int, N as int, R as int, M as int) {
            let (s, ys) = run_steps(
                |s: S, v: [X; Q]| self.0.spec_process(s, v),
                state,
                unflatten_frames::<X, Q>(x@),
            );
            (s, array_of(flatten_frames(ys)))
        } else {
            (state, filled::<Y, M>())
        }
    }

    fn process(&self, state: &mut S, x: [X; N]) -> (y: [Y; M]) {
        let mut y: [Y; M] = [Y::fill(); M];
        if Q == 0 || R == 0 || N % Q != 0 || M % R != 0 || N / Q != M / R {
            proof {
                assert(y@ =~= Seq::new(M as nat, |k: int| Y::spec_fill()));
                lemma_array_of(y);
            }
            return y;
        }
        let xs: &[X] = x.as_slice();
        let (chunks, rest_in) = chunk_ref::<X, Q>(xs);
        proof {
            vstd::arithmetic::div_mod::lemma_fundamental_div_mod(N as int, Q as int);
            vstd::arithmetic::div_mod::lemma_fundamental_div_mod(M as int, R as int);
            vstd::arithmetic::mul::lemma_mul_is_commutative(Q as int, (N / Q) as int);
            vstd::arithmetic::mul::lemma_mul_is_commutative(R as int, (M / R) as int);
            assert(x@.subrange(0, N as int) =~= x@);
            lemma_unflatten(chunks@);
        }
        let ys: &mut [Y] = &mut y;
        let (outs, rest_out) = chunk_mut::<Y, R>(ys);
        self.0.block(state, chunks, outs);
        proof {
            assert(rest_out@.len() == 0);
            assert(flatten_frames(final(outs)@) + final(rest_out)@ =~= flatten_frames(final(outs)@));
            lemma_array_of(y);
        }
        y
    }
}

impl<C, S, X: SampleFill, const N: usize> SplitInplace<[X; N], S> for ChunkInOut<C, 1, 1> where
    C: SplitInplace<[X; 1], S>,
 {
}

} // verus!
