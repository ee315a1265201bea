//! Composable Kalman models: assemble a filter from phases instead of picking one.
//!
//! A filter is a **prediction phase** and a **measurement phase** over a shared [`Estimate`],
//! and both phases are pluggable types:
//!
//! | Piece | Role |
//! | :--- | :--- |
//! | [`Estimate`] | state vector plus its error covariance |
//! | [`Dynamics`] | how the state evolves, and its Jacobian |
//! | [`Transition`] | a [`Dynamics`] plus process noise `Q` |
//! | [`ConstantVelocity`] | the `[[1, dt], [0, 1]]` motion model |
//! | [`ControlModel`] | `F x + B u`, for systems with a control input |
//! | [`Observation`] | scalar measurement row `H` and noise `R` |
//! | [`VectorObservation`] | `M`-dimensional `H` and `R`, for multi-sensor updates |
//! | [`Direct`] | observe a single state component, with no `H` at all |
//! | [`Optional`] | skip the update when a measurement does not arrive |
//! | [`Kalman`] | a phase pair plus its estimate: the running filter |
//!
//! Everything is generic over [`DspSample`]: every sum, difference, product and quotient is the
//! sample format's saturating operation, accumulated left to right in the order the matrix
//! products below spell out.
use vstd::prelude::*;

use crate::types::{array_of, lemma_array_of, DspSample, Status};

verus! {

// ─────────────────────────────────────────────────────────────────────────────
// The matrix algebra the phases are stated in
// ─────────────────────────────────────────────────────────────────────────────

/// The left-to-right saturating sum of `a[k] * b[k]` over the first `n` terms.
pub open spec fn dot_upto<T: DspSample>(a: Seq<T>, b: Seq<T>, n: nat) -> T
    decreases n,
{
    if n == 0 {
        T::spec_zero()
    } else {
        dot_upto(a, b, (n - 1) as nat).spec_sat_add(a[n - 1].spec_sat_mul(b[n - 1]))
    }
}

/// Dot product of two vectors.
pub open spec fn dot_spec<T: DspSample, const N: usize>(a: [T; N], b: [T; N]) -> T {
    dot_upto(a@, b@, N as nat)
}

/// `M v` for `M: R×C`.
pub open spec fn mat_vec_spec<T: DspSample, const R: usize, const C: usize>(
    m: [[T; C]; R],
    v: [T; C],
) -> [T; R] {
    array_of(Seq::new(R as nat, |r: int| dot_spec(m[r], v)))
}

/// Row `r` of `A Bᵀ` for `A: R×K` and `B: C×K`.
pub open spec fn mat_mul_bt_row<T: DspSample, const K: usize, const C: usize>(
    a_row: [T; K],
    b: [[T; K]; C],
) -> [T; C] {
    array_of(Seq::new(C as nat, |c: int| dot_spec(a_row, b[c])))
}

/// `A Bᵀ` for `A: R×K` and `B: C×K`.
pub open spec fn mat_mul_bt_spec<T: DspSample, const R: usize, const K: usize, const C: usize>(
    a: [[T; K]; R],
    b: [[T; K]; C],
) -> [[T; C]; R] {
    array_of(Seq::new(R as nat, |r: int| mat_mul_bt_row(a[r], b)))
}

/// Row `c` of `Mᵀ`: column `c` of `M`.
pub open spec fn column_spec<T, const R: usize, const C: usize>(m: [[T; C]; R], c: int) -> [T; R] {
    array_of(Seq::new(R as nat, |r: int| m[r][c]))
}

/// `Mᵀ`.
pub open spec fn transpose_spec<T, const R: usize, const C: usize>(m: [[T; C]; R]) -> [[T; R]; C] {
    array_of(Seq::new(C as nat, |c: int| column_spec(m, c)))
}

/// `A B` for `A: R×K` and `B: K×C`: each entry is the dot product of a row of `A` with a column
/// of `B`.
pub open spec fn mat_mul_spec<T: DspSample, const R: usize, const K: usize, const C: usize>(
    a: [[T; K]; R],
    b: [[T; C]; K],
) -> [[T; C]; R] {
    mat_mul_bt_spec(a, transpose_spec(b))
}

/// Row `r` of `A + B`.
pub open spec fn vec_add_spec<T: DspSample, const N: usize>(a: [T; N], b: [T; N]) -> [T; N] {
    array_of(Seq::new(N as nat, |i: int| a[i].spec_sat_add(b[i])))
}

/// `A + B`, entry by entry.
pub open spec fn mat_add_spec<T: DspSample, const R: usize, const C: usize>(
    a: [[T; C]; R],
    b: [[T; C]; R],
) -> [[T; C]; R] {
    array_of(Seq::new(R as nat, |r: int| vec_add_spec(a[r], b[r])))
}

/// The elements of row `r` of the `N×N` identity matrix.
pub open spec fn unit_row_elems<T: DspSample>(n: nat, r: int) -> Seq<T> {
    Seq::new(n, |c: int| if r == c { T::spec_one() } else { T::spec_zero() })
}

/// Row `r` of the identity matrix.
pub open spec fn unit_row<T: DspSample, const N: usize>(r: int) -> [T; N] {
    array_of(unit_row_elems::<T>(N as nat, r))
}

/// The identity matrix.
pub open spec fn identity_spec<T: DspSample, const N: usize>() -> [[T; N]; N] {
    array_of(Seq::new(N as nat, |r: int| unit_row::<T, N>(r)))
}

fn dot<T: DspSample, const N: usize>(a: &[T; N], b: &[T; N]) -> (r: T)
    ensures
        r == dot_spec(*a, *b),
{
    let mut acc = T::zero();
    let mut i: usize = 0;
    while i < N
        invariant
            i <= N,
            acc == dot_upto(a@, b@, i as nat),
        decreases N - i,
    {
        acc = acc.sat_add(a[i].sat_mul(b[i]));
        i = i + 1;
    }
    acc
}

/// `M v` for `M: R×C`.
fn mat_vec<T: DspSample, const R: usize, const C: usize>(m: &[[T; C]; R], v: &[T; C]) -> (out: [T; R])
    ensures
        out == mat_vec_spec(*m, *v),
{
    let mut out = [T::zero(); R];
    let mut r: usize = 0;
    while r < R
        invariant
            r <= R,
            forall|i: int| 0 <= i < r ==> out[i] == dot_spec(m[i], *v),
        decreases R - r,
    {
        out[r] = dot(&m[r], v);
        r = r + 1;
    }
    proof {
        assert(out@ =~= Seq::new(R as nat, |i: int| dot_spec(m[i], *v)));
        lemma_array_of(out);
    }
    out
}

/// `A Bᵀ` for `A: R×K` and `B: C×K`.
fn mat_mul_bt<T: DspSample, const R: usize, const K: usize, const C: usize>(
    a: &[[T; K]; R],
    b: &[[T; K]; C],
) -> (out: [[T; C]; R])
    ensures
        out == mat_mul_bt_spec(*a, *b),
{
    let zero_row = [T::zero(); C];
    let mut out = [zero_row; R];
    let mut r: usize = 0;
    while r < R
        invariant
            r <= R,
            forall|i: int| 0 <= i < r ==> out[i] == mat_mul_bt_row(a[i], *b),
        decreases R - r,
    {
        let mut row = zero_row;
        let mut c: usize = 0;
        while c < C
            invariant
                r < R,
                c <= C,
                forall|j: int| 0 <= j < c ==> row[j] == dot_spec(a[r as int], b[j]),
            decreases C - c,
        {
            row[c] = dot(&a[r], &b[c]);
            c = c + 1;
        }
        proof {
            assert(row@ =~= Seq::new(C as nat, |j: int| dot_spec(a[r as int], b[j])));
            lemma_array_of(row);
        }
        out[r] = row;
        r = r + 1;
    }
    proof {
        assert(out@ =~= Seq::new(R as nat, |i: int| mat_mul_bt_row(a[i], *b)));
        lemma_array_of(out);
    }
    out
}

/// Column `c` of `M`.
fn column<T: DspSample, const R: usize, const C: usize>(m: &[[T; C]; R], c: usize) -> (col: [T; R])
    requires
        c < C,
    ensures
        col == column_spec(*m, c as int),
        forall|i: int| 0 <= i < R ==> col[i] == m[i][c as int],
{
    let mut col = [T::zero(); R];
    let mut r: usize = 0;
    while r < R
        invariant
            c < C,
            r <= R,
            forall|i: int| 0 <= i < r ==> col[i] == m[i][c as int],
        decreases R - r,
    {
        col[r] = m[r][c];
        r = r + 1;
    }
    proof {
        assert(col@ =~= Seq::new(R as nat, |i: int| m[i][c as int]));
        lemma_array_of(col);
    }
    col
}

/// `Mᵀ`.
fn transpose<T: DspSample, const R: usize, const C: usize>(m: &[[T; C]; R]) -> (out: [[T; R]; C])
    ensures
        out == transpose_spec(*m),
{
    let zero_row = [T::zero(); R];
    let mut out = [zero_row; C];
    let mut c: usize = 0;
    while c < C
        invariant
            c <= C,
            forall|j: int| 0 <= j < c ==> out[j] == column_spec(*m, j),
        decreases C - c,
    {
        out[c] = column(m, c);
        c = c + 1;
    }
    proof {
        assert(out@ =~= Seq::new(C as nat, |j: int| column_spec(*m, j)));
        lemma_array_of(out);
    }
    out
}

/// `A B` for `A: R×K` and `B: K×C`.
fn mat_mul<T: DspSample, const R: usize, const K: usize, const C: usize>(
    a: &[[T; K]; R],
    b: &[[T; C]; K],
) -> (out: [[T; C]; R])
    ensures
        out == mat_mul_spec(*a, *b),
{
    let bt = transpose(b);
    mat_mul_bt(a, &bt)
}

/// `a + b`, element by element.
fn vec_add<T: DspSample, const N: usize>(a: &[T; N], b: &[T; N]) -> (out: [T; N])
    ensures
        out == vec_add_spec(*a, *b),
{
    let mut out = *a;
    let mut i: usize = 0;
    while i < N
        invariant
            i <= N,
            forall|j: int| 0 <= j < i ==> out[j] == a[j].spec_sat_add(b[j]),
        decreases N - i,
    {
        out[i] = a[i].sat_add(b[i]);
        i = i + 1;
    }
    proof {
        assert(out@ =~= Seq::new(N as nat, |j: int| a[j].spec_sat_add(b[j])));
        lemma_array_of(out);
    }
    out
}

/// `A + B`, entry by entry.
fn mat_add<T: DspSample, const R: usize, const C: usize>(a: &[[T; C]; R], b: &[[T; C]; R]) -> (out:
    [[T; C]; R])
    ensures
        out == mat_add_spec(*a, *b),
{
    let mut out = *a;
    let mut r: usize = 0;
    while r < R
        invariant
            r <= R,
            forall|i: int| 0 <= i < r ==> out[i] == vec_add_spec(a[i], b[i]),
        decreases R - r,
    {
        out[r] = vec_add(&a[r], &b[r]);
        r = r + 1;
    }
    proof {
        assert(out@ =~= Seq::new(R as nat, |i: int| vec_add_spec(a[i], b[i])));
        lemma_array_of(out);
    }
    out
}

/// The identity matrix.
fn identity_mat<T: DspSample, const N: usize>() -> (out: [[T; N]; N])
    ensures
        out == identity_spec::<T, N>(),
{
    let zero = T::zero();
    let zero_row = [zero; N];
    let mut out = [zero_row; N];
    let mut r: usize = 0;
    while r < N
        invariant
            r <= N,
            forall|j: int| 0 <= j < N ==> zero_row[j] == T::spec_zero(),
            forall|i: int| 0 <= i < r ==> out[i] == unit_row::<T, N>(i),
        decreases N - r,
    {
        let mut row = zero_row;
        row[r] = T::one();
        proof {
            assert(row@ =~= unit_row_elems::<T>(N as nat, r as int));
            lemma_array_of(row);
        }
        out[r] = row;
        r = r + 1;
    }
    proof {
        assert(out@ =~= Seq::new(N as nat, |i: int| unit_row::<T, N>(i)));
        lemma_array_of(out);
    }
    out
}

// ─────────────────────────────────────────────────────────────────────────────
// State
// ─────────────────────────────────────────────────────────────────────────────

/// A state estimate: the state vector and its error covariance.
///
/// Deliberately plain data, so it can be snapshotted, logged or handed to another phase pair
/// without going through the filter that owns it.
#[derive(Debug, Clone, Copy, PartialEq)]
pub struct Estimate<T: DspSample, const N: usize> {
    /// Estimated state vector.
    pub state: [T; N],
    /// Symmetric state-error covariance `P`.
    pub covariance: [[T; N]; N],
}

impl<T: DspSample, const N: usize> Estimate<T, N> {
    /// Construct an estimate from a state and a covariance.
    pub fn new(state: [T; N], covariance: [[T; N]; N]) -> (r: Self)
        ensures
            r.state == state,
            r.covariance == covariance,
    {
        Self { state, covariance }
    }

    /// A zero state with the given covariance.
    pub fn from_covariance(covariance: [[T; N]; N]) -> (r: Self)
        ensures
            r.state@ == Seq::new(N as nat, |i: int| T::spec_zero()),
            r.covariance == covariance,
    {
        let r = Self { state: [T::zero(); N], covariance };
        assert(r.state@ =~= Seq::new(N as nat, |i: int| T::spec_zero()));
        r
    }
}


// ─────────────────────────────────────────────────────────────────────────────
// Dynamics: how the state evolves
// ─────────────────────────────────────────────────────────────────────────────

/// Model of the state evolution, `x⁻ = f(x, u)`, and its Jacobian `F = ∂f/∂x`.
///
/// One trait covers both the linear and the nonlinear case. A linear model returns its stored
/// matrix from [`jacobian`](Dynamics::jacobian) and ignores the state; a model that computes the
/// Jacobian from the state is an extended Kalman filter. Nothing else in the composition changes.
pub trait Dynamics<T: DspSample, const N: usize> {
    /// Control input consumed by this model (`()` when there is none).
    type Input;

    /// `f(x, u)`.
    spec fn spec_advance(&self, state: [T; N], input: Self::Input) -> [T; N];

    /// `∂f/∂x` at `x` and `u`.
    spec fn spec_jacobian(&self, state: [T; N], input: Self::Input) -> [[T; N]; N];

    /// Advance the state one step: `x⁻ = f(x, u)`.
    fn advance(&self, state: &[T; N], input: Self::Input) -> (r: [T; N])
        ensures
            r == self.spec_advance(*state, input),
    ;

    /// Jacobian evaluated at `state` and `input`.
    fn jacobian(&self, state: &[T; N], input: Self::Input) -> (r: [[T; N]; N])
        ensures
            r == self.spec_jacobian(*state, input),
    ;
}

/// A transition matrix *is* a linear model: `f(x, u) = F x`, whose Jacobian is `F` itself.
impl<T: DspSample, const N: usize> Dynamics<T, N> for [[T; N]; N] {
    type Input = ();

    open spec fn spec_advance(&self, state: [T; N], input: ()) -> [T; N] {
        mat_vec_spec(*self, state)
    }

    open spec fn spec_jacobian(&self, state: [T; N], input: ()) -> [[T; N]; N] {
        *self
    }

    fn advance(&self, state: &[T; N], _input: ()) -> (r: [T; N]) {
        mat_vec(self, state)
    }

    fn jacobian(&self, _state: &[T; N], _input: ()) -> (r: [[T; N]; N]) {
        *self
    }
}

/// Constant-velocity motion for `[position, velocity]`: `F = [[1, dt], [0, 1]]`.
///
/// A [`Dynamics`] rather than a complete filter, so it drops straight into a [`Transition`] and
/// can be swapped for any other model without touching the rest of the composition.
#[derive(Debug, Clone, Copy, PartialEq)]
pub struct ConstantVelocity<T: DspSample> {
    /// Sample interval `dt`.
    pub interval: T,
}

impl<T: DspSample> ConstantVelocity<T> {
    /// Construct a constant-velocity model for the given sample interval.
    pub fn new(interval: T) -> (r: Self)
        ensures
            r.interval == interval,
    {
        Self { interval }
    }
}

impl<T: DspSample> Dynamics<T, 2> for ConstantVelocity<T> {
    type Input = ();

    /// `[x0 + dt x1, x1]`.
    open spec fn spec_advance(&self, state: [T; 2], input: ()) -> [T; 2] {
        array_of(seq![state[0].spec_sat_add(self.interval.spec_sat_mul(state[1])), state[1]])
    }

    /// `[[1, dt], [0, 1]]`.
    open spec fn spec_jacobian(&self, state: [T; 2], input: ()) -> [[T; 2]; 2] {
        array_of(
            seq![
                array_of(seq![T::spec_one(), self.interval]),
                array_of(seq![T::spec_zero(), T::spec_one()]),
            ],
        )
    }

    fn advance(&self, state: &[T; 2], _input: ()) -> (r: [T; 2]) {
        let r = [state[0].sat_add(self.interval.sat_mul(state[1])), state[1]];
        proof {
            assert(r@ =~= seq![state[0].spec_sat_add(self.interval.spec_sat_mul(state[1])), state[1]]);
            lemma_array_of(r);
        }
        r
    }

    fn jacobian(&self, _state: &[T; 2], _input: ()) -> (r: [[T; 2]; 2]) {
        let top = [T::one(), self.interval];
        let bottom = [T::zero(), T::one()];
        let r = [top, bottom];
        proof {
            assert(top@ =~= seq![T::spec_one(), self.interval]);
            assert(bottom@ =~= seq![T::spec_zero(), T::spec_one()]);
            lemma_array_of(top);
            lemma_array_of(bottom);
            assert(r@ =~= seq![
                array_of(seq![T::spec_one(), self.interval]),
                array_of(seq![T::spec_zero(), T::spec_one()]),
            ]);
            lemma_array_of(r);
        }
        r
    }
}

/// Linear model with a control input: `f(x, u) = F x + B u`.
#[derive(Debug, Clone, Copy, PartialEq)]
pub struct ControlModel<const N: usize, const U: usize, T: DspSample> {
    /// State-transition matrix `F`.
    pub matrix: [[T; N]; N],
    /// Control matrix `B`, `N` rows by `U` columns.
    pub control: [[T; U]; N],
}

impl<const N: usize, const U: usize, T: DspSample> ControlModel<N, U, T> {
    /// Construct a controlled linear model.
    pub fn new(matrix: [[T; N]; N], control: [[T; U]; N]) -> (r: Self)
        ensures
            r.matrix == matrix,
            r.control == control,
    {
        Self { matrix, control }
    }
}

impl<const N: usize, const U: usize, T: DspSample> Dynamics<T, N> for ControlModel<N, U, T> {
    type Input = [T; U];

    /// `F x + B u`.
    open spec fn spec_advance(&self, state: [T; N], input: [T; U]) -> [T; N] {
        vec_add_spec(mat_vec_spec(self.matrix, state), mat_vec_spec(self.control, input))
    }

    /// `F`, whatever the state and input.
    open spec fn spec_jacobian(&self, state: [T; N], input: [T; U]) -> [[T; N]; N] {
        self.matrix
    }

    fn advance(&self, state: &[T; N], input: [T; U]) -> (r: [T; N]) {
        let out = mat_vec(&self.matrix, state);
        let bu = mat_vec(&self.control, &input);
        vec_add(&out, &bu)
    }

    fn jacobian(&self, _state: &[T; N], _input: [T; U]) -> (r: [[T; N]; N]) {
        self.matrix
    }
}

// ─────────────────────────────────────────────────────────────────────────────
// Phases
// ─────────────────────────────────────────────────────────────────────────────

/// Prediction phase: advance an estimate in time.
pub trait Predict<T: DspSample, const N: usize> {
    /// Control input consumed by this phase (`()` when there is none).
    type Input: Copy;

    /// The estimate one step after `estimate`.
    spec fn spec_predict(&self, estimate: Estimate<T, N>, input: Self::Input) -> Estimate<T, N>;

    /// Advance `estimate` one step in place.
    fn predict(&self, estimate: &mut Estimate<T, N>, input: Self::Input)
        ensures
            *final(estimate) == self.spec_predict(*old(estimate), input),
    ;
}

/// Measurement phase: fold one measurement into an estimate.
pub trait Update<T: DspSample, const N: usize> {
    /// Measurement consumed by this phase.
    type Measurement: Copy;

    /// The phase is shaped for an `N`-state estimate.
    spec fn fits(&self) -> bool;

    /// The measurement `estimate` predicts.
    spec fn spec_project(&self, estimate: Estimate<T, N>) -> Self::Measurement;

    /// The corrected estimate and the result of folding `measurement` into `estimate`.
    spec fn spec_update(&self, estimate: Estimate<T, N>, measurement: Self::Measurement) -> (
        Estimate<T, N>,
        Result<Self::Measurement, Status>,
    );

    /// The measurement the current estimate predicts.
    fn project(&self, estimate: &Estimate<T, N>) -> (m: Self::Measurement)
        requires
            self.fits(),
        ensures
            m == self.spec_project(*estimate),
    ;

    /// Correct `estimate` with `measurement`, returning the posterior measurement estimate.
    ///
    /// # Errors
    ///
    /// [`Status::Singular`] when the innovation covariance is not invertible. The estimate is
    /// left untouched in that case, so the caller can keep predicting.
    fn update(&self, estimate: &mut Estimate<T, N>, measurement: Self::Measurement) -> (r: Result<
        Self::Measurement,
        Status,
    >)
        requires
            self.fits(),
        ensures
            (*final(estimate), r) == self.spec_update(*old(estimate), measurement),
            r is Err ==> r == Err::<Self::Measurement, Status>(Status::Singular),
            r is Err ==> *final(estimate) == *old(estimate),
    ;
}

/// `x ← f(x, u)` and `P ← F P Fᵀ + Q`, with `f` and `F` taken at the prior state.
pub open spec fn predicted_with<T: DspSample, const N: usize, D: Dynamics<T, N>>(
    estimate: Estimate<T, N>,
    dynamics: D,
    input: D::Input,
    noise: [[T; N]; N],
) -> Estimate<T, N> {
    let f = dynamics.spec_jacobian(estimate.state, input);
    Estimate {
        state: dynamics.spec_advance(estimate.state, input),
        covariance: mat_add_spec(mat_mul_bt_spec(mat_mul_spec(f, estimate.covariance), f), noise),
    }
}

/// Predict with `x ← f(x, u)` and `P ← F P Fᵀ + Q`, with `f` and `F` taken at the prior state.
fn predict_with<T: DspSample, const N: usize, D: Dynamics<T, N>>(
    estimate: &mut Estimate<T, N>,
    dynamics: &D,
    input: D::Input,
    noise: &[[T; N]; N],
) where D::Input: Copy
    ensures
        *final(estimate) == predicted_with(*old(estimate), *dynamics, input, *noise),
{
    let f = dynamics.jacobian(&estimate.state, input);
    let next = dynamics.advance(&estimate.state, input);

    let fp = mat_mul(&f, &estimate.covariance);
    let fpf = mat_mul_bt(&fp, &f);
    let p = mat_add(&fpf, noise);

    estimate.state = next;
    estimate.covariance = p;
}

/// Linear transition with process noise: a [`Dynamics`] plus `Q`.
#[derive(Debug, Clone, Copy, PartialEq)]
pub struct Transition<D, const N: usize, T: DspSample> {
    /// State evolution model.
    pub dynamics: D,
    /// Symmetric process-noise covariance `Q`.
    pub noise: [[T; N]; N],
}

impl<D, const N: usize, T: DspSample> Transition<D, N, T> {
    /// Construct a transition from a model and its process noise.
    pub fn new(dynamics: D, noise: [[T; N]; N]) -> (r: Self)
        ensures
            r.dynamics == dynamics,
            r.noise == noise,
    {
        Self { dynamics, noise }
    }
}

impl<D: Dynamics<T, N>, const N: usize, T: DspSample> Predict<T, N> for Transition<D, N, T> where
    D::Input: Copy,
 {
    type Input = D::Input;

    open spec fn spec_predict(&self, estimate: Estimate<T, N>, input: D::Input) -> Estimate<T, N> {
        predicted_with(estimate, self.dynamics, input, self.noise)
    }

    fn predict(&self, estimate: &mut Estimate<T, N>, input: D::Input) {
        predict_with(estimate, &self.dynamics, input, &self.noise);
    }
}

impl<const N: usize, T: DspSample> Transition<[[T; N]; N], N, T> {
    /// An identity transition (`F = I`) with the supplied process noise.
    pub fn identity(noise: [[T; N]; N]) -> (r: Self)
        ensures
            r.dynamics == identity_spec::<T, N>(),
            r.noise == noise,
    {
        Self::new(identity_mat(), noise)
    }
}


// ─────────────────────────────────────────────────────────────────────────────
// Measurement phases
// ─────────────────────────────────────────────────────────────────────────────

/// The innovation variance `v` cannot be divided by: its magnitude is not positive.
pub open spec fn is_singular<T: DspSample>(v: T) -> bool {
    v.spec_abs().spec_at_most(T::spec_zero())
}

/// The gain `K = h / v`, element by element.
pub open spec fn gain_spec<T: DspSample, const N: usize>(h: [T; N], v: T) -> [T; N] {
    array_of(Seq::new(N as nat, |i: int| h[i].spec_sat_div(v)))
}

/// `x + K s`, element by element.
pub open spec fn axpy_spec<T: DspSample, const N: usize>(x: [T; N], k: [T; N], s: T) -> [T; N] {
    array_of(Seq::new(N as nat, |i: int| x[i].spec_sat_add(k[i].spec_sat_mul(s))))
}

/// Entry `(r, t)` of `I - K H`: `0 - K[r] H[t]`, plus one on the diagonal.
pub open spec fn ikh_entry<T: DspSample>(k: T, h: T, diagonal: bool) -> T {
    let v = T::spec_zero().spec_sat_sub(k.spec_sat_mul(h));
    if diagonal {
        v.spec_sat_add(T::spec_one())
    } else {
        v
    }
}

/// The elements of row `r` of `I - K H`, where `k` is `K[r]`.
pub open spec fn ikh_row_elems<T: DspSample>(k: T, h: Seq<T>, r: int) -> Seq<T> {
    Seq::new(h.len(), |t: int| ikh_entry(k, h[t], r == t))
}

/// `I - K H` for a column gain `K` and a measurement row `H`.
pub open spec fn ikh_spec<T: DspSample, const N: usize>(k: [T; N], h: [T; N]) -> [[T; N]; N] {
    array_of(Seq::new(N as nat, |r: int| array_of::<T, N>(ikh_row_elems(k[r], h@, r))))
}

/// The elements of row `r` of `P - K row`, where `p_row` is `P[r]` and `k` is `K[r]`.
pub open spec fn outer_sub_elems<T: DspSample, const N: usize>(p_row: [T; N], k: T, row: [T; N]) -> Seq<T> {
    Seq::new(N as nat, |c: int| p_row[c].spec_sat_sub(k.spec_sat_mul(row[c])))
}

/// `P - K row`: the rank-one correction with a column gain `K` and a row.
pub open spec fn outer_sub_spec<T: DspSample, const N: usize>(
    p: [[T; N]; N],
    k: [T; N],
    row: [T; N],
) -> [[T; N]; N] {
    array_of(Seq::new(N as nat, |r: int| array_of::<T, N>(outer_sub_elems(p[r], k[r], row))))
}

fn gain_vec<T: DspSample, const N: usize>(h: &[T; N], v: T) -> (out: [T; N])
    requires
        !is_singular(v),
    ensures
        out == gain_spec(*h, v),
{
    let mut out = *h;
    let mut i: usize = 0;
    while i < N
        invariant
            i <= N,
            !is_singular(v),
            forall|j: int| 0 <= j < i ==> out[j] == h[j].spec_sat_div(v),
        decreases N - i,
    {
        out[i] = h[i].sat_div(v);
        i = i + 1;
    }
    proof {
        assert(out@ =~= Seq::new(N as nat, |j: int| h[j].spec_sat_div(v)));
        lemma_array_of(out);
    }
    out
}

fn axpy<T: DspSample, const N: usize>(x: &[T; N], k: &[T; N], s: T) -> (out: [T; N])
    ensures
        out == axpy_spec(*x, *k, s),
{
    let mut out = *x;
    let mut i: usize = 0;
    while i < N
        invariant
            i <= N,
            forall|j: int| 0 <= j < i ==> out[j] == x[j].spec_sat_add(k[j].spec_sat_mul(s)),
        decreases N - i,
    {
        out[i] = x[i].sat_add(k[i].sat_mul(s));
        i = i + 1;
    }
    proof {
        assert(out@ =~= Seq::new(N as nat, |j: int| x[j].spec_sat_add(k[j].spec_sat_mul(s))));
        lemma_array_of(out);
    }
    out
}

fn ikh_mat<T: DspSample, const N: usize>(k: &[T; N], h: &[T; N]) -> (out: [[T; N]; N])
    ensures
        out == ikh_spec(*k, *h),
{
    let mut out = [*h; N];
    let mut r: usize = 0;
    while r < N
        invariant
            r <= N,
            forall|i: int| 0 <= i < r ==> out[i] == array_of::<T, N>(ikh_row_elems(k[i], h@, i)),
        decreases N - r,
    {
        let mut row = *h;
        let mut t: usize = 0;
        while t < N
            invariant
                r < N,
                t <= N,
                forall|j: int| 0 <= j < t ==> row[j] == ikh_entry(k[r as int], h[j], r as int == j),
            decreases N - t,
        {
            let mut v = T::zero().sat_sub(k[r].sat_mul(h[t]));
            if r == t {
                v = v.sat_add(T::one());
            }
            row[t] = v;
            t = t + 1;
        }
        proof {
            assert(row@ =~= ikh_row_elems(k[r as int], h@, r as int));
            lemma_array_of(row);
        }
        out[r] = row;
        r = r + 1;
    }
    proof {
        assert(out@ =~= Seq::new(N as nat, |i: int| array_of::<T, N>(ikh_row_elems(k[i], h@, i))));
        lemma_array_of(out);
    }
    out
}

fn outer_sub<T: DspSample, const N: usize>(p: &[[T; N]; N], k: &[T; N], row: &[T; N]) -> (out: [[T;
    N]; N])
    ensures
        out == outer_sub_spec(*p, *k, *row),
{
    let mut out = *p;
    let mut r: usize = 0;
    while r < N
        invariant
            r <= N,
            forall|i: int| 0 <= i < r ==> out[i] == array_of::<T, N>(outer_sub_elems(p[i], k[i], *row)),
        decreases N - r,
    {
        let mut o = p[r];
        let mut c: usize = 0;
        while c < N
            invariant
                r < N,
                c <= N,
                forall|j: int| 0 <= j < c ==> o[j] == p[r as int][j].spec_sat_sub(
                    k[r as int].spec_sat_mul(row[j]),
                ),
            decreases N - c,
        {
            o[c] = p[r][c].sat_sub(k[r].sat_mul(row[c]));
            c = c + 1;
        }
        proof {
            assert(o@ =~= outer_sub_elems(p[r as int], k[r as int], *row));
            lemma_array_of(o);
        }
        out[r] = o;
        r = r + 1;
    }
    proof {
        assert(out@ =~= Seq::new(
            N as nat,
            |i: int| array_of::<T, N>(outer_sub_elems(p[i], k[i], *row)),
        ));
        lemma_array_of(out);
    }
    out
}

/// `row / d`, element by element.
pub open spec fn row_div_spec<T: DspSample, const M: usize>(row: [T; M], d: T) -> [T; M] {
    array_of(Seq::new(M as nat, |c: int| row[c].spec_sat_div(d)))
}

/// `row - f · prow`, element by element.
pub open spec fn row_elim_spec<T: DspSample, const M: usize>(row: [T; M], f: T, prow: [T; M]) -> [T;
    M] {
    array_of(Seq::new(M as nat, |c: int| row[c].spec_sat_sub(f.spec_sat_mul(prow[c]))))
}

/// `m` with rows `i` and `j` exchanged.
pub open spec fn swap_rows_spec<T, const M: usize>(m: [[T; M]; M], i: int, j: int) -> [[T; M]; M] {
    array_of(m@.update(i, m[j]).update(j, m[i]))
}

/// `m` with row `i` replaced.
pub open spec fn set_row_spec<T, const M: usize>(m: [[T; M]; M], i: int, row: [T; M]) -> [[T; M]; M] {
    array_of(m@.update(i, row))
}

/// The rows of `m` with every row but `col` less `factors[r]` times `prow`.
pub open spec fn eliminate_rows<T: DspSample, const M: usize>(
    m: [[T; M]; M],
    col: int,
    prow: [T; M],
    factors: [T; M],
) -> Seq<[T; M]> {
    Seq::new(
        M as nat,
        |r: int|
            if r == col {
                m[r]
            } else {
                row_elim_spec(m[r], factors[r], prow)
            },
    )
}

/// Every row but `col` of `m` less `factors[r]` times `prow`; row `col` kept.
pub open spec fn eliminate_spec<T: DspSample, const M: usize>(
    m: [[T; M]; M],
    col: int,
    prow: [T; M],
    factors: [T; M],
) -> [[T; M]; M] {
    array_of(eliminate_rows(m, col, prow, factors))
}

/// The pivot row for column `col` among rows `col..k`: the first of largest magnitude.
pub open spec fn pivot_scan<T: DspSample, const M: usize>(a: [[T; M]; M], col: int, k: int) -> int
    decreases k - col,
{
    if k <= col + 1 {
        col
    } else {
        let p = pivot_scan(a, col, k - 1);
        if !a[k - 1][col].spec_abs().spec_at_most(a[p][col].spec_abs()) {
            k - 1
        } else {
            p
        }
    }
}

/// One Gauss-Jordan column: pick the pivot (none usable: singular), swap it into place,
/// divide its row by it, and clear the column from every other row. The same row operations
/// act on `inv`.
pub open spec fn gauss_jordan_step<T: DspSample, const M: usize>(
    a: [[T; M]; M],
    inv: [[T; M]; M],
    col: int,
) -> Option<([[T; M]; M], [[T; M]; M])> {
    let p = pivot_scan(a, col, M as int);
    if is_singular(a[p][col]) {
        None
    } else {
        let a1 = swap_rows_spec(a, p, col);
        let i1 = swap_rows_spec(inv, p, col);
        let d = a1[col][col];
        let a2 = set_row_spec(a1, col, row_div_spec(a1[col], d));
        let i2 = set_row_spec(i1, col, row_div_spec(i1[col], d));
        let f = column_spec(a2, col);
        Some((eliminate_spec(a2, col, a2[col], f), eliminate_spec(i2, col, i2[col], f)))
    }
}

/// The first `k` Gauss-Jordan columns from `(a, inv)`.
pub open spec fn gauss_jordan<T: DspSample, const M: usize>(
    a: [[T; M]; M],
    inv: [[T; M]; M],
    k: nat,
) -> Option<([[T; M]; M], [[T; M]; M])>
    decreases k,
{
    if k == 0 {
        Some((a, inv))
    } else {
        match gauss_jordan(a, inv, (k - 1) as nat) {
            Some(st) => gauss_jordan_step(st.0, st.1, k - 1),
            None => None,
        }
    }
}

/// The Gauss-Jordan inverse with partial pivoting of `s`, in the sample format's saturating
/// arithmetic; `None` when a column has no usable pivot.
pub open spec fn invert_spec<T: DspSample, const M: usize>(s: [[T; M]; M]) -> Option<[[T; M]; M]> {
    match gauss_jordan(s, identity_spec::<T, M>(), M as nat) {
        Some(st) => Some(st.1),
        None => None,
    }
}

proof fn lemma_gauss_jordan_stays_none<T: DspSample, const M: usize>(
    a: [[T; M]; M],
    inv: [[T; M]; M],
    k: nat,
    j: nat,
)
    requires
        k <= j,
        gauss_jordan(a, inv, k) is None,
    ensures
        gauss_jordan(a, inv, j) is None,
    decreases j - k,
{
    if k < j {
        lemma_gauss_jordan_stays_none(a, inv, k, (j - 1) as nat);
    }
}

fn row_div<T: DspSample, const M: usize>(row: &[T; M], d: T) -> (out: [T; M])
    requires
        !is_singular(d),
    ensures
        out == row_div_spec(*row, d),
{
    let mut out = *row;
    let mut c: usize = 0;
    while c < M
        invariant
            c <= M,
            !is_singular(d),
            forall|j: int| 0 <= j < c ==> out[j] == row[j].spec_sat_div(d),
        decreases M - c,
    {
        out[c] = row[c].sat_div(d);
        c = c + 1;
    }
    proof {
        assert(out@ =~= Seq::new(M as nat, |j: int| row[j].spec_sat_div(d)));
        lemma_array_of(out);
    }
    out
}

fn row_elim<T: DspSample, const M: usize>(row: &[T; M], f: T, prow: &[T; M]) -> (out: [T; M])
    ensures
        out == row_elim_spec(*row, f, *prow),
{
    let mut out = *row;
    let mut c: usize = 0;
    while c < M
        invariant
            c <= M,
            forall|j: int| 0 <= j < c ==> out[j] == row[j].spec_sat_sub(f.spec_sat_mul(prow[j])),
        decreases M - c,
    {
        out[c] = row[c].sat_sub(f.sat_mul(prow[c]));
        c = c + 1;
    }
    proof {
        assert(out@ =~= Seq::new(M as nat, |j: int| row[j].spec_sat_sub(f.spec_sat_mul(prow[j]))));
        lemma_array_of(out);
    }
    out
}

/// Gauss-Jordan inverse with partial pivoting. `None` when the matrix is singular.
fn invert<T: DspSample, const M: usize>(s: &[[T; M]; M]) -> (r: Option<[[T; M]; M]>)
    ensures
        r == invert_spec(*s),
{
    let mut a = *s;
    let mut inv = identity_mat::<T, M>();
    let ghost i0 = inv;
    let mut col: usize = 0;
    while col < M
        invariant
            col <= M,
            i0 == identity_spec::<T, M>(),
            gauss_jordan(*s, i0, col as nat) == Some((a, inv)),
        decreases M - col,
    {
        let mut pivot = col;
        let mut r = col + 1;
        while r < M
            invariant
                col < M,
                col < r <= M,
                col <= pivot < M,
                pivot == pivot_scan(a, col as int, r as int),
            decreases M - r,
        {
            if !a[r][col].abs_val().at_most(a[pivot][col].abs_val()) {
                pivot = r;
            }
            r = r + 1;
        }
        if a[pivot][col].abs_val().at_most(T::zero()) {
            proof {
                assert(gauss_jordan(*s, i0, (col + 1) as nat) is None);
                lemma_gauss_jordan_stays_none(*s, i0, (col + 1) as nat, M as nat);
            }
            return None;
        }
        let ghost a0 = a;
        let ghost inv0 = inv;
        if pivot != col {
            let t = a[pivot];
            a[pivot] = a[col];
            a[col] = t;
            let t = inv[pivot];
            inv[pivot] = inv[col];
            inv[col] = t;
        }
        proof {
            assert(a@ =~= a0@.update(pivot as int, a0[col as int]).update(col as int, a0[pivot as int]));
            assert(inv@ =~= inv0@.update(pivot as int, inv0[col as int]).update(
                col as int,
                inv0[pivot as int],
            ));
            lemma_array_of(a);
            lemma_array_of(inv);
        }
        let ghost a1 = a;
        let ghost inv1 = inv;
        let d = a[col][col];
        let ra = row_div(&a[col], d);
        let ri = row_div(&inv[col], d);
        a[col] = ra;
        inv[col] = ri;
        let ghost a2 = a;
        let ghost inv2 = inv;
        proof {
            assert(a@ =~= a1@.update(col as int, ra));
            assert(inv@ =~= inv1@.update(col as int, ri));
            lemma_array_of(a);
            lemma_array_of(inv);
        }
        let prow_a = a[col];
        let prow_i = inv[col];
        let factors = column(&a, col);
        let mut rr: usize = 0;
        while rr < M
            invariant
                rr <= M,
                col < M,
                prow_a == a2[col as int],
                prow_i == inv2[col as int],
                forall|i: int|
                    0 <= i < M ==> #[trigger] a[i] == if i < rr && i != col {
                        row_elim_spec(a2[i], a2[i][col as int], prow_a)
                    } else {
                        a2[i]
                    },
                forall|i: int|
                    0 <= i < M ==> #[trigger] inv[i] == if i < rr && i != col {
                        row_elim_spec(inv2[i], a2[i][col as int], prow_i)
                    } else {
                        inv2[i]
                    },
            decreases M - rr,
        {
            if rr != col {
                let f = a[rr][col];
                a[rr] = row_elim(&a[rr], f, &prow_a);
                inv[rr] = row_elim(&inv[rr], f, &prow_i);
            }
            rr = rr + 1;
        }
        proof {
            let f = factors;
            assert(f@ =~= Seq::new(M as nat, |i: int| a2[i][col as int]));
            assert(a@ =~= eliminate_rows(a2, col as int, a2[col as int], f));
            assert(inv@ =~= eliminate_rows(inv2, col as int, inv2[col as int], f));
            lemma_array_of(a);
            lemma_array_of(inv);
            let pv = pivot_scan(a0, col as int, M as int);
            assert(pv == pivot);
            assert(!is_singular(a0[pv][col as int]));
            assert(swap_rows_spec(a0, pv, col as int) == a1);
            assert(swap_rows_spec(inv0, pv, col as int) == inv1);
            assert(set_row_spec(a1, col as int, row_div_spec(a1[col as int], d)) == a2);
            assert(set_row_spec(inv1, col as int, row_div_spec(inv1[col as int], d)) == inv2);
            assert(column_spec(a2, col as int) == factors);
            assert(eliminate_spec(a2, col as int, a2[col as int], factors) == a);
            assert(eliminate_spec(inv2, col as int, inv2[col as int], factors) == inv);
            assert(gauss_jordan_step(a0, inv0, col as int) == Some((a, inv)));
        }
        col = col + 1;
    }
    Some(inv)
}

/// Scalar measurement model: a row `H` and a variance `R`.
///
/// `M = 1` needs no matrix inverse — the innovation covariance is a single number — so this is
/// both the cheapest and the most numerically direct path.
#[derive(Debug, Clone, Copy, PartialEq)]
pub struct Observation<T: DspSample, const N: usize> {
    /// Measurement row `H`.
    pub matrix: [T; N],
    /// Measurement-noise variance `R`.
    pub noise: T,
}

impl<T: DspSample, const N: usize> Observation<T, N> {
    /// Construct a scalar observation model.
    pub fn new(matrix: [T; N], noise: T) -> (r: Self)
        ensures
            r.matrix == matrix,
            r.noise == noise,
    {
        Self { matrix, noise }
    }
}

/// The scalar update: with `S = H P Hᵀ + R` and `K = P Hᵀ / S`, the state becomes
/// `x + K (z - H x)` and the covariance `(I - K H) P`; the result is `H x` at the new state.
/// A singular `S` leaves the estimate as it was.
pub open spec fn observation_update<T: DspSample, const N: usize>(
    h: [T; N],
    r: T,
    estimate: Estimate<T, N>,
    z: T,
) -> (Estimate<T, N>, Result<T, Status>) {
    let hp = mat_vec_spec(estimate.covariance, h);
    let variance = dot_spec(h, hp).spec_sat_add(r);
    if is_singular(variance) {
        (estimate, Err(Status::Singular))
    } else {
        let innovation = z.spec_sat_sub(dot_spec(h, estimate.state));
        let gain = gain_spec(hp, variance);
        let state = axpy_spec(estimate.state, gain, innovation);
        let covariance = mat_mul_spec(ikh_spec(gain, h), estimate.covariance);
        (Estimate { state, covariance }, Ok(dot_spec(h, state)))
    }
}

impl<T: DspSample, const N: usize> Update<T, N> for Observation<T, N> {
    type Measurement = T;

    open spec fn fits(&self) -> bool {
        true
    }

    /// `H x`.
    open spec fn spec_project(&self, estimate: Estimate<T, N>) -> T {
        dot_spec(self.matrix, estimate.state)
    }

    open spec fn spec_update(&self, estimate: Estimate<T, N>, measurement: T) -> (
        Estimate<T, N>,
        Result<T, Status>,
    ) {
        observation_update(self.matrix, self.noise, estimate, measurement)
    }

    fn project(&self, estimate: &Estimate<T, N>) -> (m: T) {
        dot(&self.matrix, &estimate.state)
    }

    fn update(&self, estimate: &mut Estimate<T, N>, measurement: T) -> (r: Result<T, Status>) {
        // P Hᵀ, then the scalar innovation covariance S = H P Hᵀ + R.
        let hp = mat_vec(&estimate.covariance, &self.matrix);
        let variance = dot(&self.matrix, &hp).sat_add(self.noise);
        if variance.abs_val().at_most(T::zero()) {
            return Err(Status::Singular);
        }
        let innovation = measurement.sat_sub(dot(&self.matrix, &estimate.state));
        let gain = gain_vec(&hp, variance);
        let state = axpy(&estimate.state, &gain, innovation);
        // P ← (I - K H) P.
        let ikh = ikh_mat(&gain, &self.matrix);
        let covariance = mat_mul(&ikh, &estimate.covariance);
        estimate.state = state;
        estimate.covariance = covariance;
        Ok(dot(&self.matrix, &estimate.state))
    }
}

/// `start - Σ a[k]·b[k]` over the first `n` terms, subtracted in order.
pub open spec fn sub_fold<T: DspSample>(start: T, a: Seq<T>, b: Seq<T>, n: nat) -> T
    decreases n,
{
    if n == 0 {
        start
    } else {
        sub_fold(start, a, b, (n - 1) as nat).spec_sat_sub(a[n - 1].spec_sat_mul(b[n - 1]))
    }
}

/// The elements of row `r` of `P - K (H P)`: each `P[r][c]` less `Σ K[r][m]·(H P)[m][c]`.
pub open spec fn gain_terms_elems<T: DspSample, const N: usize, const M: usize>(
    p_row: [T; N],
    g_row: [T; M],
    h_p: [[T; N]; M],
) -> Seq<T> {
    Seq::new(N as nat, |c: int| sub_fold(p_row[c], g_row@, column_spec(h_p, c)@, M as nat))
}

/// The rows of `P - K (H P)`.
pub open spec fn gain_terms_rows<T: DspSample, const N: usize, const M: usize>(
    p: [[T; N]; N],
    gain: [[T; M]; N],
    h_p: [[T; N]; M],
) -> Seq<[T; N]> {
    Seq::new(N as nat, |r: int| array_of::<T, N>(gain_terms_elems(p[r], gain[r], h_p)))
}

/// `P - K (H P)`, each entry's terms subtracted in order.
pub open spec fn subtract_gain_spec<T: DspSample, const N: usize, const M: usize>(
    p: [[T; N]; N],
    gain: [[T; M]; N],
    h_p: [[T; N]; M],
) -> [[T; N]; N] {
    array_of(gain_terms_rows(p, gain, h_p))
}

/// `a - b`, element by element.
pub open spec fn vec_sub_spec<T: DspSample, const N: usize>(a: [T; N], b: [T; N]) -> [T; N] {
    array_of(Seq::new(N as nat, |i: int| a[i].spec_sat_sub(b[i])))
}

fn vec_sub<T: DspSample, const N: usize>(a: &[T; N], b: &[T; N]) -> (out: [T; N])
    ensures
        out == vec_sub_spec(*a, *b),
{
    let mut out = *a;
    let mut i: usize = 0;
    while i < N
        invariant
            i <= N,
            forall|j: int| 0 <= j < i ==> out[j] == a[j].spec_sat_sub(b[j]),
        decreases N - i,
    {
        out[i] = a[i].sat_sub(b[i]);
        i = i + 1;
    }
    proof {
        assert(out@ =~= Seq::new(N as nat, |j: int| a[j].spec_sat_sub(b[j])));
        lemma_array_of(out);
    }
    out
}

/// `P - K (H P)`-style covariance update.
fn subtract_gain_terms<T: DspSample, const N: usize, const M: usize>(
    covariance: &[[T; N]; N],
    gain: &[[T; M]; N],
    h_p: &[[T; N]; M],
) -> (out: [[T; N]; N])
    ensures
        out == subtract_gain_spec(*covariance, *gain, *h_p),
{
    let mut out = *covariance;
    let mut r: usize = 0;
    while r < N
        invariant
            r <= N,
            forall|i: int|
                0 <= i < r ==> #[trigger] out[i] == array_of::<T, N>(
                    gain_terms_elems(covariance[i], gain[i], *h_p),
                ),
        decreases N - r,
    {
        let mut row = covariance[r];
        let mut c: usize = 0;
        while c < N
            invariant
                r < N,
                c <= N,
                forall|j: int|
                    0 <= j < c ==> row[j] == sub_fold(
                        covariance[r as int][j],
                        gain[r as int]@,
                        column_spec(*h_p, j)@,
                        M as nat,
                    ),
            decreases N - c,
        {
            let hcol = column(h_p, c);
            let mut acc = covariance[r][c];
            let mut m: usize = 0;
            while m < M
                invariant
                    m <= M,
                    r < N,
                    c < N,
                    hcol == column_spec(*h_p, c as int),
                    acc == sub_fold(covariance[r as int][c as int], gain[r as int]@, hcol@, m as nat),
                decreases M - m,
            {
                acc = acc.sat_sub(gain[r][m].sat_mul(hcol[m]));
                m = m + 1;
            }
            row[c] = acc;
            c = c + 1;
        }
        proof {
            assert(row@ =~= gain_terms_elems(covariance[r as int], gain[r as int], *h_p));
            lemma_array_of(row);
        }
        out[r] = row;
        r = r + 1;
    }
    proof {
        assert(out@ =~= gain_terms_rows(*covariance, *gain, *h_p));
        lemma_array_of(out);
    }
    out
}

/// `M`-dimensional measurement model: a matrix `H` and a covariance `R`.
///
/// The measurement dimension is a const parameter, so `N`-state/multi-sensor updates stay on the
/// stack. `M = 1` is legal but [`Observation`] is cheaper.
#[derive(Debug, Clone, Copy, PartialEq)]
pub struct VectorObservation<const N: usize, const M: usize, T: DspSample> {
    /// Measurement matrix `H`, `M` rows by `N` columns.
    pub matrix: [[T; N]; M],
    /// Symmetric measurement-noise covariance `R`.
    pub noise: [[T; M]; M],
}

impl<const N: usize, const M: usize, T: DspSample> VectorObservation<N, M, T> {
    /// Construct a vector observation model.
    pub fn new(matrix: [[T; N]; M], noise: [[T; M]; M]) -> (r: Self)
        ensures
            r.matrix == matrix,
            r.noise == noise,
    {
        Self { matrix, noise }
    }
}

/// The vector update: with `S = H P Hᵀ + R` inverted by Gauss-Jordan and `K = P Hᵀ S⁻¹`, the
/// state becomes `x + K (z - H x)` and the covariance `P - K (H P)`; the result is `H x` at the
/// new state. A singular `S` leaves the estimate as it was.
pub open spec fn vector_update<T: DspSample, const N: usize, const M: usize>(
    h: [[T; N]; M],
    r: [[T; M]; M],
    estimate: Estimate<T, N>,
    z: [T; M],
) -> (Estimate<T, N>, Result<[T; M], Status>) {
    let h_p = mat_mul_spec(h, estimate.covariance);
    let s = mat_add_spec(mat_mul_bt_spec(h_p, h), r);
    match invert_spec(s) {
        None => (estimate, Err(Status::Singular)),
        Some(s_inv) => {
            let innovation = vec_sub_spec(z, mat_vec_spec(h, estimate.state));
            let gain = mat_mul_spec(mat_mul_bt_spec(estimate.covariance, h), s_inv);
            let state = vec_add_spec(estimate.state, mat_vec_spec(gain, innovation));
            let covariance = subtract_gain_spec(estimate.covariance, gain, h_p);
            (Estimate { state, covariance }, Ok(mat_vec_spec(h, state)))
        },
    }
}

impl<const N: usize, const M: usize, T: DspSample> Update<T, N> for VectorObservation<N, M, T> {
    type Measurement = [T; M];

    open spec fn fits(&self) -> bool {
        true
    }

    /// `H x`.
    open spec fn spec_project(&self, estimate: Estimate<T, N>) -> [T; M] {
        mat_vec_spec(self.matrix, estimate.state)
    }

    open spec fn spec_update(&self, estimate: Estimate<T, N>, measurement: [T; M]) -> (
        Estimate<T, N>,
        Result<[T; M], Status>,
    ) {
        vector_update(self.matrix, self.noise, estimate, measurement)
    }

    fn project(&self, estimate: &Estimate<T, N>) -> (m: [T; M]) {
        mat_vec(&self.matrix, &estimate.state)
    }

    fn update(&self, estimate: &mut Estimate<T, N>, measurement: [T; M]) -> (r: Result<
        [T; M],
        Status,
    >) {
        // S = H P Hᵀ + R.
        let h_p = mat_mul(&self.matrix, &estimate.covariance);
        let hph = mat_mul_bt(&h_p, &self.matrix);
        let s = mat_add(&hph, &self.noise);
        let s_inv = match invert(&s) {
            Some(v) => v,
            None => {
                return Err(Status::Singular);
            },
        };
        let hx = mat_vec(&self.matrix, &estimate.state);
        let innovation = vec_sub(&measurement, &hx);
        // K = P Hᵀ S⁻¹.
        let p_ht = mat_mul_bt(&estimate.covariance, &self.matrix);
        let gain = mat_mul(&p_ht, &s_inv);
        let delta = mat_vec(&gain, &innovation);
        let state = vec_add(&estimate.state, &delta);
        let covariance = subtract_gain_terms(&estimate.covariance, &gain, &h_p);
        estimate.state = state;
        estimate.covariance = covariance;
        Ok(mat_vec(&self.matrix, &estimate.state))
    }
}

/// Direct observation of state component `I`, with measurement variance `R`.
///
/// This carries no `H` at all: every `H` product collapses to indexing.
#[derive(Debug, Clone, Copy, PartialEq)]
pub struct Direct<T: DspSample, const N: usize, const I: usize> {
    /// Measurement-noise variance `R`.
    pub noise: T,
}

impl<T: DspSample, const N: usize, const I: usize> Direct<T, N, I> {
    /// Construct a direct observation of component `I`.
    pub fn new(noise: T) -> (r: Self)
        ensures
            r.noise == noise,
    {
        Self { noise }
    }
}

/// The direct update of component `i`: with `S = P[i][i] + R` and `K = P[·][i] / S`, the state
/// becomes `x + K (z - x[i])` and the covariance `P - K P[i]`; the result is the new `x[i]`.
/// A singular `S` leaves the estimate as it was.
pub open spec fn direct_update<T: DspSample, const N: usize>(
    i: int,
    r: T,
    estimate: Estimate<T, N>,
    z: T,
) -> (Estimate<T, N>, Result<T, Status>) {
    let p = estimate.covariance;
    let variance = p[i][i].spec_sat_add(r);
    if is_singular(variance) {
        (estimate, Err(Status::Singular))
    } else {
        let innovation = z.spec_sat_sub(estimate.state[i]);
        let gain = gain_spec(column_spec(p, i), variance);
        let state = axpy_spec(estimate.state, gain, innovation);
        let covariance = outer_sub_spec(p, gain, p[i]);
        (Estimate { state, covariance }, Ok(state[i]))
    }
}

impl<T: DspSample, const N: usize, const I: usize> Update<T, N> for Direct<T, N, I> {
    type Measurement = T;

    /// The observed component exists.
    open spec fn fits(&self) -> bool {
        I < N
    }

    /// `x[I]`.
    open spec fn spec_project(&self, estimate: Estimate<T, N>) -> T {
        estimate.state[I as int]
    }

    open spec fn spec_update(&self, estimate: Estimate<T, N>, measurement: T) -> (
        Estimate<T, N>,
        Result<T, Status>,
    ) {
        direct_update(I as int, self.noise, estimate, measurement)
    }

    fn project(&self, estimate: &Estimate<T, N>) -> (m: T) {
        estimate.state[I]
    }

    fn update(&self, estimate: &mut Estimate<T, N>, measurement: T) -> (r: Result<T, Status>) {
        let p = estimate.covariance;
        let variance = p[I][I].sat_add(self.noise);
        if variance.abs_val().at_most(T::zero()) {
            return Err(Status::Singular);
        }
        // P Hᵀ is the I-th column of P, and H P is the I-th row.
        let innovation = measurement.sat_sub(estimate.state[I]);
        let col = column(&p, I);
        let gain = gain_vec(&col, variance);
        estimate.state = axpy(&estimate.state, &gain, innovation);
        estimate.covariance = outer_sub(&p, &gain, &p[I]);
        Ok(estimate.state[I])
    }
}

/// Wraps a measurement phase so that the measurement may be absent.
///
/// With this, a phase pair keeps predicting when a sensor drops out instead of stalling.
#[derive(Debug, Clone, Copy, PartialEq)]
pub struct Optional<U>(pub U);

impl<T: DspSample, const N: usize, U: Update<T, N>> Update<T, N> for Optional<U> {
    type Measurement = Option<U::Measurement>;

    open spec fn fits(&self) -> bool {
        self.0.fits()
    }

    open spec fn spec_project(&self, estimate: Estimate<T, N>) -> Option<U::Measurement> {
        Some(self.0.spec_project(estimate))
    }

    /// A present measurement goes to the wrapped phase; an absent one changes nothing.
    open spec fn spec_update(&self, estimate: Estimate<T, N>, measurement: Option<U::Measurement>) -> (
        Estimate<T, N>,
        Result<Option<U::Measurement>, Status>,
    ) {
        match measurement {
            Some(m) => {
                let (e, r) = self.0.spec_update(estimate, m);
                (
                    e,
                    match r {
                        Ok(v) => Ok(Some(v)),
                        Err(s) => Err(s),
                    },
                )
            },
            None => (estimate, Ok(None)),
        }
    }

    fn project(&self, estimate: &Estimate<T, N>) -> (m: Option<U::Measurement>) {
        Some(self.0.project(estimate))
    }

    fn update(&self, estimate: &mut Estimate<T, N>, measurement: Option<U::Measurement>) -> (r:
        Result<Option<U::Measurement>, Status>) {
        match measurement {
            Some(m) => match self.0.update(estimate, m) {
                Ok(v) => Ok(Some(v)),
                Err(s) => Err(s),
            },
            None => Ok(None),
        }
    }
}


// ─────────────────────────────────────────────────────────────────────────────
// The filter
// ─────────────────────────────────────────────────────────────────────────────

/// A prediction phase and a measurement phase, plus the estimate they operate on.
///
/// The phases are plain data and are `Copy` when their models are, so one model can drive many
/// filters: build the [`Transition`]/[`Observation`] pair once and use it for every instance.
#[derive(Debug, Clone, Copy, PartialEq)]
pub struct Kalman<P, U, T: DspSample, const N: usize> {
    /// Prediction phase.
    pub predict: P,
    /// Measurement phase.
    pub update: U,
    /// The estimate the two phases operate on.
    pub estimate: Estimate<T, N>,
}

impl<P, U, T: DspSample, const N: usize> Kalman<P, U, T, N> {
    /// Compose a filter from a prediction phase, a measurement phase and an initial estimate.
    pub fn new(predict: P, update: U, estimate: Estimate<T, N>) -> (r: Self)
        ensures
            r.predict == predict,
            r.update == update,
            r.estimate == estimate,
    {
        Self { predict, update, estimate }
    }

    /// Wrap the measurement phase so a missing measurement still predicts.
    pub fn optional(self) -> (r: Kalman<P, Optional<U>, T, N>) where U: Update<T, N>
        ensures
            r.predict == self.predict,
            r.update == Optional(self.update),
            r.estimate == self.estimate,
    {
        Kalman::new(self.predict, Optional(self.update), self.estimate)
    }
}

impl<P: Predict<T, N>, U: Update<T, N>, T: DspSample, const N: usize> Kalman<P, U, T, N> {
    /// Predict, then correct with one measurement.
    ///
    /// Returns the posterior measurement estimate, or [`Status::Singular`] from the measurement
    /// phase (the prediction has still been applied in that case).
    ///
    /// # Errors
    ///
    /// Propagates the measurement phase's error; see [`Update::update`].
    pub fn step(&mut self, input: P::Input, measurement: U::Measurement) -> (r: Result<
        U::Measurement,
        Status,
    >)
        requires
            old(self).update.fits(),
        ensures
            final(self).predict == old(self).predict,
            final(self).update == old(self).update,
            (final(self).estimate, r) == old(self).update.spec_update(
                old(self).predict.spec_predict(old(self).estimate, input),
                measurement,
            ),
            r is Err ==> final(self).estimate == old(self).predict.spec_predict(
                old(self).estimate,
                input,
            ),
    {
        self.predict.predict(&mut self.estimate, input);
        self.update.update(&mut self.estimate, measurement)
    }

    /// Predict only, i.e. what [`step`](Kalman::step) does before the measurement arrives.
    pub fn advance(&mut self, input: P::Input)
        ensures
            final(self).predict == old(self).predict,
            final(self).update == old(self).update,
            final(self).estimate == old(self).predict.spec_predict(old(self).estimate, input),
    {
        self.predict.predict(&mut self.estimate, input);
    }

    /// The measurement the current estimate predicts.
    pub fn project(&self) -> (m: U::Measurement)
        requires
            self.update.fits(),
        ensures
            m == self.update.spec_project(self.estimate),
    {
        self.update.project(&self.estimate)
    }
}

/// With an [`Optional`] measurement phase, a step whose measurement did not arrive is exactly a
/// prediction: the estimate becomes the predicted one and the step reports `Ok(None)`.
pub proof fn lemma_missing_measurement_only_predicts<
    P: Predict<T, N>,
    U: Update<T, N>,
    T: DspSample,
    const N: usize,
>(filter: Kalman<P, Optional<U>, T, N>, input: P::Input)
    ensures
        filter.update.spec_update(filter.predict.spec_predict(filter.estimate, input), None) == (
            filter.predict.spec_predict(filter.estimate, input),
            Ok::<Option<U::Measurement>, Status>(None),
        ),
{
}

/// The smallest complete filter: one state, `F = H = 1`.
impl<T: DspSample> Kalman<Transition<[[T; 1]; 1], 1, T>, Observation<T, 1>, T, 1> {
    /// Scalar random walk with the given process and measurement noise.
    pub fn random_walk(process_noise: T, measurement_noise: T, initial: Estimate<T, 1>) -> (r: Self)
        ensures
            r.predict.dynamics[0][0] == T::spec_one(),
            r.predict.noise[0][0] == process_noise,
            r.update.matrix[0] == T::spec_one(),
            r.update.noise == measurement_noise,
            r.estimate == initial,
    {
        Kalman::new(
            Transition::new([[T::one()]], [[process_noise]]),
            Observation::new([T::one()], measurement_noise),
            initial,
        )
    }
}

/// The common position/velocity tracker: [`ConstantVelocity`] observed directly at position.
impl<T: DspSample> Kalman<Transition<ConstantVelocity<T>, 2, T>, Observation<T, 2>, T, 2> {
    /// Constant-velocity tracker observing position, i.e. `H = [1, 0]`.
    pub fn constant_velocity(
        interval: T,
        process_noise: [[T; 2]; 2],
        measurement_noise: T,
        initial: Estimate<T, 2>,
    ) -> (r: Self)
        ensures
            r.predict.dynamics.interval == interval,
            r.predict.noise == process_noise,
            r.update.matrix[0] == T::spec_one(),
            r.update.matrix[1] == T::spec_zero(),
            r.update.noise == measurement_noise,
            r.estimate == initial,
    {
        Kalman::new(
            Transition::new(ConstantVelocity::new(interval), process_noise),
            Observation::new([T::one(), T::zero()], measurement_noise),
            initial,
        )
    }
}

} // verus!
