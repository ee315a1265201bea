//! Convolution, correlation and median filtering of fixed-point sequences.
use vstd::prelude::*;
use vstd::relations::sorted_by;

use crate::types::{clamp_int, q15, q31, q7, saturate_i16, saturate_i32, Status};

verus! {

/// A fixed-point format the sequence kernels run on: its bits, its scale and the accumulator the
/// kernels sum its products in.
pub trait FixedSample: Copy {
    /// The raw bit pattern as an integer.
    spec fn value(self) -> int;

    /// `2^frac`: the value `1.0` stands for.
    spec fn frac_scale() -> int;

    /// Half the range of the accumulator the kernels sum in: every partial sum lies in
    /// `[-acc_bound, acc_bound)`.
    spec fn acc_bound() -> int;

    /// An accumulated sum saturated back into the format.
    spec fn from_acc(v: int) -> Self;

    /// `v` is the value of some sample of the format.
    spec fn in_range(v: int) -> bool;

    /// Every sample's value is in range.
    proof fn lemma_in_range(x: Self)
        ensures
            Self::in_range(x.value()),
    ;

    /// The scale is positive.
    proof fn lemma_scale_positive()
        ensures
            Self::frac_scale() > 0,
    ;

    /// Values in range fit in 32 bits.
    proof fn lemma_range_bound(v: int)
        requires
            Self::in_range(v),
        ensures
            -0x8000_0000 <= v < 0x8000_0000,
    ;

    /// Saturating a value in range keeps it.
    proof fn lemma_from_acc_value(v: int)
        requires
            Self::in_range(v),
        ensures
            Self::from_acc(v).value() == v,
    ;

    /// The raw bit pattern.
    fn raw(self) -> (r: i64)
        ensures
            r == self.value(),
            -0x8000_0000 <= r < 0x8000_0000,
    ;

    /// `(a · b) >> frac`.
    fn product(a: Self, b: Self) -> (r: i64)
        ensures
            r == (a.value() * b.value()) / Self::frac_scale(),
            -0x8000_0000 <= r <= 0x8000_0000,
    ;

    /// `(a · b) >> (frac + 2)`.
    fn product_quarter(a: Self, b: Self) -> (r: i64)
        ensures
            r == (a.value() * b.value()) / (4 * Self::frac_scale()),
            -0x4000_0000 <= r <= 0x4000_0000,
    ;

    /// The zero sample.
    fn zero_sample() -> (r: Self)
        ensures
            r.value() == 0,
    ;

    /// `acc` saturated into the format.
    fn saturate(acc: i64) -> (r: Self)
        ensures
            r == Self::from_acc(acc as int),
    ;
}

impl FixedSample for q7 {
    open spec fn value(self) -> int {
        self.0 as int
    }

    open spec fn frac_scale() -> int {
        0x80
    }

    /// Summed in an `i32`.
    open spec fn acc_bound() -> int {
        0x8000_0000
    }

    open spec fn from_acc(v: int) -> q7 {
        q7(clamp_int(v, i8::MIN as int, i8::MAX as int) as i8)
    }

    open spec fn in_range(v: int) -> bool {
        i8::MIN <= v <= i8::MAX
    }

    proof fn lemma_in_range(x: q7) {
    }

    proof fn lemma_range_bound(v: int) {
    }

    proof fn lemma_scale_positive() {
    }

    proof fn lemma_from_acc_value(v: int) {
    }

    fn raw(self) -> (r: i64) {
        self.0 as i64
    }

    fn zero_sample() -> (r: q7) {
        q7(0)
    }

    fn product_quarter(a: q7, b: q7) -> (r: i64) {
        proof {
            crate::types::lemma_mul_abs_bound(a.0 as int, b.0 as int, 0x80);
            crate::types::lemma_shr_is_floor_div();
        }
        (a.0 as i64 * b.0 as i64) >> 9u64
    }

    fn product(a: q7, b: q7) -> (r: i64) {
        proof {
            crate::types::lemma_mul_abs_bound(a.0 as int, b.0 as int, 0x80);
            crate::types::lemma_shr_is_floor_div();
        }
        (a.0 as i64 * b.0 as i64) >> 7u64
    }

    fn saturate(acc: i64) -> (r: q7) {
        if acc > i8::MAX as i64 {
            q7(i8::MAX)
        } else if acc < i8::MIN as i64 {
            q7(i8::MIN)
        } else {
            q7(acc as i8)
        }
    }
}

impl FixedSample for q15 {
    open spec fn value(self) -> int {
        self.0 as int
    }

    open spec fn frac_scale() -> int {
        0x8000
    }

    /// Summed in an `i32`.
    open spec fn acc_bound() -> int {
        0x8000_0000
    }

    open spec fn from_acc(v: int) -> q15 {
        q15(clamp_int(v, i16::MIN as int, i16::MAX as int) as i16)
    }

    open spec fn in_range(v: int) -> bool {
        i16::MIN <= v <= i16::MAX
    }

    proof fn lemma_in_range(x: q15) {
    }

    proof fn lemma_range_bound(v: int) {
    }

    proof fn lemma_scale_positive() {
    }

    proof fn lemma_from_acc_value(v: int) {
    }

    fn raw(self) -> (r: i64) {
        self.0 as i64
    }

    fn zero_sample() -> (r: q15) {
        q15(0)
    }

    fn product_quarter(a: q15, b: q15) -> (r: i64) {
        proof {
            crate::types::lemma_mul_abs_bound(a.0 as int, b.0 as int, 0x8000);
            crate::types::lemma_shr_is_floor_div();
        }
        (a.0 as i64 * b.0 as i64) >> 17u64
    }

    fn product(a: q15, b: q15) -> (r: i64) {
        proof {
            crate::types::lemma_mul_abs_bound(a.0 as int, b.0 as int, 0x8000);
            crate::types::lemma_shr_is_floor_div();
        }
        (a.0 as i64 * b.0 as i64) >> 15u64
    }

    fn saturate(acc: i64) -> (r: q15) {
        q15(saturate_i16(acc))
    }
}

impl FixedSample for q31 {
    open spec fn value(self) -> int {
        self.0 as int
    }

    open spec fn frac_scale() -> int {
        0x8000_0000
    }

    /// Summed in an `i64`.
    open spec fn acc_bound() -> int {
        0x8000_0000_0000_0000
    }

    open spec fn from_acc(v: int) -> q31 {
        q31(clamp_int(v, i32::MIN as int, i32::MAX as int) as i32)
    }

    open spec fn in_range(v: int) -> bool {
        i32::MIN <= v <= i32::MAX
    }

    proof fn lemma_in_range(x: q31) {
    }

    proof fn lemma_range_bound(v: int) {
    }

    proof fn lemma_scale_positive() {
    }

    proof fn lemma_from_acc_value(v: int) {
    }

    fn raw(self) -> (r: i64) {
        self.0 as i64
    }

    fn zero_sample() -> (r: q31) {
        q31(0)
    }

    fn product_quarter(a: q31, b: q31) -> (r: i64) {
        proof {
            crate::types::lemma_mul_abs_bound(a.0 as int, b.0 as int, 0x8000_0000);
            crate::types::lemma_shr_is_floor_div();
        }
        (a.0 as i64 * b.0 as i64) >> 33u64
    }

    fn product(a: q31, b: q31) -> (r: i64) {
        proof {
            crate::types::lemma_mul_abs_bound(a.0 as int, b.0 as int, 0x8000_0000);
            crate::types::lemma_shr_is_floor_div();
        }
        (a.0 as i64 * b.0 as i64) >> 31u64
    }

    fn saturate(acc: i64) -> (r: q31) {
        q31(saturate_i32(acc))
    }
}

/// The raw values of a sequence of samples.
pub open spec fn values<S: FixedSample>(s: Seq<S>) -> Seq<int> {
    s.map_values(|x: S| x.value())
}

/// The number of output samples: the full length `la + lb - 1`, cut to the destination.
pub open spec fn out_len(la: int, lb: int, ld: int) -> int {
    if la + lb - 1 < ld {
        la + lb - 1
    } else {
        ld
    }
}

// ─────────────────────────────────────────────────────────────────────────────
// Convolution
// ─────────────────────────────────────────────────────────────────────────────

/// The first index of `a` that meets `b` in output `n`.
pub open spec fn conv_lo(n: int, lb: int) -> int {
    if n >= lb - 1 {
        n - (lb - 1)
    } else {
        0
    }
}

/// One past the last index of `a` that meets `b` in output `n`.
pub open spec fn conv_hi(n: int, la: int) -> int {
    if n < la - 1 {
        n + 1
    } else {
        la
    }
}

/// `Σ (a[k] · b[n - k]) >> frac` for `k` in `lo..hi`, each product shifted before it is summed.
pub open spec fn conv_sum(a: Seq<int>, b: Seq<int>, scale: int, n: int, lo: int, hi: int) -> int
    decreases hi - lo,
{
    if hi <= lo {
        0
    } else {
        conv_sum(a, b, scale, n, lo, hi - 1) + (a[hi - 1] * b[n - (hi - 1)]) / scale
    }
}

/// Output `n` of the convolution, before saturation.
pub open spec fn conv_value(a: Seq<int>, b: Seq<int>, scale: int, n: int) -> int {
    conv_sum(a, b, scale, n, conv_lo(n, b.len() as int), conv_hi(n, a.len() as int))
}

/// Every partial sum of every output stays inside the accumulator.
pub open spec fn conv_fits(a: Seq<int>, b: Seq<int>, scale: int, outs: int, bound: int) -> bool {
    forall|n: int, h: int|
        0 <= n < outs && conv_lo(n, b.len() as int) <= h <= conv_hi(n, a.len() as int) ==> -bound
            <= #[trigger] conv_sum(a, b, scale, n, conv_lo(n, b.len() as int), h) < bound
}

/// The inputs a convolution runs on without a fault: the lengths add up within `usize`, and a
/// non-empty output needs both inputs non-empty and every partial sum inside the accumulator.
pub open spec fn conv_ok<S: FixedSample>(a: Seq<S>, b: Seq<S>, ld: int) -> bool {
    &&& 1 <= a.len() + b.len() <= usize::MAX
    &&& out_len(a.len() as int, b.len() as int, ld) > 0 ==> a.len() >= 1 && b.len() >= 1
    &&& conv_fits(
        values(a),
        values(b),
        S::frac_scale(),
        out_len(a.len() as int, b.len() as int, ld),
        S::acc_bound(),
    )
}

fn conv_kernel<S: FixedSample>(src_a: &[S], src_b: &[S], dst: &mut [S])
    requires
        conv_ok(src_a@, src_b@, old(dst)@.len() as int),
        S::acc_bound() <= 0x8000_0000_0000_0000,
    ensures
        final(dst)@.len() == old(dst)@.len(),
        forall|n: int|
            0 <= n < out_len(src_a@.len() as int, src_b@.len() as int, old(dst)@.len() as int)
                ==> #[trigger] final(dst)@[n] == S::from_acc(
                conv_value(values(src_a@), values(src_b@), S::frac_scale(), n),
            ),
        forall|n: int|
            out_len(src_a@.len() as int, src_b@.len() as int, old(dst)@.len() as int) <= n
                < old(dst)@.len() ==> #[trigger] final(dst)@[n] == old(dst)@[n],
{
    let len_a = src_a.len();
    let len_b = src_b.len();
    let full = len_a + len_b - 1;
    let outs = if full < dst.len() {
        full
    } else {
        dst.len()
    };
    let ghost a = values(src_a@);
    let ghost b = values(src_b@);
    let ghost d0 = dst@;
    let mut n: usize = 0;
    while n < outs
        invariant
            n <= outs,
            outs == out_len(len_a as int, len_b as int, d0.len() as int),
            len_a == src_a@.len(),
            len_b == src_b@.len(),
            a == values(src_a@),
            b == values(src_b@),
            outs > 0 ==> len_a >= 1 && len_b >= 1,
            conv_fits(a, b, S::frac_scale(), outs as int, S::acc_bound()),
            S::acc_bound() <= 0x8000_0000_0000_0000,
            dst@.len() == d0.len(),
            forall|j: int| 0 <= j < n ==> #[trigger] dst@[j] == S::from_acc(
                conv_value(a, b, S::frac_scale(), j),
            ),
            forall|j: int| n <= j < d0.len() ==> #[trigger] dst@[j] == d0[j],
        decreases outs - n,
    {
        let k_min = if n >= len_b - 1 {
            n - (len_b - 1)
        } else {
            0
        };
        let k_end = if n < len_a - 1 {
            n + 1
        } else {
            len_a
        };
        let mut acc: i64 = 0;
        let mut k = k_min;
        proof {
            assert(conv_lo(n as int, len_b as int) <= conv_hi(n as int, len_a as int));
        }
        while k < k_end
            invariant
                k_min <= k <= k_end,
                k_min == conv_lo(n as int, len_b as int),
                k_end == conv_hi(n as int, len_a as int),
                k_end <= len_a,
                n < outs,
                len_a == src_a@.len(),
                len_b == src_b@.len(),
                a == values(src_a@),
                b == values(src_b@),
                conv_fits(a, b, S::frac_scale(), outs as int, S::acc_bound()),
                S::acc_bound() <= 0x8000_0000_0000_0000,
                acc == conv_sum(a, b, S::frac_scale(), n as int, k_min as int, k as int),
            decreases k_end - k,
        {
            let t = S::product(src_a[k], src_b[n - k]);
            proof {
                assert(b.len() == len_b && a.len() == len_a);
                assert(-S::acc_bound() <= conv_sum(
                    a,
                    b,
                    S::frac_scale(),
                    n as int,
                    conv_lo(n as int, b.len() as int),
                    k + 1,
                ) < S::acc_bound());
                assert(a[k as int] == src_a@[k as int].value());
                assert(b[n - k] == src_b@[n - k].value());
            }
            acc = acc + t;
            k = k + 1;
        }
        dst[n] = S::saturate(acc);
        n = n + 1;
    }
}

/// Convolution (`q31`) into `dst`: output `n` is `Σ (a[k] · b[n-k]) >> 31` over the indices
/// that meet, saturated, for the first `min(la + lb - 1, dst.len())` outputs; the rest of `dst`
/// is left alone.
pub fn conv_q31(src_a: &[q31], src_b: &[q31], dst: &mut [q31])
    requires
        conv_ok(src_a@, src_b@, old(dst)@.len() as int),
    ensures
        final(dst)@.len() == old(dst)@.len(),
        forall|n: int|
            0 <= n < out_len(src_a@.len() as int, src_b@.len() as int, old(dst)@.len() as int)
                ==> #[trigger] final(dst)@[n] == q31::from_acc(
                conv_value(values(src_a@), values(src_b@), 0x8000_0000, n),
            ),
        forall|n: int|
            out_len(src_a@.len() as int, src_b@.len() as int, old(dst)@.len() as int) <= n
                < old(dst)@.len() ==> #[trigger] final(dst)@[n] == old(dst)@[n],
{
    conv_kernel(src_a, src_b, dst);
}

/// Convolution (`q15`) into `dst`: output `n` is `Σ (a[k] · b[n-k]) >> 15` over the indices
/// that meet, saturated, for the first `min(la + lb - 1, dst.len())` outputs; the rest of `dst`
/// is left alone.
pub fn conv_q15(src_a: &[q15], src_b: &[q15], dst: &mut [q15])
    requires
        conv_ok(src_a@, src_b@, old(dst)@.len() as int),
    ensures
        final(dst)@.len() == old(dst)@.len(),
        forall|n: int|
            0 <= n < out_len(src_a@.len() as int, src_b@.len() as int, old(dst)@.len() as int)
                ==> #[trigger] final(dst)@[n] == q15::from_acc(
                conv_value(values(src_a@), values(src_b@), 0x8000, n),
            ),
        forall|n: int|
            out_len(src_a@.len() as int, src_b@.len() as int, old(dst)@.len() as int) <= n
                < old(dst)@.len() ==> #[trigger] final(dst)@[n] == old(dst)@[n],
{
    conv_kernel(src_a, src_b, dst);
}

/// Convolution (`q7`) into `dst`: output `n` is `Σ (a[k] · b[n-k]) >> 7` over the indices that
/// meet, saturated, for the first `min(la + lb - 1, dst.len())` outputs; the rest of `dst` is
/// left alone.
pub fn conv_q7(src_a: &[q7], src_b: &[q7], dst: &mut [q7])
    requires
        conv_ok(src_a@, src_b@, old(dst)@.len() as int),
    ensures
        final(dst)@.len() == old(dst)@.len(),
        forall|n: int|
            0 <= n < out_len(src_a@.len() as int, src_b@.len() as int, old(dst)@.len() as int)
                ==> #[trigger] final(dst)@[n] == q7::from_acc(
                conv_value(values(src_a@), values(src_b@), 0x80, n),
            ),
        forall|n: int|
            out_len(src_a@.len() as int, src_b@.len() as int, old(dst)@.len() as int) <= n
                < old(dst)@.len() ==> #[trigger] final(dst)@[n] == old(dst)@[n],
{
    conv_kernel(src_a, src_b, dst);
}


// ─────────────────────────────────────────────────────────────────────────────
// Correlation
// ─────────────────────────────────────────────────────────────────────────────

/// Term `k` of correlation output `n`: `(a[k] · b[k + lb - 1 - n]) >> frac` where that index of
/// `b` exists, else nothing.
pub open spec fn corr_term(a: Seq<int>, b: Seq<int>, scale: int, n: int, k: int) -> int {
    let idx = k + b.len() - 1 - n;
    if 0 <= idx < b.len() {
        (a[k] * b[idx]) / scale
    } else {
        0
    }
}

/// The first `h` terms of correlation output `n`, summed in order.
pub open spec fn corr_sum(a: Seq<int>, b: Seq<int>, scale: int, n: int, h: int) -> int
    decreases h,
{
    if h <= 0 {
        0
    } else {
        corr_sum(a, b, scale, n, h - 1) + corr_term(a, b, scale, n, h - 1)
    }
}

/// Every partial sum of every correlation output stays inside the accumulator.
pub open spec fn corr_fits(a: Seq<int>, b: Seq<int>, scale: int, outs: int, bound: int) -> bool {
    forall|n: int, h: int|
        0 <= n < outs && 0 <= h <= a.len() ==> -bound <= #[trigger] corr_sum(a, b, scale, n, h)
            < bound
}

/// The inputs a correlation runs on without a fault: the lengths add up within `usize` and
/// every partial sum stays inside the accumulator.
pub open spec fn corr_ok<S: FixedSample>(a: Seq<S>, b: Seq<S>, ld: int) -> bool {
    &&& 1 <= a.len() + b.len() <= usize::MAX
    &&& corr_fits(
        values(a),
        values(b),
        S::frac_scale(),
        out_len(a.len() as int, b.len() as int, ld),
        S::acc_bound(),
    )
}

fn corr_kernel<S: FixedSample>(src_a: &[S], src_b: &[S], dst: &mut [S])
    requires
        corr_ok(src_a@, src_b@, old(dst)@.len() as int),
        S::acc_bound() <= 0x8000_0000_0000_0000,
    ensures
        final(dst)@.len() == old(dst)@.len(),
        forall|n: int|
            0 <= n < out_len(src_a@.len() as int, src_b@.len() as int, old(dst)@.len() as int)
                ==> #[trigger] final(dst)@[n] == S::from_acc(
                corr_sum(values(src_a@), values(src_b@), S::frac_scale(), n, src_a@.len() as int),
            ),
        forall|n: int|
            out_len(src_a@.len() as int, src_b@.len() as int, old(dst)@.len() as int) <= n
                < old(dst)@.len() ==> #[trigger] final(dst)@[n] == old(dst)@[n],
{
    let len_a = src_a.len();
    let len_b = src_b.len();
    let full = len_a + len_b - 1;
    let outs = if full < dst.len() {
        full
    } else {
        dst.len()
    };
    let ghost a = values(src_a@);
    let ghost b = values(src_b@);
    let ghost d0 = dst@;
    let mut n: usize = 0;
    while n < outs
        invariant
            n <= outs,
            outs == out_len(len_a as int, len_b as int, d0.len() as int),
            len_a == src_a@.len(),
            len_b == src_b@.len(),
            len_a + len_b <= usize::MAX,
            a == values(src_a@),
            b == values(src_b@),
            corr_fits(a, b, S::frac_scale(), outs as int, S::acc_bound()),
            S::acc_bound() <= 0x8000_0000_0000_0000,
            dst@.len() == d0.len(),
            forall|j: int| 0 <= j < n ==> #[trigger] dst@[j] == S::from_acc(
                corr_sum(a, b, S::frac_scale(), j, len_a as int),
            ),
            forall|j: int| n <= j < d0.len() ==> #[trigger] dst@[j] == d0[j],
        decreases outs - n,
    {
        let mut acc: i64 = 0;
        let mut k: usize = 0;
        while k < len_a
            invariant
                k <= len_a,
                n < outs,
                len_a == src_a@.len(),
                len_b == src_b@.len(),
                len_a + len_b <= usize::MAX,
                a == values(src_a@),
                b == values(src_b@),
                corr_fits(a, b, S::frac_scale(), outs as int, S::acc_bound()),
                S::acc_bound() <= 0x8000_0000_0000_0000,
                acc == corr_sum(a, b, S::frac_scale(), n as int, k as int),
            decreases len_a - k,
        {
            proof {
                assert(b.len() == len_b && a.len() == len_a);
                assert(-S::acc_bound() <= corr_sum(a, b, S::frac_scale(), n as int, k + 1)
                    < S::acc_bound());
            }
            if k + len_b >= n + 1 && k <= n {
                let idx = k + len_b - 1 - n;
                let t = S::product(src_a[k], src_b[idx]);
                proof {
                    assert(a[k as int] == src_a@[k as int].value());
                    assert(b[idx as int] == src_b@[idx as int].value());
                }
                acc = acc + t;
            }
            k = k + 1;
        }
        dst[n] = S::saturate(acc);
        n = n + 1;
    }
}

/// Correlation (`q31`) into `dst`: output `n` is `Σ (a[k] · b[k + lb - 1 - n]) >> 31` over the
/// `k` where that index of `b` exists, saturated, for the first `min(la + lb - 1, dst.len())`
/// outputs; the rest of `dst` is left alone.
pub fn correlate_q31(src_a: &[q31], src_b: &[q31], dst: &mut [q31])
    requires
        corr_ok(src_a@, src_b@, old(dst)@.len() as int),
    ensures
        final(dst)@.len() == old(dst)@.len(),
        forall|n: int|
            0 <= n < out_len(src_a@.len() as int, src_b@.len() as int, old(dst)@.len() as int)
                ==> #[trigger] final(dst)@[n] == q31::from_acc(
                corr_sum(values(src_a@), values(src_b@), 0x8000_0000, n, src_a@.len() as int),
            ),
        forall|n: int|
            out_len(src_a@.len() as int, src_b@.len() as int, old(dst)@.len() as int) <= n
                < old(dst)@.len() ==> #[trigger] final(dst)@[n] == old(dst)@[n],
{
    corr_kernel(src_a, src_b, dst);
}

/// Correlation (`q15`) into `dst`: output `n` is `Σ (a[k] · b[k + lb - 1 - n]) >> 15` over the
/// `k` where that index of `b` exists, saturated, for the first `min(la + lb - 1, dst.len())`
/// outputs; the rest of `dst` is left alone.
pub fn correlate_q15(src_a: &[q15], src_b: &[q15], dst: &mut [q15])
    requires
        corr_ok(src_a@, src_b@, old(dst)@.len() as int),
    ensures
        final(dst)@.len() == old(dst)@.len(),
        forall|n: int|
            0 <= n < out_len(src_a@.len() as int, src_b@.len() as int, old(dst)@.len() as int)
                ==> #[trigger] final(dst)@[n] == q15::from_acc(
                corr_sum(values(src_a@), values(src_b@), 0x8000, n, src_a@.len() as int),
            ),
        forall|n: int|
            out_len(src_a@.len() as int, src_b@.len() as int, old(dst)@.len() as int) <= n
                < old(dst)@.len() ==> #[trigger] final(dst)@[n] == old(dst)@[n],
{
    corr_kernel(src_a, src_b, dst);
}


// ─────────────────────────────────────────────────────────────────────────────
// Median filter
// ─────────────────────────────────────────────────────────────────────────────

/// The values of a sequence of `i64`s as integers.
pub open spec fn ints(s: Seq<i64>) -> Seq<int> {
    s.map_values(|v: i64| v as int)
}

/// `s[lo..hi]` is in ascending order.
pub open spec fn sorted_between(s: Seq<i64>, lo: int, hi: int) -> bool {
    forall|i: int, j: int| lo <= i < j < hi ==> s[i] <= s[j]
}

/// Source index of window slot `j` around sample `i`: `i + j - half`, clamped into the signal.
pub open spec fn window_index(i: int, j: int, half: int, n: int) -> int {
    clamp_int(i + j - half, 0, n - 1)
}

/// The `w` samples of the window centred on sample `i`, the edges repeated.
pub open spec fn window_values(src: Seq<int>, i: int, w: int) -> Seq<int> {
    Seq::new(w as nat, |j: int| src[window_index(i, j, w / 2, src.len() as int)])
}

/// The median of the window centred on sample `i`: the middle of its values in ascending order.
pub open spec fn window_median(src: Seq<int>, i: int, w: int) -> int {
    window_values(src, i, w).sort()[w / 2]
}

/// Output `i` of the median filter: the window median where the sample differs from it by at
/// least `threshold`, otherwise the sample itself.
pub open spec fn median_pick(src: Seq<int>, i: int, w: int, threshold: int) -> int {
    let med = window_median(src, i, w);
    let d = src[i] - med;
    if (if d < 0 {
        -d
    } else {
        d
    }) >= threshold {
        med
    } else {
        src[i]
    }
}

/// A usable window: odd, and at most 63 samples.
pub open spec fn median_window_ok(w: int) -> bool {
    w != 0 && w % 2 == 1 && w <= 63
}

/// Swapping two neighbours keeps the multiset of values.
proof fn lemma_swap_multiset(s: Seq<int>, i: int)
    requires
        0 <= i,
        i + 1 < s.len(),
    ensures
        s.update(i, s[i + 1]).update(i + 1, s[i]).to_multiset() == s.to_multiset(),
{
    broadcast use vstd::seq_lib::to_multiset_update;
    broadcast use vstd::seq_lib::group_to_multiset_ensures;
    broadcast use vstd::multiset::group_multiset_axioms;

    assert(s.contains(s[i]));
    assert(s.to_multiset().count(s[i]) > 0);

    let t = s.update(i, s[i + 1]);
    assert(t[i + 1] == s[i + 1]);
    assert(t.to_multiset() == s.to_multiset().insert(s[i + 1]).remove(s[i]));
    assert(t.update(i + 1, s[i]).to_multiset() == t.to_multiset().insert(s[i]).remove(s[i + 1]));
    assert(s.to_multiset().insert(s[i + 1]).remove(s[i]).insert(s[i]).remove(s[i + 1])
        =~= s.to_multiset());
}

/// Insertion sort of `buf[0..w]`.
fn sort_prefix(buf: &mut [i64; 64], w: usize)
    requires
        w <= 64,
    ensures
        ints(final(buf)@.subrange(0, w as int)) == ints(old(buf)@.subrange(0, w as int)).sort(),
{
    let ghost m0 = ints(buf@.subrange(0, w as int)).to_multiset();
    let ghost p0 = ints(buf@.subrange(0, w as int));
    let mut a: usize = 1;
    while a < w
        invariant
            1 <= a,
            w <= 64,
            a <= w || w == 0,
            ints(buf@.subrange(0, w as int)).to_multiset() == m0,
            sorted_between(buf@, 0, a as int),
        decreases w - a,
    {
        let mut b: usize = a;
        while b > 0 && buf[b - 1] > buf[b]
            invariant
                b <= a < w,
                w <= 64,
                ints(buf@.subrange(0, w as int)).to_multiset() == m0,
                sorted_between(buf@, 0, b as int),
                sorted_between(buf@, b as int, a + 1),
                forall|i: int, j: int| 0 <= i < b && b < j <= a ==> buf@[i] <= buf@[j],
            decreases b,
        {
            let ghost before = buf@;
            let ghost p = ints(before.subrange(0, w as int));
            let hi = buf[b - 1];
            let lo = buf[b];
            buf[b - 1] = lo;
            buf[b] = hi;
            proof {
                lemma_swap_multiset(p, b - 1);
                assert(ints(buf@.subrange(0, w as int)) =~= p.update(b - 1, p[b as int]).update(
                    b as int,
                    p[b - 1],
                ));
            }
            b = b - 1;
        }
        a = a + 1;
    }
    proof {
        let p = ints(buf@.subrange(0, w as int));
        let leq = |x: int, y: int| x <= y;
        assert(sorted_by(p, leq));
        p0.lemma_sort_ensures();
        assert(p.to_multiset() == p0.sort().to_multiset());
        vstd::seq_lib::lemma_sorted_unique(p, p0.sort(), leq);
    }
}

fn median_kernel<S: FixedSample>(src: &[S], dst: &mut [S], window_len: usize, threshold: S) -> (r:
    Status)
    requires
        S::acc_bound() <= 0x8000_0000_0000_0000,
    ensures
        src@.len() == 0 || old(dst)@.len() < src@.len() ==> r == Status::LengthError && final(dst)@ == old(dst)@,
        !(src@.len() == 0 || old(dst)@.len() < src@.len()) && !median_window_ok(window_len as int)
            ==> r == Status::ArgumentError && final(dst)@ == old(dst)@,
        !(src@.len() == 0 || old(dst)@.len() < src@.len()) && median_window_ok(window_len as int)
            ==> r == Status::Success && final(dst)@.len() == old(dst)@.len() && (forall|i: int|
            0 <= i < src@.len() ==> (#[trigger] final(dst)@[i]).value() == median_pick(
                values(src@),
                i,
                window_len as int,
                threshold.value(),
            )) && (forall|i: int|
            src@.len() <= i < old(dst)@.len() ==> #[trigger] final(dst)@[i] == old(dst)@[i]),
{
    let n = src.len();
    if n == 0 || dst.len() < n {
        return Status::LengthError;
    }
    if window_len == 0 || window_len % 2 == 0 || window_len > 63 {
        return Status::ArgumentError;
    }
    let half = window_len / 2;
    let mut sort_buf = [0i64; 64];
    let ghost vs = values(src@);
    let ghost d0 = dst@;
    let mut i: usize = 0;
    while i < n
        invariant
            i <= n,
            n == src@.len(),
            n <= d0.len(),
            half == window_len / 2,
            median_window_ok(window_len as int),
            vs == values(src@),
            dst@.len() == d0.len(),
            forall|j: int| 0 <= j < i ==> (#[trigger] dst@[j]).value() == median_pick(
                vs,
                j,
                window_len as int,
                threshold.value(),
            ),
            forall|j: int| n <= j < d0.len() ==> #[trigger] dst@[j] == d0[j],
        decreases n - i,
    {
        let mut j: usize = 0;
        while j < window_len
            invariant
                j <= window_len,
                i < n,
                n == src@.len(),
                half == window_len / 2,
                median_window_ok(window_len as int),
                vs == values(src@),
                forall|t: int| 0 <= t < j ==> #[trigger] sort_buf@[t] as int == window_values(
                    vs,
                    i as int,
                    window_len as int,
                )[t],
                forall|t: int| 0 <= t < j ==> S::in_range(#[trigger] sort_buf@[t] as int),
            decreases window_len - j,
        {
            let idx = if j < half {
                if i >= half - j {
                    i - (half - j)
                } else {
                    0
                }
            } else if j - half > n - 1 - i {
                n - 1
            } else {
                i + (j - half)
            };
            sort_buf[j] = src[idx].raw();
            proof {
                S::lemma_in_range(src@[idx as int]);
                assert(vs[idx as int] == src@[idx as int].value());
            }
            j = j + 1;
        }
        let ghost window = sort_buf@.subrange(0, window_len as int);
        proof {
            assert(ints(window) =~= window_values(vs, i as int, window_len as int));
        }
        sort_prefix(&mut sort_buf, window_len);
        let med = sort_buf[half];
        proof {
            let wv = window_values(vs, i as int, window_len as int);
            wv.lemma_sort_ensures();
            assert(ints(sort_buf@.subrange(0, window_len as int))[half as int] == med as int);
            assert(wv.sort().to_multiset().count(med as int) > 0) by {
                broadcast use vstd::seq_lib::group_to_multiset_ensures;
                assert(wv.sort().contains(med as int));
            }
            assert(wv.contains(med as int)) by {
                broadcast use vstd::seq_lib::group_to_multiset_ensures;
            }
            let t = choose|t: int| 0 <= t < wv.len() && wv[t] == med as int;
            assert(ints(window)[t] == med as int);
            assert(S::in_range(window[t] as int));
            S::lemma_range_bound(med as int);
        }
        let center = src[i].raw();
        let d = center - med;
        let diff = if d < 0 {
            -d
        } else {
            d
        };
        proof {
            S::lemma_in_range(threshold);
        }
        if diff >= threshold.raw() {
            proof {
                S::lemma_from_acc_value(med as int);
            }
            dst[i] = S::saturate(med);
        } else {
            dst[i] = src[i];
        }
        i = i + 1;
    }
    Status::Success
}

/// Median filter (`q15`) with an odd window of at most 63 samples, edges repeated: each output
/// is the window median where the input differs from it by at least `threshold`, else the input.
///
/// An empty input or a short destination is a `LengthError`, a bad window an `ArgumentError`;
/// either leaves `dst` alone.
pub fn median_filter_1d_q15(src: &[q15], dst: &mut [q15], window_len: usize, threshold: q15) -> (r:
    Status)
    ensures
        src@.len() == 0 || old(dst)@.len() < src@.len() ==> r == Status::LengthError && final(dst)@ == old(dst)@,
        !(src@.len() == 0 || old(dst)@.len() < src@.len()) && !median_window_ok(window_len as int)
            ==> r == Status::ArgumentError && final(dst)@ == old(dst)@,
        !(src@.len() == 0 || old(dst)@.len() < src@.len()) && median_window_ok(window_len as int)
            ==> r == Status::Success && final(dst)@.len() == old(dst)@.len() && (forall|i: int|
            0 <= i < src@.len() ==> (#[trigger] final(dst)@[i]).0 == median_pick(
                values(src@),
                i,
                window_len as int,
                threshold.0 as int,
            )) && (forall|i: int|
            src@.len() <= i < old(dst)@.len() ==> #[trigger] final(dst)@[i] == old(dst)@[i]),
{
    median_kernel(src, dst, window_len, threshold)
}

/// Median filter (`q31`) with an odd window of at most 63 samples, edges repeated: each output
/// is the window median where the input differs from it by at least `threshold`, else the input.
///
/// An empty input or a short destination is a `LengthError`, a bad window an `ArgumentError`;
/// either leaves `dst` alone.
pub fn median_filter_1d_q31(src: &[q31], dst: &mut [q31], window_len: usize, threshold: q31) -> (r:
    Status)
    ensures
        src@.len() == 0 || old(dst)@.len() < src@.len() ==> r == Status::LengthError && final(dst)@ == old(dst)@,
        !(src@.len() == 0 || old(dst)@.len() < src@.len()) && !median_window_ok(window_len as int)
            ==> r == Status::ArgumentError && final(dst)@ == old(dst)@,
        !(src@.len() == 0 || old(dst)@.len() < src@.len()) && median_window_ok(window_len as int)
            ==> r == Status::Success && final(dst)@.len() == old(dst)@.len() && (forall|i: int|
            0 <= i < src@.len() ==> (#[trigger] final(dst)@[i]).0 == median_pick(
                values(src@),
                i,
                window_len as int,
                threshold.0 as int,
            )) && (forall|i: int|
            src@.len() <= i < old(dst)@.len() ==> #[trigger] final(dst)@[i] == old(dst)@[i]),
{
    median_kernel(src, dst, window_len, threshold)
}


// ─────────────────────────────────────────────────────────────────────────────
// Complex dot product terms
// ─────────────────────────────────────────────────────────────────────────────

/// The unshifted real part of complex term `i` of two interleaved vectors:
/// `ar·br - ai·bi`.
pub open spec fn raw_real<S: FixedSample>(a: Seq<S>, b: Seq<S>, i: int) -> int {
    a[2 * i].value() * b[2 * i].value() - a[2 * i + 1].value() * b[2 * i + 1].value()
}

/// The unshifted imaginary part of complex term `i` of two interleaved vectors:
/// `ar·bi + ai·br`.
pub open spec fn raw_imag<S: FixedSample>(a: Seq<S>, b: Seq<S>, i: int) -> int {
    a[2 * i].value() * b[2 * i + 1].value() + a[2 * i + 1].value() * b[2 * i].value()
}

/// The sums over the first `n` complex terms of each raw part arithmetically shifted right by
/// `shift`: `(real, imag)`.
pub open spec fn dot_sums<S: FixedSample>(a: Seq<S>, b: Seq<S>, shift: u32, n: nat) -> (int, int)
    decreases n,
{
    if n == 0 {
        (0, 0)
    } else {
        let prev = dot_sums(a, b, shift, (n - 1) as nat);
        (
            prev.0 + ((raw_real(a, b, n - 1) as i64) >> shift) as int,
            prev.1 + ((raw_imag(a, b, n - 1) as i64) >> shift) as int,
        )
    }
}

/// Every raw imaginary part and every partial sum of both parts of the complex dot product
/// stays inside an `i64`.
pub open spec fn dot_fits<S: FixedSample>(a: Seq<S>, b: Seq<S>, shift: u32, n: nat) -> bool {
    &&& forall|k: int| 0 <= k < n ==> #[trigger] raw_imag(a, b, k) <= i64::MAX
    &&& forall|k: nat|
        k <= n ==> i64::MIN <= (#[trigger] dot_sums(a, b, shift, k)).0 <= i64::MAX && i64::MIN
            <= dot_sums(a, b, shift, k).1 <= i64::MAX
}

/// A product of two values in the 32-bit sample range.
proof fn lemma_product_range(x: int, y: int)
    requires
        -0x8000_0000 <= x < 0x8000_0000,
        -0x8000_0000 <= y < 0x8000_0000,
    ensures
        -0x3fff_ffff_8000_0000 <= x * y <= 0x4000_0000_0000_0000,
{
    assert(-0x3fff_ffff_8000_0000 <= x * y <= 0x4000_0000_0000_0000) by (nonlinear_arith)
        requires
            -0x8000_0000 <= x < 0x8000_0000,
            -0x8000_0000 <= y < 0x8000_0000,
    ;
}

/// The complex dot product of the first `n` complex terms, each raw part shifted right by
/// `shift` before it is summed: `(real, imag)`.
pub(crate) fn fixed_dot_prod<S: FixedSample>(src_a: &[S], src_b: &[S], n: usize, shift: u32) -> (r: (
    i64,
    i64,
))
    requires
        2 * n <= src_a@.len(),
        2 * n <= src_b@.len(),
        shift < 64,
        dot_fits(src_a@, src_b@, shift, n as nat),
    ensures
        r.0 == dot_sums(src_a@, src_b@, shift, n as nat).0,
        r.1 == dot_sums(src_a@, src_b@, shift, n as nat).1,
{
    let la = src_a.len();
    let mut real_sum: i64 = 0;
    let mut imag_sum: i64 = 0;
    let mut i: usize = 0;
    while i < n
        invariant
            i <= n,
            la == src_a@.len(),
            2 * n <= src_a@.len(),
            2 * n <= src_b@.len(),
            shift < 64,
            dot_fits(src_a@, src_b@, shift, n as nat),
            (real_sum as int, imag_sum as int) == dot_sums(src_a@, src_b@, shift, i as nat),
        decreases n - i,
    {
        let ar = src_a[2 * i].raw();
        let ai = src_a[2 * i + 1].raw();
        let br = src_b[2 * i].raw();
        let bi = src_b[2 * i + 1].raw();
        proof {
            lemma_product_range(ar as int, br as int);
            lemma_product_range(ai as int, bi as int);
            lemma_product_range(ar as int, bi as int);
            lemma_product_range(ai as int, br as int);
            assert(dot_sums(src_a@, src_b@, shift, (i + 1) as nat).0 <= i64::MAX);
            assert(raw_imag(src_a@, src_b@, i as int) <= i64::MAX);
        }
        let raw_re = ar * br - ai * bi;
        let raw_im = ar * bi + ai * br;
        real_sum = real_sum + (raw_re >> shift);
        imag_sum = imag_sum + (raw_im >> shift);
        i = i + 1;
    }
    (real_sum, imag_sum)
}


// ─────────────────────────────────────────────────────────────────────────────
// Element-wise complex products
// ─────────────────────────────────────────────────────────────────────────────

/// `(x · y) >> frac`: one product at sample scale.
pub open spec fn scaled_product<T: FixedSample>(x: T, y: T) -> int {
    (x.value() * y.value()) / T::frac_scale()
}

/// The number of complex samples an element-wise complex product writes.
pub open spec fn pair_count(a_len: nat, b_len: nat, dst_len: nat) -> nat {
    crate::complex_math::min_len(crate::complex_math::min_len(a_len / 2, b_len / 2), dst_len / 2)
}

/// Element-wise product of two interleaved complex vectors into `dst`, each product shifted
/// before the two of a part are combined, then saturated.
pub(crate) fn interleaved_products<T: FixedSample>(src_a: &[T], src_b: &[T], dst: &mut [T])
    ensures
        final(dst)@.len() == old(dst)@.len(),
        forall|k: int|
            0 <= k < pair_count(src_a@.len(), src_b@.len(), old(dst)@.len()) ==> {
                &&& #[trigger] final(dst)@[2 * k] == T::from_acc(
                    scaled_product(src_a@[2 * k], src_b@[2 * k]) - scaled_product(
                        src_a@[2 * k + 1],
                        src_b@[2 * k + 1],
                    ),
                )
                &&& final(dst)@[2 * k + 1] == T::from_acc(
                    scaled_product(src_a@[2 * k], src_b@[2 * k + 1]) + scaled_product(
                        src_a@[2 * k + 1],
                        src_b@[2 * k],
                    ),
                )
            },
        forall|j: int|
            2 * pair_count(src_a@.len(), src_b@.len(), old(dst)@.len()) <= j < old(dst)@.len() ==> #[trigger] final(dst)@[j] == old(dst)@[j],
{
    let ha = src_a.len() / 2;
    let hb = src_b.len() / 2;
    let hd = dst.len() / 2;
    let n = if ha < hb {
        ha
    } else {
        hb
    };
    let n = if n < hd {
        n
    } else {
        hd
    };
    let la = src_a.len();
    let ghost d0 = dst@;
    let mut i: usize = 0;
    while i < n
        invariant
            la == src_a@.len(),
            n == pair_count(src_a@.len(), src_b@.len(), d0.len()),
            2 * n <= src_a@.len(),
            2 * n <= src_b@.len(),
            2 * n <= d0.len(),
            dst@.len() == d0.len(),
            0 <= i <= n,
            forall|k: int|
                0 <= k < i ==> {
                    &&& #[trigger] dst@[2 * k] == T::from_acc(
                        scaled_product(src_a@[2 * k], src_b@[2 * k]) - scaled_product(
                            src_a@[2 * k + 1],
                            src_b@[2 * k + 1],
                        ),
                    )
                    &&& dst@[2 * k + 1] == T::from_acc(
                        scaled_product(src_a@[2 * k], src_b@[2 * k + 1]) + scaled_product(
                            src_a@[2 * k + 1],
                            src_b@[2 * k],
                        ),
                    )
                },
            forall|j: int| 2 * i <= j < d0.len() ==> #[trigger] dst@[j] == d0[j],
        decreases n - i,
    {
        let ar = src_a[2 * i];
        let ai = src_a[2 * i + 1];
        let br = src_b[2 * i];
        let bi = src_b[2 * i + 1];
        let re_part = T::product(ar, br) - T::product(ai, bi);
        let im_part = T::product(ar, bi) + T::product(ai, br);
        let ghost before = dst@;
        dst[2 * i] = T::saturate(re_part);
        dst[2 * i + 1] = T::saturate(im_part);
        proof {
            assert(dst@ == before.update(2 * i as int, T::from_acc(re_part as int)).update(
                2 * i + 1,
                T::from_acc(im_part as int),
            ));
            assert forall|k: int| 0 <= k < i + 1 implies {
                &&& #[trigger] dst@[2 * k] == T::from_acc(
                    scaled_product(src_a@[2 * k], src_b@[2 * k]) - scaled_product(
                        src_a@[2 * k + 1],
                        src_b@[2 * k + 1],
                    ),
                )
                &&& dst@[2 * k + 1] == T::from_acc(
                    scaled_product(src_a@[2 * k], src_b@[2 * k + 1]) + scaled_product(
                        src_a@[2 * k + 1],
                        src_b@[2 * k],
                    ),
                )
            } by {
                if k < i {
                    assert(2 * k + 1 < 2 * i);
                    assert(dst@[2 * k] == before[2 * k]);
                    assert(dst@[2 * k + 1] == before[2 * k + 1]);
                } else {
                    assert(k == i);
                }
            }
        }
        i = i + 1;
    }
}


} // verus!
