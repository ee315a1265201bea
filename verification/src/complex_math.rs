//! Element-wise complex vector arithmetic on interleaved `[re, im, re, im, ...]` slices:
//! sums, products, conjugates, magnitudes and the dot product.
use vstd::prelude::*;
use crate::fast_math::{is_isqrt, sqrt_q15, sqrt_q31};
use crate::filtering::convolution::{
    dot_fits, dot_sums, fixed_dot_prod, interleaved_products, pair_count, scaled_product, FixedSample,
};
use crate::types::{Complex, DspSample, Status, q15, q31, q63};

verus! {

/// The smaller of two lengths.
pub open spec fn min_len(a: nat, b: nat) -> nat {
    if a <= b {
        a
    } else {
        b
    }
}

/// Complex vector addition into `dst`, generic over the sample width. Operates on flat
/// interleaved `[re, im, re, im, ...]` slices; the shortest of the three slices sets the length.
pub fn cmplx_add<T: DspSample>(src_a: &[T], src_b: &[T], dst: &mut [T])
    ensures
        final(dst)@.len() == old(dst)@.len(),
        forall|i: int|
            0 <= i < old(dst)@.len() ==> #[trigger] final(dst)@[i] == if i < min_len(
                src_a@.len(),
                src_b@.len(),
            ) {
                src_a@[i].spec_sat_add(src_b@[i])
            } else {
                old(dst)@[i]
            },
{
    let len = if src_a.len() < src_b.len() {
        src_a.len()
    } else {
        src_b.len()
    };
    let len = if len < dst.len() {
        len
    } else {
        dst.len()
    };
    let mut i: usize = 0;
    while i < len
        invariant
            len <= src_a@.len(),
            len <= src_b@.len(),
            len <= dst@.len(),
            len == min_len(min_len(src_a@.len(), src_b@.len()), old(dst)@.len()),
            dst@.len() == old(dst)@.len(),
            0 <= i <= len,
            forall|j: int| 0 <= j < i ==> #[trigger] dst@[j] == src_a@[j].spec_sat_add(src_b@[j]),
            forall|j: int| i <= j < dst@.len() ==> #[trigger] dst@[j] == old(dst)@[j],
        decreases len - i,
    {
        let v = src_a[i].sat_add(src_b[i]);
        dst[i] = v;
        i = i + 1;
    }
}

/// Complex vector addition (`q31`) into `dst`.
pub fn cmplx_add_q31(src_a: &[q31], src_b: &[q31], dst: &mut [q31])
    ensures
        final(dst)@.len() == old(dst)@.len(),
        forall|i: int|
            0 <= i < old(dst)@.len() ==> #[trigger] final(dst)@[i] == if i < min_len(
                src_a@.len(),
                src_b@.len(),
            ) {
                src_a@[i].spec_sat_add(src_b@[i])
            } else {
                old(dst)@[i]
            },
{
    cmplx_add(src_a, src_b, dst)
}

/// Complex vector addition (`q15`) into `dst`.
pub fn cmplx_add_q15(src_a: &[q15], src_b: &[q15], dst: &mut [q15])
    ensures
        final(dst)@.len() == old(dst)@.len(),
        forall|i: int|
            0 <= i < old(dst)@.len() ==> #[trigger] final(dst)@[i] == if i < min_len(
                src_a@.len(),
                src_b@.len(),
            ) {
                src_a@[i].spec_sat_add(src_b@[i])
            } else {
                old(dst)@[i]
            },
{
    cmplx_add(src_a, src_b, dst)
}

/// Complex vector subtraction into `dst`, generic over the sample width.
pub fn cmplx_sub<T: DspSample>(src_a: &[T], src_b: &[T], dst: &mut [T])
    ensures
        final(dst)@.len() == old(dst)@.len(),
        forall|i: int|
            0 <= i < old(dst)@.len() ==> #[trigger] final(dst)@[i] == if i < min_len(
                src_a@.len(),
                src_b@.len(),
            ) {
                src_a@[i].spec_sat_sub(src_b@[i])
            } else {
                old(dst)@[i]
            },
{
    let len = if src_a.len() < src_b.len() {
        src_a.len()
    } else {
        src_b.len()
    };
    let len = if len < dst.len() {
        len
    } else {
        dst.len()
    };
    let mut i: usize = 0;
    while i < len
        invariant
            len <= src_a@.len(),
            len <= src_b@.len(),
            len <= dst@.len(),
            len == min_len(min_len(src_a@.len(), src_b@.len()), old(dst)@.len()),
            dst@.len() == old(dst)@.len(),
            0 <= i <= len,
            forall|j: int| 0 <= j < i ==> #[trigger] dst@[j] == src_a@[j].spec_sat_sub(src_b@[j]),
            forall|j: int| i <= j < dst@.len() ==> #[trigger] dst@[j] == old(dst)@[j],
        decreases len - i,
    {
        let v = src_a[i].sat_sub(src_b[i]);
        dst[i] = v;
        i = i + 1;
    }
}

/// Complex vector subtraction (`q31`) into `dst`.
pub fn cmplx_sub_q31(src_a: &[q31], src_b: &[q31], dst: &mut [q31])
    ensures
        final(dst)@.len() == old(dst)@.len(),
        forall|i: int|
            0 <= i < old(dst)@.len() ==> #[trigger] final(dst)@[i] == if i < min_len(
                src_a@.len(),
                src_b@.len(),
            ) {
                src_a@[i].spec_sat_sub(src_b@[i])
            } else {
                old(dst)@[i]
            },
{
    cmplx_sub(src_a, src_b, dst)
}

/// Complex vector subtraction (`q15`) into `dst`.
pub fn cmplx_sub_q15(src_a: &[q15], src_b: &[q15], dst: &mut [q15])
    ensures
        final(dst)@.len() == old(dst)@.len(),
        forall|i: int|
            0 <= i < old(dst)@.len() ==> #[trigger] final(dst)@[i] == if i < min_len(
                src_a@.len(),
                src_b@.len(),
            ) {
                src_a@[i].spec_sat_sub(src_b@[i])
            } else {
                old(dst)@[i]
            },
{
    cmplx_sub(src_a, src_b, dst)
}

/// The number of complex-by-real products `cmplx_mult_real` forms.
pub open spec fn mult_real_count(cmplx_len: nat, real_len: nat, dst_len: nat) -> nat {
    min_len(min_len(cmplx_len / 2, real_len), dst_len / 2)
}

/// Complex-by-real multiplication into `dst`, generic over the sample width: complex sample
/// `k` (both parts) is scaled by real sample `k`.
pub fn cmplx_mult_real<T: DspSample>(src_cmplx: &[T], src_real: &[T], dst: &mut [T])
    ensures
        final(dst)@.len() == old(dst)@.len(),
        forall|i: int|
            0 <= i < old(dst)@.len() ==> #[trigger] final(dst)@[i] == if i / 2 < mult_real_count(
                src_cmplx@.len(),
                src_real@.len(),
                old(dst)@.len(),
            ) {
                src_cmplx@[i].spec_sat_mul(src_real@[i / 2])
            } else {
                old(dst)@[i]
            },
{
    let a = src_cmplx.len() / 2;
    let b = if a < src_real.len() {
        a
    } else {
        src_real.len()
    };
    let n = if b < dst.len() / 2 {
        b
    } else {
        dst.len() / 2
    };
    let mut i: usize = 0;
    while i < n
        invariant
            n == mult_real_count(
                src_cmplx@.len(),
                src_real@.len(),
                old(dst)@.len(),
            ),
            2 * n <= src_cmplx@.len(),
            2 * n <= usize::MAX,
            n <= src_real@.len(),
            2 * n <= dst@.len(),
            dst@.len() == old(dst)@.len(),
            0 <= i <= n,
            forall|j: int|
                0 <= j < 2 * i ==> #[trigger] dst@[j] == src_cmplx@[j].spec_sat_mul(
                    src_real@[j / 2],
                ),
            forall|j: int| 2 * i <= j < dst@.len() ==> #[trigger] dst@[j] == old(dst)@[j],
        decreases n - i,
    {
        let r = src_real[i];
        let re = src_cmplx[2 * i].sat_mul(r);
        dst[2 * i] = re;
        let im = src_cmplx[2 * i + 1].sat_mul(r);
        dst[2 * i + 1] = im;
        i = i + 1;
    }
}

/// Complex-by-real multiplication (`q31`) into `dst`.
pub fn cmplx_mult_real_q31(src_cmplx: &[q31], src_real: &[q31], dst: &mut [q31])
    ensures
        final(dst)@.len() == old(dst)@.len(),
        forall|i: int|
            0 <= i < old(dst)@.len() ==> #[trigger] final(dst)@[i] == if i / 2 < mult_real_count(
                src_cmplx@.len(),
                src_real@.len(),
                old(dst)@.len(),
            ) {
                src_cmplx@[i].spec_sat_mul(src_real@[i / 2])
            } else {
                old(dst)@[i]
            },
{
    cmplx_mult_real(src_cmplx, src_real, dst)
}

/// Complex-by-real multiplication (`q15`) into `dst`.
pub fn cmplx_mult_real_q15(src_cmplx: &[q15], src_real: &[q15], dst: &mut [q15])
    ensures
        final(dst)@.len() == old(dst)@.len(),
        forall|i: int|
            0 <= i < old(dst)@.len() ==> #[trigger] final(dst)@[i] == if i / 2 < mult_real_count(
                src_cmplx@.len(),
                src_real@.len(),
                old(dst)@.len(),
            ) {
                src_cmplx@[i].spec_sat_mul(src_real@[i / 2])
            } else {
                old(dst)@[i]
            },
{
    cmplx_mult_real(src_cmplx, src_real, dst)
}

/// The number of complex samples `cmplx_conj` writes.
pub open spec fn conj_count(src_len: nat, dst_len: nat) -> nat {
    min_len(src_len / 2, dst_len / 2)
}

/// Complex conjugate into `dst`, generic over the sample width: real parts are copied and
/// imaginary parts negated (saturating).
pub fn cmplx_conj<T: DspSample>(src: &[T], dst: &mut [T])
    ensures
        final(dst)@.len() == old(dst)@.len(),
        forall|i: int|
            0 <= i < old(dst)@.len() ==> #[trigger] final(dst)@[i] == if i / 2 < conj_count(
                src@.len(),
                old(dst)@.len(),
            ) {
                if i % 2 == 0 {
                    src@[i]
                } else {
                    src@[i].spec_sat_neg()
                }
            } else {
                old(dst)@[i]
            },
{
    let a = src.len() / 2;
    let n = if a < dst.len() / 2 {
        a
    } else {
        dst.len() / 2
    };
    let mut i: usize = 0;
    while i < n
        invariant
            n == conj_count(src@.len(), old(dst)@.len()),
            2 * n <= src@.len(),
            2 * n <= usize::MAX,
            2 * n <= dst@.len(),
            dst@.len() == old(dst)@.len(),
            0 <= i <= n,
            forall|j: int|
                0 <= j < 2 * i ==> #[trigger] dst@[j] == if j % 2 == 0 {
                    src@[j]
                } else {
                    src@[j].spec_sat_neg()
                },
            forall|j: int| 2 * i <= j < dst@.len() ==> #[trigger] dst@[j] == old(dst)@[j],
        decreases n - i,
    {
        dst[2 * i] = src[2 * i];
        let im = src[2 * i + 1].sat_neg();
        dst[2 * i + 1] = im;
        i = i + 1;
    }
}

/// Complex conjugate (`q31`) into `dst`.
pub fn cmplx_conj_q31(src: &[q31], dst: &mut [q31])
    ensures
        final(dst)@.len() == old(dst)@.len(),
        forall|i: int|
            0 <= i < old(dst)@.len() ==> #[trigger] final(dst)@[i] == if i / 2 < conj_count(
                src@.len(),
                old(dst)@.len(),
            ) {
                if i % 2 == 0 {
                    src@[i]
                } else {
                    src@[i].spec_sat_neg()
                }
            } else {
                old(dst)@[i]
            },
{
    cmplx_conj(src, dst)
}

/// Complex conjugate (`q15`) into `dst`.
pub fn cmplx_conj_q15(src: &[q15], dst: &mut [q15])
    ensures
        final(dst)@.len() == old(dst)@.len(),
        forall|i: int|
            0 <= i < old(dst)@.len() ==> #[trigger] final(dst)@[i] == if i / 2 < conj_count(
                src@.len(),
                old(dst)@.len(),
            ) {
                if i % 2 == 0 {
                    src@[i]
                } else {
                    src@[i].spec_sat_neg()
                }
            } else {
                old(dst)@[i]
            },
{
    cmplx_conj(src, dst)
}


// ─────────────────────────────────────────────────────────────────────────────
// Complex-by-complex products, magnitudes and the dot product
// ─────────────────────────────────────────────────────────────────────────────

/// Complex-by-complex multiplication into `dst`, generic over the sample width: each part is
/// `(ar·br >> frac) - (ai·bi >> frac)` or `(ar·bi >> frac) + (ai·br >> frac)`, every product
/// shifted before the two are combined, then saturated. The rest of `dst` is left alone.
pub fn cmplx_mult_cmplx<T: FixedSample>(src_a: &[T], src_b: &[T], dst: &mut [T])
    ensures
        final(dst)@.len() == old(dst)@.len(),
        forall|k: int|
            0 <= k < pair_count(src_a@.len(), src_b@.len(), old(dst)@.len()) ==> {
                &&& #[trigger] final(dst)@[2 * k] == T::from_acc(
                    scaled_product(src_a@[2 * k], src_b@[2 * k]) - scaled_product(
                        src_a@[2 * k + 1],
                        src_b@[2 * k + 1],
                    ),
                )
                &&& final(dst)@[2 * k + 1] == T::from_acc(
                    scaled_product(src_a@[2 * k], src_b@[2 * k + 1]) + scaled_product(
                        src_a@[2 * k + 1],
                        src_b@[2 * k],
                    ),
                )
            },
        forall|j: int|
            2 * pair_count(src_a@.len(), src_b@.len(), old(dst)@.len()) <= j < old(dst)@.len()
                ==> #[trigger] final(dst)@[j] == old(dst)@[j],
{
    interleaved_products(src_a, src_b, dst)
}

/// Complex-by-complex multiplication (`q31`) into `dst`.
pub fn cmplx_mult_cmplx_q31(src_a: &[q31], src_b: &[q31], dst: &mut [q31])
    ensures
        final(dst)@.len() == old(dst)@.len(),
        forall|k: int|
            0 <= k < pair_count(src_a@.len(), src_b@.len(), old(dst)@.len()) ==> {
                &&& #[trigger] final(dst)@[2 * k] == q31::from_acc(
                    scaled_product(src_a@[2 * k], src_b@[2 * k]) - scaled_product(
                        src_a@[2 * k + 1],
                        src_b@[2 * k + 1],
                    ),
                )
                &&& final(dst)@[2 * k + 1] == q31::from_acc(
                    scaled_product(src_a@[2 * k], src_b@[2 * k + 1]) + scaled_product(
                        src_a@[2 * k + 1],
                        src_b@[2 * k],
                    ),
                )
            },
        forall|j: int|
            2 * pair_count(src_a@.len(), src_b@.len(), old(dst)@.len()) <= j < old(dst)@.len() ==> #[trigger] final(dst)@[j] == old(dst)@[j],
{
    cmplx_mult_cmplx(src_a, src_b, dst)
}

/// Complex-by-complex multiplication (`q15`) into `dst`.
pub fn cmplx_mult_cmplx_q15(src_a: &[q15], src_b: &[q15], dst: &mut [q15])
    ensures
        final(dst)@.len() == old(dst)@.len(),
        forall|k: int|
            0 <= k < pair_count(src_a@.len(), src_b@.len(), old(dst)@.len()) ==> {
                &&& #[trigger] final(dst)@[2 * k] == q15::from_acc(
                    scaled_product(src_a@[2 * k], src_b@[2 * k]) - scaled_product(
                        src_a@[2 * k + 1],
                        src_b@[2 * k + 1],
                    ),
                )
                &&& final(dst)@[2 * k + 1] == q15::from_acc(
                    scaled_product(src_a@[2 * k], src_b@[2 * k + 1]) + scaled_product(
                        src_a@[2 * k + 1],
                        src_b@[2 * k],
                    ),
                )
            },
        forall|j: int|
            2 * pair_count(src_a@.len(), src_b@.len(), old(dst)@.len()) <= j < old(dst)@.len() ==> #[trigger] final(dst)@[j] == old(dst)@[j],
{
    cmplx_mult_cmplx(src_a, src_b, dst)
}

/// The number of magnitudes written from `src` into `dst`.
pub open spec fn mag_count(src_len: nat, dst_len: nat) -> nat {
    min_len(src_len / 2, dst_len)
}

/// The squared magnitude of complex sample `k`: `(r·r) >> (frac + 2) + (i·i) >> (frac + 2)`,
/// each square shifted before the sum, before saturation.
pub open spec fn mag_squared_value<T: FixedSample>(src: Seq<T>, k: int) -> int {
    (src[2 * k].value() * src[2 * k].value()) / (4 * T::frac_scale()) + (src[2 * k + 1].value()
        * src[2 * k + 1].value()) / (4 * T::frac_scale())
}

/// A squared magnitude is never negative.
proof fn lemma_mag_squared_nonneg<T: FixedSample>(src: Seq<T>, k: usize)
    requires
        2 * k + 1 < src.len(),
    ensures
        mag_squared_value(src, k as int) >= 0,
{
    let x = src[2 * k];
    let y = src[2 * k + 1];
    let d = 4 * T::frac_scale();
    assert(x.value() * x.value() >= 0 && y.value() * y.value() >= 0) by (nonlinear_arith);
    T::lemma_scale_positive();
    assert((x.value() * x.value()) / d >= 0) by (nonlinear_arith)
        requires
            x.value() * x.value() >= 0,
            d > 0,
    ;
    assert((y.value() * y.value()) / d >= 0) by (nonlinear_arith)
        requires
            y.value() * y.value() >= 0,
            d > 0,
    ;
}

/// Squared magnitude of a complex vector into `dst`, generic over the sample width: sample `k`
/// of `dst` is `(r·r) >> (frac + 2) + (i·i) >> (frac + 2)`, saturated. The rest of `dst` is left
/// alone.
pub fn cmplx_mag_squared<T: FixedSample>(src: &[T], dst: &mut [T])
    ensures
        final(dst)@.len() == old(dst)@.len(),
        forall|k: int|
            0 <= k < mag_count(src@.len(), old(dst)@.len()) ==> #[trigger] final(dst)@[k]
                == T::from_acc(mag_squared_value(src@, k)),
        forall|k: int|
            mag_count(src@.len(), old(dst)@.len()) <= k < old(dst)@.len() ==> #[trigger] final(dst)@[k] == old(dst)@[k],
{
    let hs = src.len() / 2;
    let n = if hs < dst.len() {
        hs
    } else {
        dst.len()
    };
    let ls = src.len();
    let ghost d0 = dst@;
    let mut i: usize = 0;
    while i < n
        invariant
            ls == src@.len(),
            n == mag_count(src@.len(), d0.len()),
            2 * n <= src@.len(),
            n <= d0.len(),
            dst@.len() == d0.len(),
            0 <= i <= n,
            forall|k: int| 0 <= k < i ==> #[trigger] dst@[k] == T::from_acc(mag_squared_value(src@, k)),
            forall|k: int| i <= k < d0.len() ==> #[trigger] dst@[k] == d0[k],
        decreases n - i,
    {
        let r = src[2 * i];
        let im = src[2 * i + 1];
        let acc = T::product_quarter(r, r) + T::product_quarter(im, im);
        dst[i] = T::saturate(acc);
        i = i + 1;
    }
}

/// Squared magnitude of a complex vector (`q31`) into `dst`.
pub fn cmplx_mag_squared_q31(src: &[q31], dst: &mut [q31])
    ensures
        final(dst)@.len() == old(dst)@.len(),
        forall|k: int|
            0 <= k < mag_count(src@.len(), old(dst)@.len()) ==> #[trigger] final(dst)@[k]
                == q31::from_acc(mag_squared_value(src@, k)),
        forall|k: int|
            mag_count(src@.len(), old(dst)@.len()) <= k < old(dst)@.len() ==> #[trigger] final(dst)@[k] == old(dst)@[k],
{
    cmplx_mag_squared(src, dst)
}

/// Squared magnitude of a complex vector (`q15`) into `dst`.
pub fn cmplx_mag_squared_q15(src: &[q15], dst: &mut [q15])
    ensures
        final(dst)@.len() == old(dst)@.len(),
        forall|k: int|
            0 <= k < mag_count(src@.len(), old(dst)@.len()) ==> #[trigger] final(dst)@[k]
                == q15::from_acc(mag_squared_value(src@, k)),
        forall|k: int|
            mag_count(src@.len(), old(dst)@.len()) <= k < old(dst)@.len() ==> #[trigger] final(dst)@[k] == old(dst)@[k],
{
    cmplx_mag_squared(src, dst)
}

/// Magnitude of a complex vector (`q31`) into `dst`: the Q31 square root of each squared
/// magnitude, i.e. the integer square root of `mag² · 2^31`. The rest of `dst` is left alone.
pub fn cmplx_mag_q31(src: &[q31], dst: &mut [q31])
    ensures
        final(dst)@.len() == old(dst)@.len(),
        forall|k: int|
            0 <= k < mag_count(src@.len(), old(dst)@.len()) ==> is_isqrt(
                q31::from_acc(mag_squared_value(src@, k)).value() * 0x8000_0000,
                (#[trigger] final(dst)@[k]).value(),
            ),
        forall|k: int|
            mag_count(src@.len(), old(dst)@.len()) <= k < old(dst)@.len() ==> #[trigger] final(dst)@[k] == old(dst)@[k],
{
    let hs = src.len() / 2;
    let n = if hs < dst.len() {
        hs
    } else {
        dst.len()
    };
    cmplx_mag_squared_q31(src, dst);
    let ghost sq = dst@;
    let mut i: usize = 0;
    while i < n
        invariant
            n == mag_count(src@.len(), old(dst)@.len()),
            n <= sq.len(),
            dst@.len() == sq.len(),
            sq.len() == old(dst)@.len(),
            0 <= i <= n,
            forall|k: int|
                0 <= k < n ==> #[trigger] sq[k] == q31::from_acc(mag_squared_value(src@, k)),
            forall|k: int|
                0 <= k < i ==> is_isqrt(sq[k].value() * 0x8000_0000, (#[trigger] dst@[k]).value()),
            forall|k: int| i <= k < sq.len() ==> #[trigger] dst@[k] == sq[k],
        decreases n - i,
    {
        let mut mag = q31(0);
        let v = dst[i];
        proof {
            lemma_mag_squared_nonneg(src@, i);
        }
        let _st: Status = sqrt_q31(v, &mut mag);
        dst[i] = mag;
        i = i + 1;
    }
}

/// Magnitude of a complex vector (`q15`) into `dst`: the Q15 square root of each squared
/// magnitude, i.e. the integer square root of `mag² · 2^15`. The rest of `dst` is left alone.
pub fn cmplx_mag_q15(src: &[q15], dst: &mut [q15])
    ensures
        final(dst)@.len() == old(dst)@.len(),
        forall|k: int|
            0 <= k < mag_count(src@.len(), old(dst)@.len()) ==> is_isqrt(
                q15::from_acc(mag_squared_value(src@, k)).value() * 0x8000,
                (#[trigger] final(dst)@[k]).value(),
            ),
        forall|k: int|
            mag_count(src@.len(), old(dst)@.len()) <= k < old(dst)@.len() ==> #[trigger] final(dst)@[k] == old(dst)@[k],
{
    let hs = src.len() / 2;
    let n = if hs < dst.len() {
        hs
    } else {
        dst.len()
    };
    cmplx_mag_squared_q15(src, dst);
    let ghost sq = dst@;
    let mut i: usize = 0;
    while i < n
        invariant
            n == mag_count(src@.len(), old(dst)@.len()),
            n <= sq.len(),
            dst@.len() == sq.len(),
            sq.len() == old(dst)@.len(),
            0 <= i <= n,
            forall|k: int|
                0 <= k < n ==> #[trigger] sq[k] == q15::from_acc(mag_squared_value(src@, k)),
            forall|k: int|
                0 <= k < i ==> is_isqrt(sq[k].value() * 0x8000, (#[trigger] dst@[k]).value()),
            forall|k: int| i <= k < sq.len() ==> #[trigger] dst@[k] == sq[k],
        decreases n - i,
    {
        let mut mag = q15(0);
        let v = dst[i];
        proof {
            lemma_mag_squared_nonneg(src@, i);
        }
        let _st: Status = sqrt_q15(v, &mut mag);
        dst[i] = mag;
        i = i + 1;
    }
}

/// The number of complex terms a dot product sums.
pub open spec fn dot_count(a_len: nat, b_len: nat) -> nat {
    min_len(a_len / 2, b_len / 2)
}

/// Complex dot product, generic over the sample width: the sums of `ar·br - ai·bi` and
/// `ar·bi + ai·br` over the complex terms, each term computed at full width and shifted right by
/// `shift` before it is summed. The result stays in the accumulator domain.
pub fn cmplx_dot_prod<T: FixedSample>(src_a: &[T], src_b: &[T], shift: u32) -> (r: Complex<q63>)
    requires
        shift < 64,
        dot_fits(src_a@, src_b@, shift, dot_count(src_a@.len(), src_b@.len())),
    ensures
        r.real.0 == dot_sums(src_a@, src_b@, shift, dot_count(src_a@.len(), src_b@.len())).0,
        r.imag.0 == dot_sums(src_a@, src_b@, shift, dot_count(src_a@.len(), src_b@.len())).1,
{
    let ha = src_a.len() / 2;
    let hb = src_b.len() / 2;
    let n = if ha < hb {
        ha
    } else {
        hb
    };
    let (re, im) = fixed_dot_prod(src_a, src_b, n, shift);
    Complex::new(q63(re), q63(im))
}

/// Complex dot product (`q31`): each term shifted right by 14 before it is summed.
pub fn cmplx_dot_prod_q31(src_a: &[q31], src_b: &[q31]) -> (r: Complex<q63>)
    requires
        dot_fits(src_a@, src_b@, 14, dot_count(src_a@.len(), src_b@.len())),
    ensures
        r.real.0 == dot_sums(src_a@, src_b@, 14, dot_count(src_a@.len(), src_b@.len())).0,
        r.imag.0 == dot_sums(src_a@, src_b@, 14, dot_count(src_a@.len(), src_b@.len())).1,
{
    cmplx_dot_prod(src_a, src_b, 14)
}

/// Complex dot product (`q15`): the terms summed unshifted.
pub fn cmplx_dot_prod_q15(src_a: &[q15], src_b: &[q15]) -> (r: Complex<q63>)
    requires
        dot_fits(src_a@, src_b@, 0, dot_count(src_a@.len(), src_b@.len())),
    ensures
        r.real.0 == dot_sums(src_a@, src_b@, 0, dot_count(src_a@.len(), src_b@.len())).0,
        r.imag.0 == dot_sums(src_a@, src_b@, 0, dot_count(src_a@.len(), src_b@.len())).1,
{
    cmplx_dot_prod(src_a, src_b, 0)
}

} // verus!
