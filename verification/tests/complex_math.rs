use embedded_dsp::complex_math::{
    cmplx_add, cmplx_add_q15, cmplx_add_q31, cmplx_conj, cmplx_conj_q15, cmplx_conj_q31,
    cmplx_mult_real, cmplx_mult_real_q15, cmplx_mult_real_q31, cmplx_sub, cmplx_sub_q15,
    cmplx_sub_q31,
};
use embedded_dsp::types::{q15, q31};

fn q15s<const N: usize>(v: [i16; N]) -> [q15; N] {
    v.map(q15)
}

fn q31s<const N: usize>(v: [i32; N]) -> [q31; N] {
    v.map(q31)
}

#[test]
fn add_and_sub_saturate_element_wise() {
    let a = q15s([100, -100, 32000, -32000]);
    let b = q15s([1, 2, 1000, -1000]);
    let mut d = q15s([9; 5]);
    cmplx_add_q15(&a, &b, &mut d);
    assert_eq!(d, q15s([101, -98, 32767, -32768, 9]));
    cmplx_sub_q15(&a, &b, &mut d);
    assert_eq!(d, q15s([99, -102, 31000, -31000, 9]));
    let mut short = q15s([0; 2]);
    cmplx_add(&a, &b, &mut short);
    assert_eq!(short, q15s([101, -98]));
    cmplx_sub(&a, &b, &mut short);
    assert_eq!(short, q15s([99, -102]));

    let a = q31s([i32::MAX, 5]);
    let b = q31s([1, -5]);
    let mut d = q31s([0; 2]);
    cmplx_add_q31(&a, &b, &mut d);
    assert_eq!(d, q31s([i32::MAX, 0]));
    cmplx_sub_q31(&b, &a, &mut d);
    assert_eq!(d, q31s([1 - i32::MAX, -10]));
}

#[test]
fn multiply_by_real_scales_both_parts() {
    let c = q15s([16384, -16384, 8192, 4096]);
    let r = q15s([16384, -32768]);
    let mut d = q15s([7; 5]);
    cmplx_mult_real_q15(&c, &r, &mut d);
    assert_eq!(d, q15s([8192, -8192, -8192, -4096, 7]));
    let mut e = q15s([0; 4]);
    cmplx_mult_real(&c, &r[..1], &mut e);
    assert_eq!(e, q15s([8192, -8192, 0, 0]));

    let c = q31s([1 << 30, -(1 << 30)]);
    let r = q31s([i32::MIN]);
    let mut d = q31s([0; 2]);
    cmplx_mult_real_q31(&c, &r, &mut d);
    assert_eq!(d, q31s([-(1 << 30), 1 << 30]));
}

#[test]
fn conjugate_negates_the_imaginary_parts() {
    let s = q15s([1, 2, 3, -32768]);
    let mut d = q15s([0; 4]);
    cmplx_conj_q15(&s, &mut d);
    assert_eq!(d, q15s([1, -2, 3, 32767]));
    let mut short = q15s([5; 3]);
    cmplx_conj(&s, &mut short);
    assert_eq!(short, q15s([1, -2, 5]));
    let s = q31s([7, i32::MIN]);
    let mut d = q31s([0; 2]);
    cmplx_conj_q31(&s, &mut d);
    assert_eq!(d, q31s([7, i32::MAX]));
}
