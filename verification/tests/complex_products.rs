use embedded_dsp::complex_math::{
    cmplx_dot_prod_q15, cmplx_dot_prod_q31, cmplx_mag_q15, cmplx_mag_q31, cmplx_mag_squared_q15,
    cmplx_mag_squared_q31, cmplx_mult_cmplx_q15, cmplx_mult_cmplx_q31,
};
use embedded_dsp::types::{q15, q31, q63};

fn q15s<const N: usize>(v: [i16; N]) -> [q15; N] {
    v.map(q15)
}

#[test]
fn complex_product_q15() {
    let mut dst = q15s([7; 5]);
    cmplx_mult_cmplx_q15(
        &q15s([16384, 8192, -32768, -32768]),
        &q15s([16384, -16384, -32768, 32767]),
        &mut dst,
    );
    assert_eq!(dst, q15s([12288, -4096, 32767, 1, 7]));
}

#[test]
fn complex_product_q31() {
    let mut dst = [q31(0); 2];
    cmplx_mult_cmplx_q31(&[q31(1 << 30), q31(0)], &[q31(1 << 30), q31(1 << 29)], &mut dst);
    assert_eq!(dst, [q31(1 << 29), q31(1 << 28)]);
}

#[test]
fn squared_magnitudes() {
    let mut dst = q15s([9; 3]);
    cmplx_mag_squared_q15(&q15s([16384, 16384, -32768, 0]), &mut dst);
    assert_eq!(dst, q15s([4096, 8192, 9]));
    let mut dst = [q31(0); 1];
    cmplx_mag_squared_q31(&[q31(1 << 30), q31(0)], &mut dst);
    assert_eq!(dst, [q31(134217728)]);
}

#[test]
fn magnitudes() {
    let mut dst = q15s([9; 3]);
    cmplx_mag_q15(&q15s([16384, 16384, -32768, 0]), &mut dst);
    assert_eq!(dst, q15s([11585, 16384, 9]));
    let mut dst = [q31(0); 1];
    cmplx_mag_q31(&[q31(1 << 30), q31(0)], &mut dst);
    assert_eq!(dst, [q31(536870912)]);
}

#[test]
fn dot_products() {
    let r = cmplx_dot_prod_q15(&q15s([16384, 8192, 100, -200]), &q15s([16384, -16384, 300, 400]));
    assert_eq!((r.real, r.imag), (q63(402763184), q63(-134237728)));
    let r = cmplx_dot_prod_q31(&[q31(1 << 30), q31(0)], &[q31(1 << 30), q31(1 << 29)]);
    assert_eq!((r.real, r.imag), (q63(70368744177664), q63(35184372088832)));
    let r = cmplx_dot_prod_q31(&[q31(-3), q31(0)], &[q31(1), q31(0)]);
    assert_eq!((r.real, r.imag), (q63(-1), q63(0)));
}
