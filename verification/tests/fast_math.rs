use embedded_dsp::fast_math::{
    atan2_i32, atan2_q15, atan2_q31, cos_q31, cossin, divide_q15, divide_q31, isqrt_u32,
    isqrt_u64, overflowing_sub_i32, saturating_scale_i32, sin_cos_q31, sin_q31, sqrt_q15,
    sqrt_q31, IntPhaseUnwrapper, Unwrapper,
};
use embedded_dsp::types::{q15, q31, Status};

#[test]
fn cossin_matches_the_lookup_interpolation() {
    assert_eq!(cossin(0), (2147454703, -1898));
    assert_eq!(cossin(1 << 29), (1518488231, 1518478556));
    assert_eq!(cossin(1 << 30), (1898, 2147454703));
    assert_eq!(cossin(-(1 << 30)), (-1898, -2147454703));
    assert_eq!(cossin(i32::MAX), (-2147454703, -1898));
    assert_eq!(cossin(i32::MIN), (-2147454703, 1898));
    assert_eq!(cossin(123456789), (2112528415, 385746234));
}

#[test]
fn atan2_covers_the_four_quadrants() {
    assert_eq!(atan2_i32(0, 1), 0);
    assert_eq!(atan2_i32(1, 1), 536870904);
    assert_eq!(atan2_i32(1, 0), 1073741823);
    assert_eq!(atan2_i32(0, -1), 2147483647);
    assert_eq!(atan2_i32(-1, 0), -1073741824);
    assert_eq!(atan2_i32(-1, -1), -1610612744);
    assert_eq!(atan2_i32(1000, -1000), 1610612755);
    assert_eq!(atan2_i32(0, 0), 0);
    assert_eq!(atan2_i32(123456, 654321), 127474220);
    assert_eq!(atan2_i32(i32::MIN, i32::MIN), -1610612745);
}

#[test]
fn atan2_is_bitwise_odd_in_y() {
    for &(y, x) in &[(1, 1), (77, -3), (123456, 654321), (i32::MAX, 5), (9, 0)] {
        assert_eq!(atan2_i32(-y, x), !atan2_i32(y, x));
    }
}

#[test]
fn integer_square_roots_bracket_the_argument() {
    for &n in &[0u32, 1, 2, 3, 4, 15, 16, 17, 1 << 30, u32::MAX] {
        let r = isqrt_u32(n) as u64;
        assert!(r * r <= n as u64 && (n as u64) < (r + 1) * (r + 1));
    }
    for &n in &[0u64, 1, 99, 1 << 62, u64::MAX] {
        let r = isqrt_u64(n) as u128;
        assert!(r * r <= n as u128 && (n as u128) < (r + 1) * (r + 1));
    }
}

#[test]
fn fixed_point_square_roots() {
    let mut out = q15(7);
    assert_eq!(sqrt_q15(q15(16384), &mut out), Status::Success);
    assert_eq!(out, q15(23170));
    assert_eq!(sqrt_q15(q15(8192), &mut out), Status::Success);
    assert_eq!(out, q15(16384));
    assert_eq!(sqrt_q15(q15(-1), &mut out), Status::ArgumentError);
    assert_eq!(out, q15(0));

    let mut out = q31(7);
    assert_eq!(sqrt_q31(q31(1 << 30), &mut out), Status::Success);
    assert_eq!(out, q31(1518500249));
    assert_eq!(sqrt_q31(q31(i32::MAX), &mut out), Status::Success);
    assert_eq!(out, q31(i32::MAX));
    assert_eq!(sqrt_q31(q31(-5), &mut out), Status::ArgumentError);
    assert_eq!(out, q31(0));
}

#[test]
fn overflowing_sub_reports_the_wrap_direction() {
    assert_eq!(overflowing_sub_i32(5, 3), (2, 0));
    // The true difference is `delta - wrap * 2^32`.
    assert_eq!(overflowing_sub_i32(i32::MIN, 1), (i32::MAX, 1));
    assert_eq!(overflowing_sub_i32(i32::MAX, -1), (i32::MIN, -1));
}

#[test]
fn saturating_scale_combines_words() {
    assert_eq!(saturating_scale_i32(0x1234_0000, 1, 16), 0x0001_1234);
    // A combined value that fits is not clipped.
    assert_eq!(saturating_scale_i32(0, 300, 24), 76800);
    assert_eq!(saturating_scale_i32(-1, 0, 4), -1);
    assert_eq!(saturating_scale_i32(-1, 0, 32), -1);
    assert_eq!(saturating_scale_i32(i32::MAX, 0, 32), 0);
    assert_eq!(saturating_scale_i32(0, -3, 1), i32::MIN);
    assert_eq!(saturating_scale_i32(0, -1, 1), i32::MIN);
    // Only values past the i32 range saturate.
    assert_eq!(saturating_scale_i32(0, -(1 << 16), 16), i32::MIN);
    assert_eq!(saturating_scale_i32(0, 1 << 16, 16), i32::MAX);
    assert_eq!(saturating_scale_i32(0, (1 << 15) - 1, 16), 0x7fff_0000);
    assert_eq!(saturating_scale_i32(5, i32::MIN, 1), i32::MIN);
    assert_eq!(saturating_scale_i32(5, 0, 1), 2);
}

#[test]
fn int_phase_unwrapper_reports_wrapping_increments() {
    let mut u = IntPhaseUnwrapper::new();
    let dx = u.process(i32::MIN);
    assert_eq!(dx, i32::MIN);
    assert_eq!(u.phase(), i32::MIN);
    assert_eq!(u.process(i32::MIN + 10), 10);
}

#[test]
fn unwrapper_counts_turns_across_the_wrap() {
    let mut u = Unwrapper::new();
    assert_eq!(u.update(i32::MAX - 10), 2147483637);
    // A forward wrap continues the trajectory: previous output plus the wrapped step 21.
    assert_eq!(u.update(i32::MIN + 10), 2147483658);
    assert_eq!(u.turns(), 1);
    assert_eq!(u.update(i32::MAX - 5), (i32::MAX - 5) as i64);
    assert_eq!(u.turns(), 0);
    // Small steps around zero move by the step, without jumps.
    assert_eq!(u.update(1), 1);
    assert_eq!(u.update(-1), -1);
    assert_eq!(u.update(-7), -7);
    u.reset();
    assert_eq!(u.turns(), 0);
    assert_eq!(u.update(3), 3);
}

#[test]
fn unwrapper_steps_by_the_wrapped_difference() {
    let mut u = Unwrapper::new();
    let mut prev = 0i64;
    let mut last = 0i32;
    for k in 0..2000i64 {
        let phase = (k * 0x0123_4567 * 37) as i32;
        let r = u.update(phase);
        if !(last == i32::MIN && phase == 0) {
            assert_eq!(r - prev, phase.wrapping_sub(last) as i64);
        }
        prev = r;
        last = phase;
    }
}

#[test]
fn q31_sin_cos_follow_the_rotation_sequence() {
    let mut s = q31(0);
    let mut c = q31(0);
    sin_cos_q31(q31(0), &mut s, &mut c);
    assert_eq!((c, s), (q31(2144851176), q31(-106226213)));
    assert_eq!(sin_q31(q31(1 << 29)), q31(1441525523));
    assert_eq!(cos_q31(q31(1 << 29)), q31(1591752098));
    assert_eq!(sin_q31(q31(1 << 30)), q31(2144843381));
    assert_eq!(cos_q31(q31(-(1 << 30))), q31(106383483));
    assert_eq!(sin_q31(q31(-(1 << 30))), q31(-2144843381));
    assert_eq!((cos_q31(q31(i32::MIN)), sin_q31(q31(i32::MIN))), (q31(-368585365), q31(-2115612288)));
}

#[test]
fn q31_atan2_reflects_into_each_quadrant() {
    let mut r = q31(0);
    assert_eq!(atan2_q31(q31(1), q31(1), &mut r), Status::Success);
    assert_eq!(r, q31(549835282));
    atan2_q31(q31(1), q31(0), &mut r);
    assert_eq!(r, q31(1 << 30));
    atan2_q31(q31(5), q31(0), &mut r);
    assert_eq!(r, q31(1 << 30));
    atan2_q31(q31(0), q31(-5), &mut r);
    assert_eq!(r, q31(i32::MAX));
    atan2_q31(q31(-7), q31(3), &mut r);
    assert_eq!(r, q31(-884753106));
    atan2_q31(q31(1000), q31(-1000), &mut r);
    assert_eq!(r, q31(1597648365));
    atan2_q31(q31(i32::MIN), q31(i32::MIN), &mut r);
    assert_eq!(r, q31(-1597648365));
    atan2_q31(q31(0), q31(0), &mut r);
    assert_eq!(r, q31(0));
}

#[test]
fn q15_atan2_narrows_the_q31_angle() {
    let mut r = q15(0);
    assert_eq!(atan2_q15(q15(16384), q15(16384), &mut r), Status::Success);
    assert_eq!(r, q15(8389));
    atan2_q15(q15(-16384), q15(-16384), &mut r);
    assert_eq!(r, q15(-24379));
}

#[test]
fn fixed_point_division() {
    let mut q = q31(7);
    let mut shift = 5i16;
    assert_eq!(divide_q31(q31(1 << 29), q31(1 << 30), &mut q, &mut shift), Status::Success);
    assert_eq!((q, shift), (q31(1 << 30), 0));
    divide_q31(q31(-3), q31(2), &mut q, &mut shift);
    assert_eq!(q, q31(i32::MIN));
    divide_q31(q31(3), q31(-7), &mut q, &mut shift);
    // 3 * 2^31 / 7 = 920350134.86, toward zero.
    assert_eq!(q, q31(-920350134));

    let mut q = q31(7);
    let mut shift = 5i16;
    assert_eq!(divide_q31(q31(1), q31(0), &mut q, &mut shift), Status::ArgumentError);
    assert_eq!((q, shift), (q31(7), 5));

    let mut q = q15(9);
    let mut shift = 3i16;
    assert_eq!(divide_q15(q15(1), q15(2), &mut q, &mut shift), Status::Success);
    assert_eq!((q, shift), (q15(16384), 0));
    divide_q15(q15(3), q15(-7), &mut q, &mut shift);
    assert_eq!(q, q15(-14043));
    divide_q15(q15(-20000), q15(10000), &mut q, &mut shift);
    assert_eq!(q, q15(i16::MIN));
    let mut q = q15(9);
    assert_eq!(divide_q15(q15(1), q15(0), &mut q, &mut shift), Status::ArgumentError);
    assert_eq!(q, q15(9));
}
