use embedded_dsp::cordic::{
    cordic_atan2_q15, cordic_atanh_q31, cordic_cartesian_to_polar_q15, cordic_sin_cos_q15,
    cordic_sin_cos_q31, cordic_sqrt_atanh2_q31, cordic_sqrt_q15, ATAN_TABLE_Q15, CORDIC_K_Q15,
};
use embedded_dsp::types::{q15, q31};

#[test]
fn sin_cos_q15_runs_sixteen_rotations() {
    assert_eq!(cordic_sin_cos_q15(q15(0)), (q15(1), q15(32767)));
    assert_eq!(cordic_sin_cos_q15(q15(12868)), (q15(12540), q15(30271)));
    assert_eq!(cordic_sin_cos_q15(q15(-12868)), (q15(-12541), q15(30275)));
    assert_eq!(cordic_sin_cos_q15(q15(25736)), (q15(23170), q15(23171)));
}

#[test]
fn sin_cos_q31_runs_in_wide_arithmetic() {
    assert_eq!(cordic_sin_cos_q31(q31(0)), (q31(-37785), q31(i32::MAX)));
    assert_eq!(cordic_sin_cos_q31(q31(843314857)), (q31(821874766), q31(1983987950)));
    assert_eq!(cordic_sin_cos_q31(q31(-843314857)), (q31(-821874766), q31(1983987952)));
}

#[test]
fn polar_conversion_and_atan2() {
    assert_eq!(cordic_cartesian_to_polar_q15(q15(0), q15(0)), (q15(0), q15(0)));
    assert_eq!(cordic_cartesian_to_polar_q15(q15(16384), q15(0)), (q15(16386), q15(-1)));
    assert_eq!(cordic_cartesian_to_polar_q15(q15(0), q15(16384)), (q15(16384), q15(32767)));
    assert_eq!(cordic_cartesian_to_polar_q15(q15(16384), q15(16384)), (q15(23171), q15(25739)));
    assert_eq!(cordic_cartesian_to_polar_q15(q15(-16384), q15(0)), (q15(16386), q15(-32768)));
    assert_eq!(cordic_cartesian_to_polar_q15(q15(10000), q15(-5000)), (q15(11182), q15(-15191)));
    assert_eq!(cordic_atan2_q15(q15(16384), q15(16384)), q15(25739));
    assert_eq!(cordic_atan2_q15(q15(0), q15(0)), q15(0));
}

#[test]
fn hyperbolic_vectoring() {
    assert_eq!(
        cordic_sqrt_atanh2_q31(q31(1073741824), q31(0)),
        (q31(1073741817), q31(-2))
    );
    assert_eq!(
        cordic_sqrt_atanh2_q31(q31(1073741824), q31(536870912)),
        (q31(929887688), q31(1179625958))
    );
    assert_eq!(cordic_atanh_q31(q31(-536870912), q31(1073741824)), q31(-1179625968));
    // Outside the domain.
    assert_eq!(cordic_sqrt_atanh2_q31(q31(0), q31(0)), (q31(0), q31(0)));
    assert_eq!(cordic_sqrt_atanh2_q31(q31(100), q31(200)), (q31(0), q31(0)));
    assert_eq!(cordic_atanh_q31(q31(5), q31(-7)), q31(0));
}

#[test]
fn cordic_square_root() {
    assert_eq!(cordic_sqrt_q15(q15(16384)), q15(23170));
    assert_eq!(cordic_sqrt_q15(q15(32767)), q15(32767));
    assert_eq!(cordic_sqrt_q15(q15(1)), q15(181));
    assert_eq!(cordic_sqrt_q15(q15(0)), q15(0));
    assert_eq!(cordic_sqrt_q15(q15(-3)), q15(0));
}

#[test]
fn cordic_tables() {
    assert_eq!(CORDIC_K_Q15, 19898);
    assert_eq!(ATAN_TABLE_Q15[0], 25736);
    assert_eq!(ATAN_TABLE_Q15[15], 1);
}
