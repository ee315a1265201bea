use embedded_dsp::filtering::{fir, FirInstance};
use embedded_dsp::types::{q15, q31};

#[test]
fn fir_q15_filters_through_the_delay_line() {
    let coeffs = [q15(16384), q15(8192), q15(0)];
    let mut state = [q15(7); 3];
    let mut inst = FirInstance::init(3, &coeffs, &mut state);
    assert_eq!(inst.state, &[q15(0); 3]);
    let mut dst = [q15(99); 5];
    fir(&mut inst, &[q15(1000), q15(2000), q15(3000), q15(-4000)], &mut dst);
    assert_eq!(dst, [q15(500), q15(1250), q15(2000), q15(-1250), q15(99)]);
    assert_eq!(inst.state, &[q15(-4000), q15(3000), q15(2000)]);
}

#[test]
fn fir_q15_saturates_the_sum() {
    let coeffs = [q15(32767), q15(32767)];
    let mut state = [q15(0); 2];
    let mut inst = FirInstance::init(2, &coeffs, &mut state);
    let mut dst = [q15(0); 2];
    fir(&mut inst, &[q15(32767), q15(32767)], &mut dst);
    assert_eq!(dst, [q15(32766), q15(32767)]);
}

#[test]
fn fir_q31_single_tap() {
    let coeffs = [q31(1 << 30)];
    let mut state = [q31(0)];
    let mut inst = FirInstance::init(1, &coeffs, &mut state);
    let mut dst = [q31(0); 2];
    fir(&mut inst, &[q31(1 << 30), q31(-(1 << 30))], &mut dst);
    assert_eq!(dst, [q31(536870912), q31(-536870912)]);
}
