use embedded_dsp::filtering::{lms, lms_leaky, nlms, AdaptiveSample, LmsInstance, NlmsInstance};
use embedded_dsp::types::{q15, MacSample};

fn qs<const N: usize>(v: [i16; N]) -> [q15; N] {
    v.map(q15)
}

const SRC: [i16; 5] = [16384, -8192, 4096, 12000, -3000];
const REF: [i16; 5] = [8192, -4096, 2048, 6000, -1500];

#[test]
fn lms_init_clears_state_and_coefficients() {
    let mut coeffs = qs([5, 6, 7]);
    let mut state = qs([1, 2, 3]);
    let inst = LmsInstance::init(3, &mut coeffs, &mut state, q15(16384));
    assert_eq!(inst.num_taps, 3);
    assert_eq!(inst.mu, q15(16384));
    assert_eq!(inst.state, &qs([0, 0, 0]));
    assert_eq!(inst.coeffs, &qs([0, 0, 0]));
}

#[test]
fn lms_adapts_toward_the_reference() {
    let mut coeffs = qs([0, 0, 0]);
    let mut state = qs([0, 0, 0]);
    let mut inst = LmsInstance::init(3, &mut coeffs, &mut state, q15(16384));
    let mut out = qs([0; 5]);
    let mut err = qs([0; 5]);
    lms(&mut inst, &qs(SRC), &qs(REF), &mut out, &mut err);
    assert_eq!(out, qs([0, -1024, 991, 1471, -1137]));
    assert_eq!(err, qs([8192, -3072, 1057, 4529, -363]));
    assert_eq!(inst.state, &qs([-3000, 12000, 4096]));
    assert_eq!(inst.coeffs, &qs([6683, -1368, -652]));
}

#[test]
fn leaky_lms_shrinks_the_coefficients() {
    let mut coeffs = qs([0, 0, 0]);
    let mut state = qs([0, 0, 0]);
    let mut inst = LmsInstance::init(3, &mut coeffs, &mut state, q15(16384));
    let mut out = qs([0; 5]);
    let mut err = qs([0; 5]);
    lms_leaky(&mut inst, &qs(SRC), &qs(REF), &mut out, &mut err, q15(3277));
    assert_eq!(out, qs([0, -1024, 940, 1172, -919]));
    assert_eq!(err, qs([8192, -3072, 1108, 4828, -581]));
    assert_eq!(inst.coeffs, &qs([5001, -1015, -712]));
}

#[test]
fn lms_stops_at_the_shortest_buffer_and_leaves_untapped_entries() {
    let mut coeffs = qs([0, 0, 0, 9]);
    let mut state = qs([0, 0, 0, 7]);
    let mut inst = LmsInstance { num_taps: 2, coeffs: &mut coeffs, state: &mut state, mu: q15(16384) };
    let mut out = qs([111, 111, 111]);
    let mut err = qs([222, 222]);
    lms(&mut inst, &qs([16384, -8192, 4096]), &qs([8192, -4096, 2048]), &mut out, &mut err);
    assert_eq!(out, qs([0, -1024, 111]));
    assert_eq!(err, qs([8192, -3072]));
    assert_eq!(inst.state, &qs([-8192, 16384, 0, 7]));
    assert_eq!(inst.coeffs, &qs([4863, -1536, 0, 9]));
}

#[test]
fn nlms_normalises_the_step_by_the_tap_power() {
    let mut coeffs = qs([9, 9, 9]);
    let mut state = qs([9, 9, 9]);
    let mut inst = NlmsInstance::init(3, &mut coeffs, &mut state, q15(16384), q15(100));
    assert_eq!(inst.eps, q15(100));
    let mut out = qs([0; 5]);
    let mut err = qs([0; 5]);
    nlms(&mut inst, &qs(SRC), &qs(REF), &mut out, &mut err);
    assert_eq!(out, qs([0, -2024, 1524, 2971, -1584]));
    assert_eq!(err, qs([8192, -2072, 524, 3029, 84]));
    assert_eq!(inst.state, &qs([-3000, 12000, 4096]));
    assert_eq!(inst.coeffs, &qs([11563, -866, -1332]));
}

#[test]
fn q15_adaptive_arithmetic() {
    assert_eq!(q15::lms_keep(q15(3277)), 29490);
    assert_eq!(q15::lms_keep(q15(-5)), 32767);
    assert_eq!(q15::lms_alpha(q15(16384), q15(8192)), 8192);
    assert_eq!(q15::lms_apply(q15(1000), q15(16384), 8192, 32767), q15(999 + 4096));
    assert_eq!(q15::nlms_power_seed(q15(0)), 1);
    assert_eq!(q15::nlms_alpha(q15(-16384), q15(8192), 7), -19173961);
    assert_eq!(q15::nlms_apply(q15(32000), q15(32767), 40000), q15(32767));
    assert_eq!(q15::madd(i64::MAX - 5, q15(100), q15(100)), i64::MAX);
    assert_eq!(q15::from_accum(-1), q15(-1));
    assert_eq!(q15::mul_high(q15(-3), q15(5)), -1);
}
