use embedded_dsp::filtering::{
    biquad_cascade_df1, biquad_cascade_df2t, BiquadCascadeDf2tInstance, BiquadCascadeInstance,
};
use embedded_dsp::types::q15;

fn qs<const N: usize>(v: [i16; N]) -> [q15; N] {
    v.map(q15)
}

const STAGE: [i16; 5] = [16384, 8192, 0, 8192, 0];

#[test]
fn df1_single_stage() {
    let coeffs = qs(STAGE);
    let mut state = qs([9; 4]);
    let mut inst = BiquadCascadeInstance::init(1, &coeffs, &mut state);
    assert_eq!(inst.state, &qs([0; 4]));
    let mut dst = qs([0; 4]);
    biquad_cascade_df1(&mut inst, &qs([1000, 2000, -3000]), &mut dst);
    assert_eq!(dst, qs([500, 1375, -657, 0]));
    assert_eq!(inst.state, &qs([-3000, 2000, -657, 1375]));
}

#[test]
fn df1_two_stages_in_series() {
    let coeffs = qs([16384, 8192, 0, 8192, 0, 16384, 8192, 0, 8192, 0]);
    let mut state = qs([0; 8]);
    let mut inst = BiquadCascadeInstance::init(2, &coeffs, &mut state);
    let mut dst = qs([0; 3]);
    biquad_cascade_df1(&mut inst, &qs([1000, 2000, -3000]), &mut dst);
    assert_eq!(dst, qs([250, 875, 234]));
    assert_eq!(inst.state, &qs([-3000, 2000, -657, 1375, -657, 1375, 234, 875]));
}

#[test]
fn df1_post_shift_adds_headroom() {
    let coeffs = qs(STAGE);
    let mut state = qs([0; 4]);
    let mut inst = BiquadCascadeInstance::with_post_shift(1, &coeffs, &mut state, 1);
    assert_eq!(inst.post_shift, 1);
    let mut dst = qs([0; 3]);
    biquad_cascade_df1(&mut inst, &qs([1000, 2000, -3000]), &mut dst);
    assert_eq!(dst, qs([1000, 3000, -500]));
}

#[test]
fn df1_saturates() {
    let coeffs = qs([32767, 32767, 32767, 0, 0]);
    let mut state = qs([0; 4]);
    let mut inst = BiquadCascadeInstance::init(1, &coeffs, &mut state);
    let mut dst = qs([0; 3]);
    biquad_cascade_df1(&mut inst, &qs([32767, 32767, 32767]), &mut dst);
    assert_eq!(dst, qs([32766, 32767, 32767]));
}

#[test]
fn df2t_matches_df1_on_this_section() {
    let coeffs = qs(STAGE);
    let mut state = qs([0; 2]);
    let mut inst = BiquadCascadeDf2tInstance::init(1, &coeffs, &mut state);
    let mut dst = qs([0; 3]);
    biquad_cascade_df2t(&mut inst, &qs([1000, 2000, -3000]), &mut dst);
    assert_eq!(dst, qs([500, 1375, -657]));
    assert_eq!(inst.state, &qs([-915, 0]));
}

#[test]
fn df2t_two_stages_with_post_shift() {
    let coeffs = qs([16384, 8192, 0, 8192, 0, 16384, 8192, 0, 8192, 0]);
    let mut state = qs([5; 4]);
    let mut inst = BiquadCascadeDf2tInstance::with_post_shift(2, &coeffs, &mut state, 1);
    let mut dst = qs([0; 3]);
    biquad_cascade_df2t(&mut inst, &qs([1000, 2000, -3000]), &mut dst);
    assert_eq!(dst, qs([1000, 4000, 3000]));
    assert_eq!(inst.state, &qs([-1750, 0, 1250, 0]));
}
