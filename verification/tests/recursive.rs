use embedded_dsp::filtering::{DcBlockerQ15, RecursiveMovingAverage, SinglePoleFilter};
use embedded_dsp::types::q15;

#[test]
fn single_pole_lowpass_approaches_the_input() {
    let mut f = SinglePoleFilter::<q15>::lowpass(q15(16384));
    assert_eq!(f.process(q15(16384)), q15(8191));
    assert_eq!(f.process(q15(16384)), q15(12287));
    f.reset();
    assert_eq!(f.process(q15(16384)), q15(8191));
}

#[test]
fn negative_decay_reads_as_zero() {
    let mut f = SinglePoleFilter::<q15>::lowpass(q15(-5));
    // b0 = 32767: the input passes through, one LSB short.
    assert_eq!(f.process(q15(16384)), q15(16383));
}

#[test]
fn single_pole_highpass_decays_dc() {
    let mut f = SinglePoleFilter::<q15>::highpass(q15(16384));
    assert_eq!(f.process(q15(1000)), q15(749));
    assert_eq!(f.process(q15(1000)), q15(374));
}

#[test]
fn general_single_pole_and_default() {
    let mut f = SinglePoleFilter::new(q15(16384), q15(16384), q15(0));
    assert_eq!(f.process(q15(2000)), q15(1000));
    assert_eq!(f.process(q15(4000)), q15(3000));
    let mut z = SinglePoleFilter::<q15>::default();
    assert_eq!(z.process(q15(12345)), q15(0));
}

#[test]
fn dc_blocker_is_the_highpass() {
    let mut b = DcBlockerQ15::new(q15(16384));
    assert_eq!(b.process(q15(1000)), q15(749));
    assert_eq!(b.process(q15(1000)), q15(374));
    b.reset();
    assert_eq!(b.process(q15(1000)), q15(749));
    let mut d = DcBlockerQ15::default();
    assert_eq!(d.process(q15(1000)), q15(0));
}

#[test]
fn moving_average_over_the_last_n_samples() {
    let mut avg = RecursiveMovingAverage::<q15, 3>::new();
    let outs: Vec<i16> = [3, 6, 9, 12, -3, -20].iter().map(|&x| avg.process(q15(x)).0).collect();
    assert_eq!(outs, vec![3, 4, 6, 9, 6, -3]);
    avg.reset();
    assert_eq!(avg.process(q15(7)), q15(7));
}

#[test]
fn moving_average_of_a_constant_is_the_constant() {
    let mut avg = RecursiveMovingAverage::<q15, 4>::default();
    for _ in 0..10 {
        assert_eq!(avg.process(q15(-32768)), q15(-32768));
    }
}

#[test]
fn zero_length_moving_average_outputs_zero() {
    let mut avg = RecursiveMovingAverage::<q15, 0>::new();
    assert_eq!(avg.process(q15(100)), q15(0));
    assert_eq!(avg.process(q15(-100)), q15(0));
}
