use embedded_dsp::filtering::{
    Biquad, BiquadClamp, BiquadFixed, BiquadInt, CircularBuffer, DirectForm1, DirectForm1Int,
    DirectForm1NoiseShaped, DirectForm1Wide, DirectForm2Transposed, IntLowpass, Lockin, Tpa, Wdf,
    WdfState,
};
use embedded_dsp::pipeline::SplitProcess;

#[test]
fn int_lowpass_first_order_step() {
    let mut lp = IntLowpass::<1>::new([674_651_885]);
    assert_eq!(lp.process(1 << 24), 2_635_358);
    assert_eq!(lp.process(1 << 24), 7_078_154);
    lp.reset();
    assert_eq!(lp.process(1 << 24), 2_635_358);
}

#[test]
fn int_lowpass_second_order_step() {
    let mut lp = IntLowpass::<2>::new([100_000_000, -200_000_000]);
    assert_eq!(lp.process(1 << 20), 24_414);
    assert_eq!(lp.process(1 << 20), 118_659);
}

#[test]
fn int_lowpass_has_unit_dc_gain() {
    // Settled at `x`, the filter stays at `x`.
    let mut lp = IntLowpass::<1>::new([1 << 28]);
    let mut y = 0;
    for _ in 0..200 {
        y = lp.process(1000);
    }
    assert!((y - 1000).abs() <= 1);
}

#[test]
fn direct_form_states_start_at_default() {
    assert_eq!(DirectForm1::<i32>::new().xy, [0; 4]);
    assert_eq!(DirectForm2Transposed::<i16>::new().s, [0; 2]);
    let mut s = DirectForm1::<i32> { xy: [1, 2, 3, 4] };
    s.reset();
    assert_eq!(s.xy, [0; 4]);
    let mut t = DirectForm2Transposed::<i64> { s: [5, 6] };
    t.reset();
    assert_eq!(t.s, [0; 2]);
    assert_eq!(DirectForm1Int::<i8>::new().xy, [0; 4]);
    let b = Biquad::new(1, 2, 3, 4, 5);
    assert_eq!(b.ba, [1, 2, 3, 4, 5]);
    let c = BiquadClamp::new(b, -10, 10, 3);
    assert_eq!((c.min, c.max, c.u), (-10, 10, 3));
    let l = Lockin::new(7u8);
    assert_eq!(l.0, 7);
}

#[test]
fn fixed_biquad_with_noise_shaping() {
    // Unity pass-through at SHIFT = 30.
    let f = BiquadFixed::<30>::new([1 << 30, 0, 0, 0, 0], -1000, 1000, 0);
    let mut s = DirectForm1NoiseShaped::new();
    assert_eq!(f.process_noise_shaped(&mut s, 123), 123);
    assert_eq!(s.xy, [123, 0, 123, 0]);
    assert_eq!(s.err, 0);
    // Clamped output keeps the excess as error.
    assert_eq!(f.process_noise_shaped(&mut s, 5000), 1000);
    assert_eq!(s.err, ((5000i64 << 30) - (1000i64 << 30)) as i32);
    // Half plus half of the previous input, with the offset.
    let g = BiquadFixed::<30>::new([1 << 29, 1 << 29, 0, 0, 0], i32::MIN, i32::MAX, 1);
    let mut s = DirectForm1NoiseShaped::new();
    assert_eq!(g.process_noise_shaped(&mut s, 10), 6);
    assert_eq!(g.process_noise_shaped(&mut s, 20), 16);
    s.reset();
    assert_eq!(s.xy, [0; 4]);
}

#[test]
fn fixed_biquad_wide_accumulator() {
    let f = BiquadFixed::<30>::new([1 << 30, 0, 0, 0, 0], -1000, 1000, 0);
    let mut w = DirectForm1Wide::new();
    assert_eq!(f.process_wide(&mut w, 77), 77);
    assert_eq!(w.x, [77, 0]);
    assert_eq!(w.y, [77i64 << 32, 0]);
    assert_eq!(f.process_wide(&mut w, -4000), -1000);
    w.reset();
    assert_eq!((w.x, w.y), ([0; 2], [0; 2]));
}

#[test]
fn integer_biquad_over_sample_widths() {
    let b = BiquadInt::<i16, 14>::new([1 << 14, 0, 0, 0, 0], -100, 100, 5);
    let mut s = DirectForm1Int::<i16>::new();
    assert_eq!(b.process_df1(&mut s, 20), 25);
    assert_eq!(s.xy, [20, 0, 25, 0]);
    assert_eq!(b.process_df1(&mut s, 500), 100);
    assert_eq!(b.process_df1(&mut s, -500), -100);
    s.reset();
    assert_eq!(s.xy, [0; 4]);

    let b8 = BiquadInt::<i8, 6>::new([64, 0, 0, 0, 0], i8::MIN, i8::MAX, 0);
    let mut s8 = DirectForm1Int::<i8>::new();
    assert_eq!(b8.process_df1(&mut s8, 100), 100);
    assert_eq!(b8.process_df1(&mut s8, -128), -128);
}

#[test]
fn circular_buffer_keeps_the_newest_samples() {
    let mut cb = CircularBuffer::<i32, 3>::new(0);
    assert!(cb.is_empty());
    assert_eq!(cb.capacity(), 3);
    assert_eq!(cb.latest(), None);
    cb.push(1);
    cb.push(2);
    assert_eq!(cb.len(), 2);
    assert_eq!(cb.latest(), Some(2));
    assert_eq!(cb.oldest(), Some(1));
    cb.push(3);
    cb.push(4);
    assert!(cb.is_full());
    assert_eq!(cb.get(0), Some(4));
    assert_eq!(cb.get(2), Some(2));
    assert_eq!(cb.get(3), None);
    assert_eq!(cb.oldest(), Some(2));
    cb.clear(0);
    assert!(cb.is_empty());
}

#[test]
fn wave_digital_filter_sections() {
    let wdf = Wdf::<2, 0xAD> { a: [-(1 << 30), -(1 << 29)] };
    let mut state = WdfState::<2> { z: [0; 2] };
    let outs: Vec<i32> = [1_000_000, 0, 0, -500_000].iter().map(|&x| wdf.process(&mut state, x)).collect();
    assert_eq!(outs, vec![-656_250, -207_032, 543_455, 260_191]);
    assert_eq!(state.z, [230_468, 52_672]);

    let wdf = Wdf::<3, 0xF1B> { a: [i32::MIN + 5, 0, 123_456_789] };
    let mut state = WdfState::<3>::default();
    let outs: Vec<i32> = [i32::MAX, i32::MIN, 7].iter().map(|&x| wdf.process(&mut state, x)).collect();
    assert_eq!(outs, vec![0, 30_864_197, -1_088_286_744]);
    assert_eq!(state.z, [805_306_370, -1_879_048_196, -520_551_639]);

    assert_eq!(Tpa::from(0xa), Tpa::A);
    assert_eq!(Tpa::from(0x1), Tpa::X);
    assert_eq!(Tpa::from(0x7), Tpa::Z);
    assert!(Tpa::Z < Tpa::X && Tpa::X < Tpa::A && Tpa::D < Tpa::B1);
    assert_eq!(Wdf::<2, 0>::default().a, [0; 2]);
}

#[test]
fn noise_shaping_feeds_the_remainder_back() {
    // Gain 0.5 on a run of ones: the dropped half is carried into the next sample.
    let f = BiquadFixed::<30>::new([1 << 29, 0, 0, 0, 0], i32::MIN, i32::MAX, 0);
    let mut s = DirectForm1NoiseShaped::new();
    let mut out = [0i32; 4];
    for o in out.iter_mut() {
        *o = f.process_noise_shaped(&mut s, 1);
    }
    assert_eq!(out, [0, 1, 0, 1]);
    // The running totals differ by the stored remainder, which stays in [0, 2^30).
    let g = BiquadFixed::<30>::new([357_913_941, 0, 0, 0, 0], i32::MIN, i32::MAX, 0);
    let mut s = DirectForm1NoiseShaped::new();
    let (mut acc_sum, mut y_sum) = (0i64, 0i64);
    for n in 0..50i64 {
        let x = (n * 7 % 23) as i32 - 11;
        let y = g.process_noise_shaped(&mut s, x);
        acc_sum += 357_913_941i64 * x as i64;
        y_sum += y as i64;
        let diff = acc_sum - (y_sum << 30);
        assert!(0 <= diff && diff < 1 << 30);
        assert_eq!(diff, s.err as i64);
    }
}

#[test]
fn circular_buffer_new_latest_and_clear() {
    let mut b = CircularBuffer::<i32, 2>::new(0);
    assert_eq!((b.len(), b.is_empty(), b.capacity()), (0, true, 2));
    for k in 0..4 {
        assert_eq!(b.get(k), None);
    }
    assert_eq!((b.latest(), b.oldest()), (None, None));
    b.push(7);
    b.push(8);
    assert_eq!(b.latest(), Some(8));
    assert_eq!(b.latest(), b.get(0));
    assert_eq!(b.oldest(), Some(7));
    b.push(9);
    assert_eq!((b.get(0), b.get(1), b.get(2)), (Some(9), Some(8), None));
    assert!(b.is_full());
    b.clear(5);
    assert_eq!((b.len(), b.is_empty(), b.get(0)), (0, true, None));
    b.push(1);
    assert_eq!((b.len(), b.latest(), b.oldest()), (1, Some(1), Some(1)));

    // A zero-capacity buffer stays empty.
    let mut z = CircularBuffer::<i32, 0>::new(0);
    z.push(3);
    assert_eq!((z.len(), z.latest(), z.get(0)), (0, None, None));
}
