use embedded_dsp::pll::{ClampWrap, IntPll, IntPllState, Rpll, RpllConfig};

#[test]
fn clamp_wrap_rails_while_wrapped() {
    let mut c = ClampWrap::default();
    let outs: Vec<i32> = [100, i32::MAX - 9, i32::MIN + 5, 50, -100].iter().map(|&x| c.process(x)).collect();
    assert_eq!(outs, vec![100, i32::MAX - 9, i32::MAX, 50, -100]);
    assert_eq!(c.dir, 0);
    assert_eq!(c.x0, -100);
}

#[test]
fn int_pll_steps() {
    let pll = IntPll { ba: [1000, -900, -50] };
    let mut st = IntPllState::default();
    let outs: Vec<i32> = (0..4).map(|_| pll.process(&mut st, 1 << 20)).collect();
    assert_eq!(outs, vec![0, 0, 0, 0]);
    assert_eq!(st.f0, 1_310_719_965);
    assert_eq!(st.f, 4_141_875_138);
    assert_eq!((st.z0, st.y0), (524_288, 1_048_576));
    assert_eq!(st.phase(), 0);
    assert_eq!(st.frequency(), 0);
    let _ = pll.process(&mut st, 1 << 20);
    assert_eq!(st.phase(), (4_141_875_138i64 >> 32) as i32);
}

#[test]
fn rpll_tracks_timestamps() {
    let cfg = RpllConfig { dt2: 4, shift_frequency: 20, shift_phase: 24 };
    let mut r = Rpll::default();
    let outs: Vec<(i32, u32)> = [None, Some(16), None, Some(32), Some(48)]
        .iter()
        .map(|&t| r.process(&cfg, t))
        .collect();
    assert_eq!(outs, vec![(0, 0), (0, 65536), (65536, 65536), (131072, 131070), (262142, 196604)]);
    assert_eq!(r.phase(), 262142);
    assert_eq!(r.frequency(), 196604);
}
