use embedded_dsp::dsm::Dsm;

#[test]
fn third_order_mash_output_sequence() {
    let mut d = Dsm::<3>::default();
    let x = 0x8765_4321u32;
    let out: Vec<i8> = (0..20).map(|_| d.process(x)).collect();
    assert_eq!(out, vec![0, 2, -1, 1, 1, 0, 1, 0, 1, 0, 1, 0, 1, 1, -1, 2, 0, 0, 2, -1]);
}

#[test]
fn long_run_average_balances_exactly() {
    // With zero feedback at both ends, 2^32 * sum(y) = n * x - (final first accumulator).
    let mut d = Dsm::<3>::default();
    let x = 0x8765_4321u32;
    let sum: i64 = (0..20).map(|_| d.process(x) as i64).sum();
    assert_eq!(sum * (1i64 << 32), 20 * x as i64 - 2481536660);

    let mut d = Dsm::<3>::default();
    let n: u32 = 1 << 16;
    let sum: f64 = (0..n).map(|_| d.process(x) as f64).sum();
    let mean = sum / n as f64;
    let expected = x as f64 / (1u64 << 32) as f64;
    assert!((mean - expected).abs() < 0.01);
}

#[test]
fn first_and_second_order_outputs() {
    let mut d1 = Dsm::<1>::default();
    let out: Vec<i8> = (0..6).map(|_| d1.process(0x8000_0000)).collect();
    assert_eq!(out, vec![0, 1, 0, 1, 0, 1]);

    let mut d2 = Dsm::<2>::default();
    let out: Vec<i8> = (0..8).map(|_| d2.process(0xC000_0000)).collect();
    assert_eq!(out, vec![0, 2, 0, 1, 1, 0, 2, 0]);

    let mut d0 = Dsm::<0>::default();
    assert_eq!(d0.process(u32::MAX), 0);
}

#[test]
fn reset_restarts_the_sequence() {
    let mut d = Dsm::<3>::default();
    let first: Vec<i8> = (0..5).map(|_| d.process(0x1234_5678)).collect();
    d.reset();
    let again: Vec<i8> = (0..5).map(|_| d.process(0x1234_5678)).collect();
    assert_eq!(first, again);
}

#[test]
fn dsm_new_matches_default_and_reset() {
    let mut a = Dsm::<3>::new();
    let mut b = Dsm::<3>::default();
    for x in [1u32 << 31, 3 << 30, 12345, u32::MAX, 0] {
        assert_eq!(a.process(x), b.process(x));
    }
    a.reset();
    let mut c = Dsm::<3>::new();
    for x in [7u32, 1 << 31, u32::MAX] {
        assert_eq!(a.process(x), c.process(x));
    }
}
