use embedded_dsp::mixed_radix::{cfft_f32_len_ok, fft_is_235_smooth, kf_factor, next_fast_fft_size};

const MAX_FACTORS: usize = 32;

#[test]
fn kf_factor_rejects_primes_and_tiny_buffers() {
    let mut fac = [0usize; MAX_FACTORS];
    assert!(kf_factor(7, &mut fac).is_none());
    assert!(kf_factor(1, &mut fac).is_some());
    let mut tiny = [0usize; 2];
    assert!(kf_factor(12, &mut tiny).is_none());
    let mut two = [0usize; 2];
    assert_eq!(kf_factor(4, &mut two), Some(2));
}

#[test]
fn kf_factor_takes_fours_first_then_two_three_five() {
    let mut fac = [0usize; MAX_FACTORS];
    assert_eq!(kf_factor(240, &mut fac), Some(8));
    assert_eq!(&fac[..9], &[4, 60, 4, 15, 3, 5, 5, 1, 0]);

    let mut fac = [0usize; MAX_FACTORS];
    assert_eq!(kf_factor(90, &mut fac), Some(8));
    assert_eq!(&fac[..8], &[2, 45, 3, 15, 3, 5, 5, 1]);

    // A prime factor above 5 stops after the radices that did divide.
    let mut fac = [0usize; MAX_FACTORS];
    assert_eq!(kf_factor(28, &mut fac), None);
    assert_eq!(&fac[..3], &[4, 7, 0]);

    // Too short: the steps that fit are written.
    let mut fac = [9usize; 5];
    assert_eq!(kf_factor(240, &mut fac), None);
    assert_eq!(fac, [4, 60, 4, 15, 9]);

    let mut fac = [9usize; 3];
    assert_eq!(kf_factor(0, &mut fac), Some(0));
    assert_eq!(fac, [9, 9, 9]);
}

#[test]
fn smooth_lengths_factor_into_two_three_five() {
    assert!(!fft_is_235_smooth(0));
    assert!(!fft_is_235_smooth(1));
    assert!(fft_is_235_smooth(2));
    assert!(fft_is_235_smooth(360));
    assert!(!fft_is_235_smooth(7));
    assert!(!fft_is_235_smooth(14));
    assert!(fft_is_235_smooth(1 << 20));
}

#[test]
fn next_fast_size_is_the_smallest_smooth_length_at_least_n() {
    assert_eq!(next_fast_fft_size(0), 2);
    assert_eq!(next_fast_fft_size(1), 2);
    assert_eq!(next_fast_fft_size(7), 8);
    assert_eq!(next_fast_fft_size(11), 12);
    assert_eq!(next_fast_fft_size(97), 100);
    assert_eq!(next_fast_fft_size(360), 360);
}

#[test]
fn cfft_lengths_are_powers_of_two_or_small_smooth() {
    assert!(!cfft_f32_len_ok(0));
    assert!(!cfft_f32_len_ok(1));
    assert!(cfft_f32_len_ok(2));
    assert!(cfft_f32_len_ok(1024));
    assert!(cfft_f32_len_ok(1 << 16));
    assert!(cfft_f32_len_ok(480));
    assert!(!cfft_f32_len_ok(540));
    assert!(!cfft_f32_len_ok(7));
}

#[test]
fn factoring_succeeds_exactly_on_smooth_lengths() {
    for n in 2..=600usize {
        let mut fac = [0usize; MAX_FACTORS];
        let r = kf_factor(n, &mut fac);
        assert_eq!(r.is_some(), fft_is_235_smooth(n), "n = {}", n);
        if let Some(slots) = r {
            let product: usize = (0..slots / 2).map(|j| fac[2 * j]).product();
            assert_eq!(product, n);
        }
    }
}
