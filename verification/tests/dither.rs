use embedded_dsp::dither::{Triangular, Uniform, XorShift32};

#[test]
fn xorshift_sequence_from_one() {
    let mut rng = XorShift32::new(1);
    assert_eq!(rng.next_u32(), 270369);
    assert_eq!(rng.next_u32(), 67634689);
    assert_eq!(rng.next_u32(), 2647435461);
    let mut zero_seed = XorShift32::new(0);
    assert_eq!(zero_seed.next_u32(), 270369);
    let mut d = XorShift32::default();
    assert_eq!(d.next_u32(), 270369);
}

#[test]
fn xorshift_never_yields_zero() {
    let mut rng = XorShift32::new(0xdead_beef);
    for _ in 0..10_000 {
        assert_ne!(rng.next_u32(), 0);
    }
}

#[test]
fn uniform_hands_out_each_word_byte_by_byte() {
    let mut u = Uniform::new(1);
    let w = 270369u32;
    let bytes: Vec<u8> = (0..4).map(|_| u.sample()).collect();
    assert_eq!(bytes, vec![(w & 0xff) as u8, ((w >> 8) & 0xff) as u8, ((w >> 16) & 0xff) as u8, (w >> 24) as u8]);
    let w2 = 67634689u32;
    assert_eq!(u.sample(), (w2 & 0xff) as u8);
    let mut d = Uniform::default();
    assert_eq!(d.sample(), (w & 0xff) as u8);
}

#[test]
fn triangular_is_a_difference_of_two_bytes() {
    let mut t = Triangular::new(1);
    let w = 270369u32;
    let b0 = (w & 0xff) as u8 as i8 as i16;
    let b1 = ((w >> 8) & 0xff) as u8 as i8 as i16;
    assert_eq!(t.sample(), b0 - b1);
    let mut t = Triangular::default();
    for _ in 0..1000 {
        let s = t.sample();
        assert!(s >= -(1 << 8) && s < (1 << 8));
    }
}
