use embedded_dsp::controller::{
    clarke_q15, inv_clarke_q15, inv_park_q15, park_q15, pid_q15, pid_q31, PidInstanceQ15,
    PidInstanceQ31,
};
use embedded_dsp::types::{q15, q31};

#[test]
fn pid_q15_gains_and_steps() {
    let mut pid = PidInstanceQ15::new(q15(16384), q15(8192), q15(4096));
    assert_eq!((pid.a0, pid.a1, pid.a2), (q15(28672), q15(-24576), q15(4096)));
    assert_eq!(pid.state, [q15(0); 3]);
    assert_eq!(pid.process(q15(1000)), q15(875));
    assert_eq!(pid.state, [q15(1000), q15(0), q15(875)]);
    assert_eq!(pid_q15(&mut pid, q15(1000)), q15(1000));
    assert_eq!(pid.process(q15(1000)), q15(1250));
    pid.reset();
    assert_eq!(pid.state, [q15(0); 3]);
}

#[test]
fn pid_q15_gains_saturate_and_wrap() {
    let pid = PidInstanceQ15::new(q15(32767), q15(32767), q15(32767));
    assert_eq!((pid.a0, pid.a1, pid.a2), (q15(32767), q15(-32765), q15(32767)));
}

#[test]
fn pid_q15_init_keeps_the_state_without_the_flag() {
    let mut pid = PidInstanceQ15::new(q15(16384), q15(8192), q15(4096));
    pid.process(q15(1000));
    pid.kp = q15(0);
    pid.init(0);
    assert_eq!((pid.a0, pid.a1, pid.a2), (q15(12288), q15(-8192), q15(4096)));
    assert_eq!(pid.state, [q15(1000), q15(0), q15(875)]);
    pid.init(1);
    assert_eq!(pid.state, [q15(0); 3]);
}

#[test]
fn pid_q15_minus_one_squared_wraps() {
    let mut pid = PidInstanceQ15 {
        a0: q15(-32768),
        a1: q15(0),
        a2: q15(0),
        state: [q15(0); 3],
        kp: q15(0),
        ki: q15(0),
        kd: q15(0),
    };
    assert_eq!(pid.process(q15(-32768)), q15(-32768));
}

#[test]
fn pid_q31_steps() {
    let mut pid = PidInstanceQ31::new(q31(1 << 30), q31(1 << 29), q31(1 << 28));
    assert_eq!((pid.a0, pid.a1, pid.a2), (q31(1879048192), q31(-1610612736), q31(1 << 28)));
    assert_eq!(pid_q31(&mut pid, q31(1 << 30)), q31(939524096));
    assert_eq!(pid.state, [q31(1 << 30), q31(0), q31(939524096)]);
}

#[test]
fn clarke_q15_transforms() {
    let (mut a, mut b) = (q15(0), q15(0));
    clarke_q15(q15(1000), q15(2000), &mut a, &mut b);
    assert_eq!((a, b), (q15(1000), q15(2886)));
    let (mut ia, mut ib) = (q15(0), q15(0));
    inv_clarke_q15(q15(1000), q15(2000), &mut ia, &mut ib);
    assert_eq!((ia, ib), (q15(1000), q15(1232)));
}

#[test]
fn park_q15_rotates_and_inverts() {
    let (mut d, mut q) = (q15(0), q15(0));
    park_q15(q15(1000), q15(2000), q15(16384), q15(16384), &mut d, &mut q);
    assert_eq!((d, q), (q15(1500), q15(500)));
    let (mut al, mut be) = (q15(0), q15(0));
    inv_park_q15(d, q, q15(16384), q15(16384), &mut al, &mut be);
    assert_eq!((al, be), (q15(500), q15(1000)));
    park_q15(q15(-1), q15(0), q15(0), q15(32767), &mut d, &mut q);
    assert_eq!((d, q), (q15(-1), q15(0)));
}

#[test]
fn inverse_clarke_undoes_clarke_within_two_lsb() {
    for ia in (-32768i32..32768).step_by(251) {
        for ib in (-32768i32..32768).step_by(263) {
            let (mut alpha, mut beta) = (q15(0), q15(0));
            clarke_q15(q15(ia as i16), q15(ib as i16), &mut alpha, &mut beta);
            let raw_beta = ((ia + 2 * ib) * 18919).div_euclid(32768);
            if raw_beta < -32768 || raw_beta > 32767 {
                continue;
            }
            let (mut ia2, mut ib2) = (q15(0), q15(0));
            inv_clarke_q15(alpha, beta, &mut ia2, &mut ib2);
            assert_eq!(ia2.0 as i32, ia);
            assert!(ib - 2 <= ib2.0 as i32 && ib2.0 as i32 <= ib, "ia {} ib {}", ia, ib);
        }
    }
    // A concrete round trip.
    let (mut alpha, mut beta) = (q15(0), q15(0));
    clarke_q15(q15(1000), q15(2000), &mut alpha, &mut beta);
    let (mut ia, mut ib) = (q15(0), q15(0));
    inv_clarke_q15(alpha, beta, &mut ia, &mut ib);
    assert_eq!((ia, ib), (q15(1000), q15(1999)));
}
