use embedded_dsp::filtering::{
    conv_q15, conv_q31, conv_q7, correlate_q15, correlate_q31, median_filter_1d_q15,
    median_filter_1d_q31,
};
use embedded_dsp::types::{q15, q31, q7, Status};

fn q15s<const N: usize>(v: [i16; N]) -> [q15; N] {
    v.map(q15)
}

fn q31s<const N: usize>(v: [i32; N]) -> [q31; N] {
    v.map(q31)
}

#[test]
fn conv_q15_full_length() {
    let mut dst = q15s([0; 4]);
    conv_q15(&q15s([16384, -8192, 32767]), &q15s([16384, 16384]), &mut dst);
    assert_eq!(dst, q15s([8192, 4096, 12287, 16383]));
}

#[test]
fn conv_q15_stops_at_the_destination() {
    let mut dst = q15s([7, 7]);
    conv_q15(&q15s([16384, -8192, 32767]), &q15s([16384, 16384]), &mut dst);
    assert_eq!(dst, q15s([8192, 4096]));
}

#[test]
fn conv_q15_saturates() {
    let mut dst = q15s([0; 3]);
    conv_q15(&q15s([32767, 32767]), &q15s([32767, 32767]), &mut dst);
    assert_eq!(dst, q15s([32766, 32767, 32766]));
}

#[test]
fn conv_q31_leaves_the_tail_alone() {
    let mut dst = q31s([5; 3]);
    conv_q31(&q31s([1 << 30, -(1 << 29)]), &q31s([1 << 30]), &mut dst);
    assert_eq!(dst, q31s([536870912, -268435456, 5]));
}

#[test]
fn conv_q7_floors_each_product() {
    let mut dst = [q7(9); 5];
    conv_q7(&[q7(64), q7(-128), q7(127)], &[q7(100), q7(-50)], &mut dst);
    assert_eq!(dst, [q7(50), q7(-125), q7(127), q7(-50), q7(9)]);
}

#[test]
fn correlate_q15_reverses_the_second_input() {
    let mut dst = q15s([1; 5]);
    correlate_q15(&q15s([16384, -8192, 32767]), &q15s([16384, 16384]), &mut dst);
    assert_eq!(dst, q15s([8192, 4096, 12287, 16383, 1]));
}

#[test]
fn correlate_q31_lags() {
    let mut dst = q31s([5; 3]);
    correlate_q31(&q31s([1 << 30, -(1 << 29)]), &q31s([1 << 30, 1 << 29]), &mut dst);
    assert_eq!(dst, q31s([268435456, 402653184, -268435456]));
}

#[test]
fn median_q15_removes_spikes_above_the_threshold() {
    let src = q15s([100, 5000, 120, 130, -4000, 140, 150]);
    let mut dst = q15s([0; 8]);
    assert_eq!(median_filter_1d_q15(&src, &mut dst, 3, q15(1000)), Status::Success);
    assert_eq!(dst, q15s([100, 120, 120, 130, 130, 140, 150, 0]));
    let mut dst = q15s([0; 8]);
    assert_eq!(median_filter_1d_q15(&src, &mut dst, 5, q15(0)), Status::Success);
    assert_eq!(dst, q15s([100, 120, 120, 130, 130, 140, 150, 0]));
}

#[test]
fn median_keeps_samples_below_the_threshold() {
    let src = q15s([100, 5000, 120]);
    let mut dst = q15s([0; 3]);
    assert_eq!(median_filter_1d_q15(&src, &mut dst, 3, q15(10000)), Status::Success);
    assert_eq!(dst, src);
}

#[test]
fn median_q31_window_of_one_is_the_identity() {
    let src = q31s([10, 20]);
    let mut dst = q31s([0; 2]);
    assert_eq!(median_filter_1d_q31(&src, &mut dst, 1, q31(0)), Status::Success);
    assert_eq!(dst, src);
}

#[test]
fn median_rejects_bad_arguments() {
    let src = q31s([10, 20, 30]);
    let mut dst = q31s([7; 3]);
    assert_eq!(median_filter_1d_q31(&src, &mut dst, 2, q31(0)), Status::ArgumentError);
    assert_eq!(median_filter_1d_q31(&src, &mut dst, 0, q31(0)), Status::ArgumentError);
    assert_eq!(median_filter_1d_q31(&src, &mut dst, 65, q31(0)), Status::ArgumentError);
    assert_eq!(dst, q31s([7; 3]));
    let mut short = q31s([7; 2]);
    assert_eq!(median_filter_1d_q31(&src, &mut short, 3, q31(0)), Status::LengthError);
    assert_eq!(median_filter_1d_q31(&[], &mut short, 3, q31(0)), Status::LengthError);
    assert_eq!(short, q31s([7; 2]));
}
