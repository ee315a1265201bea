//! Digital filtering: FIR state, biquad sections, adaptive LMS/NLMS filters, convolution,
//! correlation and median filtering, recursive single-pole and moving-average filters, integer
//! lowpass, lock-in and wave digital filters.
//!
//! Split into one submodule per filter family; the public items are re-exported here.
pub mod biquad;
pub mod fir;
pub mod int_filters;
pub mod lockin;
pub mod wdf;
pub mod adaptive;
pub mod convolution;
pub mod recursive;

pub use biquad::{
    biquad_cascade_df1, biquad_cascade_df2t, Biquad, BiquadCascadeDf2tInstance,
    BiquadCascadeInstance, BiquadClamp, BiquadFixed, BiquadInt, BiquadIntSample, DirectForm1, DirectForm1Int,
    DirectForm1NoiseShaped, DirectForm1Wide, DirectForm2Transposed,
};
pub use adaptive::{lms, lms_leaky, nlms, AdaptiveSample, LmsInstance, NlmsInstance};
pub use convolution::{
    conv_q15, conv_q31, conv_q7, correlate_q15, correlate_q31, median_filter_1d_q15,
    median_filter_1d_q31, FixedSample,
};
pub use fir::{fir, CircularBuffer, FirInstance};
pub use int_filters::IntLowpass;
pub use recursive::{DcBlockerQ15, RecursiveMovingAverage, SinglePoleFilter};
pub use lockin::Lockin;
pub use wdf::{Tpa, Wdf, WdfState};
