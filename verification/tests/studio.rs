use embedded_dsp::controller::{PidAction, PidError, PidOrder};
use embedded_dsp::filter_design::{pulse_shaping_len, ScalingStrategy};
use embedded_dsp::modem::SsbSideband;
use embedded_dsp::studio::{
    AnalyzerView, BenchmarkView, ProcessorMode, ProcessorsView, SignalLabView, SourceRouting,
    StudioPreset, StudioTab, WaveformType,
};

#[test]
fn labels_name_each_choice() {
    assert_eq!(WaveformType::Sine.display_name(), "Sine (PolyBLEP)");
    assert_eq!(WaveformType::Impulse.display_name(), "Unit Impulse [δ(n)]");
    assert_eq!(SourceRouting::SumBoth.display_name(), "Source A + B (Sum)");
    assert_eq!(ProcessorMode::FixedPointQ15.display_name(), "Q15 Fixed-Point Quantizer");
    assert_eq!(StudioPreset::BiquadVsSvf.title(), "⚡ Biquad IIR vs State Variable Filter");
    assert!(StudioPreset::NullCancellationTest.description().starts_with("Route identical signals"));
}

#[test]
fn panels_and_defaults() {
    let a = AnalyzerView::new();
    assert!(a.show_ch_a && a.show_ch_b && !a.show_null);
    assert_eq!(a.scope_zoom, 512);
    assert_eq!(BenchmarkView::new(), BenchmarkView::default());
    assert_eq!(ProcessorsView::new(), ProcessorsView::default());
    assert_eq!(SignalLabView::new(), SignalLabView::default());
    assert_eq!(StudioTab::default(), StudioTab::SignalLab);
    assert_eq!(PidOrder::default(), PidOrder::I);
    assert!(PidAction::I2 < PidAction::D2);
    assert_eq!(PidError::NonFinite("kp"), PidError::NonFinite("kp"));
    assert_ne!(ScalingStrategy::L2Norm, ScalingStrategy::Direct);
    assert_ne!(SsbSideband::Usb, SsbSideband::Lsb);
}

#[test]
fn pulse_shaping_length() {
    assert_eq!(pulse_shaping_len(4, 6), 49);
    assert_eq!(pulse_shaping_len(0, 6), 1);
    assert_eq!(pulse_shaping_len(8, 0), 1);
}

#[test]
fn variant_lists_hold_every_variant_once() {
    let w = WaveformType::all();
    assert_eq!(w.len(), 10);
    assert_eq!((w[0], w[9]), (WaveformType::Sine, WaveformType::Step));
    let m = ProcessorMode::all();
    assert_eq!(m.len(), 12);
    assert_eq!((m[0], m[11]), (ProcessorMode::Bypass, ProcessorMode::FixedPointQ15));
    let p = StudioPreset::all();
    assert_eq!(p.len(), 6);
    assert_eq!(
        (p[0], p[5]),
        (StudioPreset::BiquadVsSvf, StudioPreset::ImpulseResponseForensic)
    );
    for (i, a) in w.iter().enumerate() {
        for b in &w[i + 1..] {
            assert_ne!(a, b);
        }
    }
}
