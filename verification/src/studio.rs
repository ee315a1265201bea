//! Studio model: the signal sources, processor modes, presets and panels a DSP workbench
//! offers, with the labels it shows for them.
use vstd::prelude::*;

verus! {

/// The workbench tabs.
#[derive(Debug, Clone, Copy, PartialEq, Eq, Default)]
pub enum StudioTab {
    /// Signal generator.
    #[default]
    SignalLab,
    /// Processor workbench.
    Processors,
    /// Spectral and scope analyzer.
    Analyzer,
    /// Snapshot capture.
    Snapshot,
    /// Benchmarks.
    Benchmark,
    /// Code generation.
    Codegen,
}

/// Test signal waveform.
#[derive(Debug, Clone, Copy, PartialEq, Eq)]
pub enum WaveformType {
    /// Band-limited sine.
    Sine,
    /// Band-limited sawtooth.
    Sawtooth,
    /// Band-limited square wave.
    Square,
    /// Band-limited triangle wave.
    Triangle,
    /// Linear frequency sweep.
    ChirpLinear,
    /// Exponential frequency sweep.
    ChirpExponential,
    /// Pink (1/f) noise.
    PinkNoise,
    /// White noise.
    WhiteNoise,
    /// Unit impulse.
    Impulse,
    /// Unit step.
    Step,
}

impl WaveformType {
    /// Every variant, in declaration order.
    pub fn all() -> (r: [WaveformType; 10])
        ensures
            r@ == seq![
                WaveformType::Sine,
                WaveformType::Sawtooth,
                WaveformType::Square,
                WaveformType::Triangle,
                WaveformType::ChirpLinear,
                WaveformType::ChirpExponential,
                WaveformType::PinkNoise,
                WaveformType::WhiteNoise,
                WaveformType::Impulse,
                WaveformType::Step,
            ],
    {
        let r = [WaveformType::Sine, WaveformType::Sawtooth, WaveformType::Square, WaveformType::Triangle, WaveformType::ChirpLinear, WaveformType::ChirpExponential, WaveformType::PinkNoise, WaveformType::WhiteNoise, WaveformType::Impulse, WaveformType::Step];
        assert(r@ =~= seq![
            WaveformType::Sine,
                WaveformType::Sawtooth,
                WaveformType::Square,
                WaveformType::Triangle,
                WaveformType::ChirpLinear,
                WaveformType::ChirpExponential,
                WaveformType::PinkNoise,
                WaveformType::WhiteNoise,
                WaveformType::Impulse,
                WaveformType::Step,
        ]);
        r
    }

    /// The waveform's label.
    pub fn display_name(&self) -> (r: &'static str)
        ensures
            *self == WaveformType::Sine ==> r@ == "Sine (PolyBLEP)"@,
            *self == WaveformType::Sawtooth ==> r@ == "Sawtooth (PolyBLEP)"@,
            *self == WaveformType::Square ==> r@ == "Square (PolyBLEP)"@,
            *self == WaveformType::Triangle ==> r@ == "Triangle (PolyBLEP)"@,
            *self == WaveformType::ChirpLinear ==> r@ == "Linear Chirp Sweep"@,
            *self == WaveformType::ChirpExponential ==> r@ == "Exponential Chirp"@,
            *self == WaveformType::PinkNoise ==> r@ == "Paul Kellett Pink Noise (1/f)"@,
            *self == WaveformType::WhiteNoise ==> r@ == "Xorshift White Noise"@,
            *self == WaveformType::Impulse ==> r@ == "Unit Impulse [δ(n)]"@,
            *self == WaveformType::Step ==> r@ == "Unit Step [u(n)]"@,
    {
        match self {
            WaveformType::Sine => "Sine (PolyBLEP)",
            WaveformType::Sawtooth => "Sawtooth (PolyBLEP)",
            WaveformType::Square => "Square (PolyBLEP)",
            WaveformType::Triangle => "Triangle (PolyBLEP)",
            WaveformType::ChirpLinear => "Linear Chirp Sweep",
            WaveformType::ChirpExponential => "Exponential Chirp",
            WaveformType::PinkNoise => "Paul Kellett Pink Noise (1/f)",
            WaveformType::WhiteNoise => "Xorshift White Noise",
            WaveformType::Impulse => "Unit Impulse [δ(n)]",
            WaveformType::Step => "Unit Step [u(n)]",
        }
    }

}

/// Which sources feed the processors.
#[derive(Debug, Clone, Copy, PartialEq, Eq)]
pub enum SourceRouting {
    /// Source A alone.
    SourceA,
    /// Source B alone.
    SourceB,
    /// The sum of both sources.
    SumBoth,
}

impl SourceRouting {
    /// The routing's label.
    pub fn display_name(&self) -> (r: &'static str)
        ensures
            *self == SourceRouting::SourceA ==> r@ == "Source A"@,
            *self == SourceRouting::SourceB ==> r@ == "Source B"@,
            *self == SourceRouting::SumBoth ==> r@ == "Source A + B (Sum)"@,
    {
        match self {
            SourceRouting::SourceA => "Source A",
            SourceRouting::SourceB => "Source B",
            SourceRouting::SumBoth => "Source A + B (Sum)",
        }
    }

}

/// The processing applied to a channel.
#[derive(Debug, Clone, Copy, PartialEq, Eq)]
pub enum ProcessorMode {
    /// Pass the signal through.
    Bypass,
    /// Biquad lowpass.
    BiquadLowpass,
    /// Biquad highpass.
    BiquadHighpass,
    /// Biquad bandpass.
    BiquadBandpass,
    /// Biquad notch.
    BiquadNotch,
    /// Biquad peaking equalizer.
    BiquadPeaking,
    /// State-variable lowpass.
    SvfLowpass,
    /// State-variable highpass.
    SvfHighpass,
    /// State-variable bandpass.
    SvfBandpass,
    /// State-variable notch.
    SvfNotch,
    /// State-variable peak.
    SvfPeak,
    /// Q15 quantizer.
    FixedPointQ15,
}

impl ProcessorMode {
    /// Every variant, in declaration order.
    pub fn all() -> (r: [ProcessorMode; 12])
        ensures
            r@ == seq![
                ProcessorMode::Bypass,
                ProcessorMode::BiquadLowpass,
                ProcessorMode::BiquadHighpass,
                ProcessorMode::BiquadBandpass,
                ProcessorMode::BiquadNotch,
                ProcessorMode::BiquadPeaking,
                ProcessorMode::SvfLowpass,
                ProcessorMode::SvfHighpass,
                ProcessorMode::SvfBandpass,
                ProcessorMode::SvfNotch,
                ProcessorMode::SvfPeak,
                ProcessorMode::FixedPointQ15,
            ],
    {
        let r = [ProcessorMode::Bypass, ProcessorMode::BiquadLowpass, ProcessorMode::BiquadHighpass, ProcessorMode::BiquadBandpass, ProcessorMode::BiquadNotch, ProcessorMode::BiquadPeaking, ProcessorMode::SvfLowpass, ProcessorMode::SvfHighpass, ProcessorMode::SvfBandpass, ProcessorMode::SvfNotch, ProcessorMode::SvfPeak, ProcessorMode::FixedPointQ15];
        assert(r@ =~= seq![
            ProcessorMode::Bypass,
                ProcessorMode::BiquadLowpass,
                ProcessorMode::BiquadHighpass,
                ProcessorMode::BiquadBandpass,
                ProcessorMode::BiquadNotch,
                ProcessorMode::BiquadPeaking,
                ProcessorMode::SvfLowpass,
                ProcessorMode::SvfHighpass,
                ProcessorMode::SvfBandpass,
                ProcessorMode::SvfNotch,
                ProcessorMode::SvfPeak,
                ProcessorMode::FixedPointQ15,
        ]);
        r
    }

    /// The mode's label.
    pub fn display_name(&self) -> (r: &'static str)
        ensures
            *self == ProcessorMode::Bypass ==> r@ == "Bypass (Thru)"@,
            *self == ProcessorMode::BiquadLowpass ==> r@ == "Biquad IIR Lowpass"@,
            *self == ProcessorMode::BiquadHighpass ==> r@ == "Biquad IIR Highpass"@,
            *self == ProcessorMode::BiquadBandpass ==> r@ == "Biquad IIR Bandpass"@,
            *self == ProcessorMode::BiquadNotch ==> r@ == "Biquad IIR Notch"@,
            *self == ProcessorMode::BiquadPeaking ==> r@ == "Biquad IIR Peaking EQ"@,
            *self == ProcessorMode::SvfLowpass ==> r@ == "State Variable Lowpass (Simper)"@,
            *self == ProcessorMode::SvfHighpass ==> r@ == "State Variable Highpass (Simper)"@,
            *self == ProcessorMode::SvfBandpass ==> r@ == "State Variable Bandpass (Simper)"@,
            *self == ProcessorMode::SvfNotch ==> r@ == "State Variable Notch (Simper)"@,
            *self == ProcessorMode::SvfPeak ==> r@ == "State Variable Peak (Simper)"@,
            *self == ProcessorMode::FixedPointQ15 ==> r@ == "Q15 Fixed-Point Quantizer"@,
    {
        match self {
            ProcessorMode::Bypass => "Bypass (Thru)",
            ProcessorMode::BiquadLowpass => "Biquad IIR Lowpass",
            ProcessorMode::BiquadHighpass => "Biquad IIR Highpass",
            ProcessorMode::BiquadBandpass => "Biquad IIR Bandpass",
            ProcessorMode::BiquadNotch => "Biquad IIR Notch",
            ProcessorMode::BiquadPeaking => "Biquad IIR Peaking EQ",
            ProcessorMode::SvfLowpass => "State Variable Lowpass (Simper)",
            ProcessorMode::SvfHighpass => "State Variable Highpass (Simper)",
            ProcessorMode::SvfBandpass => "State Variable Bandpass (Simper)",
            ProcessorMode::SvfNotch => "State Variable Notch (Simper)",
            ProcessorMode::SvfPeak => "State Variable Peak (Simper)",
            ProcessorMode::FixedPointQ15 => "Q15 Fixed-Point Quantizer",
        }
    }

}

/// Ready-made workbench configurations.
#[derive(Debug, Clone, Copy, PartialEq, Eq)]
pub enum StudioPreset {
    /// Biquad against state-variable filter.
    BiquadVsSvf,
    /// Float against Q15 quantization.
    FloatVsFixedQ15,
    /// A/B null cancellation.
    NullCancellationTest,
    /// PolyBLEP harmonics.
    PolyBlepHarmonics,
    /// Pink noise spectral slope.
    PinkNoiseAnalysis,
    /// Impulse response and settling.
    ImpulseResponseForensic,
}

impl StudioPreset {
    /// Every variant, in declaration order.
    pub fn all() -> (r: [StudioPreset; 6])
        ensures
            r@ == seq![
                StudioPreset::BiquadVsSvf,
                StudioPreset::FloatVsFixedQ15,
                StudioPreset::NullCancellationTest,
                StudioPreset::PolyBlepHarmonics,
                StudioPreset::PinkNoiseAnalysis,
                StudioPreset::ImpulseResponseForensic,
            ],
    {
        let r = [StudioPreset::BiquadVsSvf, StudioPreset::FloatVsFixedQ15, StudioPreset::NullCancellationTest, StudioPreset::PolyBlepHarmonics, StudioPreset::PinkNoiseAnalysis, StudioPreset::ImpulseResponseForensic];
        assert(r@ =~= seq![
            StudioPreset::BiquadVsSvf,
                StudioPreset::FloatVsFixedQ15,
                StudioPreset::NullCancellationTest,
                StudioPreset::PolyBlepHarmonics,
                StudioPreset::PinkNoiseAnalysis,
                StudioPreset::ImpulseResponseForensic,
        ]);
        r
    }

    /// The preset's title.
    pub fn title(&self) -> (r: &'static str)
        ensures
            *self == StudioPreset::BiquadVsSvf ==> r@ == "⚡ Biquad IIR vs State Variable Filter"@,
            *self == StudioPreset::FloatVsFixedQ15 ==> r@ == "🔬 Float32 vs Q15 Fixed-Point Quantization Noise"@,
            *self == StudioPreset::NullCancellationTest ==> r@ == "🎯 A/B Null Cancellation Test (Exact Zero Error)"@,
            *self == StudioPreset::PolyBlepHarmonics ==> r@ == "🌊 PolyBLEP Anti-Aliasing & Harmonics"@,
            *self == StudioPreset::PinkNoiseAnalysis ==> r@ == "📊 Pink Noise 1/f Spectral Slope (-3 dB/oct)"@,
            *self == StudioPreset::ImpulseResponseForensic ==> r@ == "🔍 Forensic Impulse Response & Settling Time"@,
    {
        match self {
            StudioPreset::BiquadVsSvf => "⚡ Biquad IIR vs State Variable Filter",
            StudioPreset::FloatVsFixedQ15 => "🔬 Float32 vs Q15 Fixed-Point Quantization Noise",
            StudioPreset::NullCancellationTest => "🎯 A/B Null Cancellation Test (Exact Zero Error)",
            StudioPreset::PolyBlepHarmonics => "🌊 PolyBLEP Anti-Aliasing & Harmonics",
            StudioPreset::PinkNoiseAnalysis => "📊 Pink Noise 1/f Spectral Slope (-3 dB/oct)",
            StudioPreset::ImpulseResponseForensic => "🔍 Forensic Impulse Response & Settling Time",
        }
    }

    /// What the preset demonstrates.
    pub fn description(&self) -> (r: &'static str)
        ensures
            *self == StudioPreset::BiquadVsSvf ==> r@ == "Compare classic Biquad Direct Form I with Andrew Simper's double-sampled State Variable Filter under 1 kHz resonance."@,
            *self == StudioPreset::FloatVsFixedQ15 ==> r@ == "Measure quantization distortion, SNR and spectral degradation introduced by CMSIS-style Q15 arithmetic."@,
            *self == StudioPreset::NullCancellationTest ==> r@ == "Route identical signals through both processors and invert one to verify bit-exact null cancellation."@,
            *self == StudioPreset::PolyBlepHarmonics ==> r@ == "Inspect harmonic suppression of band-limited PolyBLEP Sawtooth and Square waveforms without aliasing foldover."@,
            *self == StudioPreset::PinkNoiseAnalysis ==> r@ == "Evaluate Paul Kellett's multi-pole IIR pink noise generator across the 20 Hz - 20 kHz log frequency spectrum."@,
            *self == StudioPreset::ImpulseResponseForensic ==> r@ == "Inject a Dirac unit impulse into resonant filters to evaluate ringing, damping, settling time and stability."@,
    {
        match self {
            StudioPreset::BiquadVsSvf => "Compare classic Biquad Direct Form I with Andrew Simper's double-sampled State Variable Filter under 1 kHz resonance.",
            StudioPreset::FloatVsFixedQ15 => "Measure quantization distortion, SNR and spectral degradation introduced by CMSIS-style Q15 arithmetic.",
            StudioPreset::NullCancellationTest => "Route identical signals through both processors and invert one to verify bit-exact null cancellation.",
            StudioPreset::PolyBlepHarmonics => "Inspect harmonic suppression of band-limited PolyBLEP Sawtooth and Square waveforms without aliasing foldover.",
            StudioPreset::PinkNoiseAnalysis => "Evaluate Paul Kellett's multi-pole IIR pink noise generator across the 20 Hz - 20 kHz log frequency spectrum.",
            StudioPreset::ImpulseResponseForensic => "Inject a Dirac unit impulse into resonant filters to evaluate ringing, damping, settling time and stability.",
        }
    }

}

/// Analyzer panel settings.
#[derive(Debug, Clone, Copy, PartialEq, Eq)]
pub struct AnalyzerView {
    /// Show channel A.
    pub show_ch_a: bool,
    /// Show channel B.
    pub show_ch_b: bool,
    /// Show the A/B difference.
    pub show_null: bool,
    /// Samples shown by the scope.
    pub scope_zoom: usize,
}

impl Default for AnalyzerView {
    fn default() -> (r: Self)
        ensures
            r.show_ch_a && r.show_ch_b && !r.show_null && r.scope_zoom == 512,
    {
        Self { show_ch_a: true, show_ch_b: true, show_null: false, scope_zoom: 512 }
    }
}

impl AnalyzerView {
    /// Both channels shown, the difference hidden, a 512-sample scope.
    pub fn new() -> (r: Self)
        ensures
            r.show_ch_a && r.show_ch_b && !r.show_null && r.scope_zoom == 512,
    {
        Self::default()
    }
}

/// Benchmark panel (no settings).
#[derive(Debug, Clone, Copy, PartialEq, Eq, Default)]
pub struct BenchmarkView {}

impl BenchmarkView {
    /// The benchmark panel.
    pub fn new() -> (r: Self)
        ensures
            r == (BenchmarkView {  }),
    {
        Self {  }
    }
}

/// Processor workbench panel (no settings).
#[derive(Debug, Clone, Copy, PartialEq, Eq, Default)]
pub struct ProcessorsView {}

impl ProcessorsView {
    /// The processor workbench panel.
    pub fn new() -> (r: Self)
        ensures
            r == (ProcessorsView {  }),
    {
        Self {  }
    }
}

/// Signal generator panel (no settings).
#[derive(Debug, Clone, Copy, PartialEq, Eq, Default)]
pub struct SignalLabView {}

impl SignalLabView {
    /// The signal generator panel.
    pub fn new() -> (r: Self)
        ensures
            r == (SignalLabView {  }),
    {
        Self {  }
    }
}

} // verus!
