# embedded_dsp

Fixed-point and integer signal-processing building blocks for embedded targets, written in
Verus: every function carries a `requires`/`ensures` contract over a mathematical model
(`int`, `Seq`, spec functions), and Verus proves the code against it, overflow freedom included.

## Layout

- `src/types.rs` — the fixed-point sample types (`q7`, `q15`, `q31`, `q63`), `Complex`,
  `Status`, and the sample-arithmetic traits (`DspSample`, `MacSample`, `SampleFill`).
- `src/fec.rs` — CRCs, checksums, Hamming(7,4) coding, bit reversal.
- `src/dither.rs` — xorshift generator and uniform / triangular dither.
- `src/dsm.rs` — delta-sigma modulator.
- `src/fast_math.rs`, `src/cordic.rs` — integer CORDIC (sin/cos, atan2, polar conversion,
  square roots, atanh), integer square roots, phase unwrapping, fixed-point division.
- `src/complex_math.rs` — complex products, magnitudes and dot products in Q15/Q31.
- `src/controller.rs` — fixed-point PID, Clarke and Park transforms.
- `src/filtering/` — biquads (DF1, DF2T, cascades, clamped and noise-shaped variants), FIR,
  circular buffers, convolution and correlation, median filters, LMS/NLMS, recursive
  filters, integer low-pass, wave-digital filters, lock-in mixer.
- `src/pll.rs` — integer phase-locked loops (`IntPll`, `Rpll`).
- `src/kalman_compose.rs` — composable fixed-point Kalman filter (predict / update steps).
- `src/mixed_radix.rs` — FFT length planning and radix factorisation.
- `src/pipeline.rs` — processor composition (chains, splits, lanes, frame- and lane-major
  views, chunk bridging).
- `src/wav.rs` — WAV (RIFF, 16-bit PCM) framing: the canonical mono file of `i16` samples,
  reading the first channel back, and the round trip between the two.
- `src/studio.rs`, `src/filter_design.rs`, `src/modem.rs` — the studio's enumerations and
  their labels, filter-design scaling choices and pulse-shaping lengths, modem vocabulary.

Laws that relate several functions are public proof functions named `lemma_*`.

Pipeline stages are types implementing `SplitProcess` (or `Process`), not closures: a stage
gives its step as a spec function, `spec_process`, that its `process` meets exactly, and Verus
knows of a closure only a relation between its arguments and its results, which cannot be
matched against one such function.

`tests/` holds ordinary Rust tests on concrete values. `app/` holds the `f32` edges of WAV
export and import (scaling samples to and from 16-bit PCM) around `src/wav.rs`.
