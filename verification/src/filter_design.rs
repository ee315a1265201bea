//! Filter design support: coefficient scaling strategies and pulse-shaping lengths.
use vstd::prelude::*;

verus! {

/// Gain scaling strategy for biquad SOS fixed-point quantization.
#[derive(Debug, Clone, Copy, PartialEq, Eq)]
pub enum ScalingStrategy {
    /// Strict peak-gain scaling: guarantees no overflow for any sinusoidal input.
    LInfNorm,
    /// Energy-based root-mean-square gain scaling.
    L2Norm,
    /// Preserves direct coefficient scale (post_shift handles dynamic range).
    Direct,
}

/// FIR pulse-shaping length: `2 * samples_per_symbol * symbol_span + 1`.
pub fn pulse_shaping_len(samples_per_symbol: usize, symbol_span: usize) -> (r: usize)
    requires
        2 * samples_per_symbol <= usize::MAX,
        2 * samples_per_symbol * symbol_span + 1 <= usize::MAX,
    ensures
        r == 2 * samples_per_symbol * symbol_span + 1,
{
    let twice = 2 * samples_per_symbol;
    proof {
        assert(twice * symbol_span == 2 * samples_per_symbol * symbol_span) by (nonlinear_arith)
            requires
                twice == 2 * samples_per_symbol,
        ;
    }
    twice * symbol_span + 1
}

} // verus!
