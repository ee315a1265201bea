//! Lock-in demodulation.
use vstd::prelude::*;

verus! {

/// Dual-phase lock-in amplifier mixer and demodulator.
///
/// Combines channel filters `C` with an IQ local oscillator reference to demodulate a noisy
/// input signal into in-phase `I` and quadrature `Q` components.
#[derive(Copy, Clone, Default, Debug, PartialEq)]
pub struct Lockin<C>(pub C);

impl<C> Lockin<C> {
    /// Create a new lock-in demodulator with the given low-pass channel filter.
    pub fn new(filter: C) -> (r: Self)
        ensures
            r.0 == filter,
    {
        Self(filter)
    }
}

} // verus!
