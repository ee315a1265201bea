//! Modem vocabulary.
use vstd::prelude::*;

verus! {

/// SSB sideband selection.
#[derive(Debug, Clone, Copy, PartialEq, Eq)]
pub enum SsbSideband {
    /// Upper sideband: analytic `I + j Q`.
    Usb,
    /// Lower sideband: analytic `I − j Q`.
    Lsb,
}

} // verus!
