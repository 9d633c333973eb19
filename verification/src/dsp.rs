//! The kinds of filter the equalizer is built from. The filters themselves
//! compute on real numbers and live with the caller.
use vstd::prelude::*;

verus! {

/// Response shape of a biquad filter.
#[derive(Debug, Clone, Copy, PartialEq, Eq, Structural)]
pub enum BiquadType {
    Peaking,
    LowShelf,
    HighShelf,
    LowPass,
    HighPass,
}

} // verus!
