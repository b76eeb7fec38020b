//! The shapes an oscillator can produce.
use vstd::prelude::*;

verus! {

#[derive(Clone, Copy, PartialEq, Eq, Debug, Structural)]
pub enum Waveform {
    Sine,
    Saw,
    Square,
    Triangle,
}

} // verus!
