//! The shapes of wave that a tone can have.

use vstd::prelude::*;

verus! {

#[derive(Debug, Clone, Copy, PartialEq, Eq, Structural)]
pub enum WaveformType {
    Sine,
    Sawtooth,
    Square,
}

} // verus!
