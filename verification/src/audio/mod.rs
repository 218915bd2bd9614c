//! Rendering a piece into samples: everything about it that is counted in
//! whole numbers.

pub mod synthesizer;
pub mod waveform;

pub use synthesizer::Synthesizer;
pub use waveform::WaveformType;
