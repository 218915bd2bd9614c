//! What the history of played pieces keeps.

pub mod history;

pub use history::Waveform;
