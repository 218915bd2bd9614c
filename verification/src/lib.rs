//! A compiler for a compact text-based music notation: pitch letters,
//! octave, tempo, length and volume directives, bracketed loops, braced
//! tuplets and tie chains are turned into a fully resolved command sequence.

pub mod audio;
pub mod cli;
pub mod db;
pub mod midi;
pub mod mml;
pub mod playback;
pub mod text;
