//! The waveform of a history entry, as the history stores it.

use vstd::prelude::*;
use crate::text::{chars_of, text_equals};

verus! {

/// The waveforms that a history entry may name.
#[derive(Debug, Clone, Copy, PartialEq, Eq, Structural)]
pub enum Waveform {
    Sine,
    Sawtooth,
    Square,
}

/// A name that is no waveform's.
#[derive(Debug)]
pub struct InvalidWaveform {
    pub name: String,
}

/// The waveform of a name.
pub open spec fn waveform_named(name: Seq<char>) -> Option<Waveform> {
    if name == "sine"@ {
        Some(Waveform::Sine)
    } else if name == "sawtooth"@ {
        Some(Waveform::Sawtooth)
    } else if name == "square"@ {
        Some(Waveform::Square)
    } else {
        None
    }
}

impl Waveform {
    /// The name under which the history stores the waveform.
    pub fn as_str(&self) -> (name: &'static str)
        ensures
            name@ == (match self {
                Waveform::Sine => "sine"@,
                Waveform::Sawtooth => "sawtooth"@,
                Waveform::Square => "square"@,
            }),
    {
        match self {
            Waveform::Sine => "sine",
            Waveform::Sawtooth => "sawtooth",
            Waveform::Square => "square",
        }
    }

    /// The waveform that the history stores under `name`.
    pub fn from_name(name: &str) -> (result: Result<Waveform, InvalidWaveform>)
        ensures
            match waveform_named(name@) {
                Some(waveform) => result == Ok::<Waveform, InvalidWaveform>(waveform),
                None => result is Err && result->Err_0.name@ == name@,
            },
    {
        let chars = chars_of(name);
        if text_equals(&chars, &chars_of("sine")) {
            Ok(Waveform::Sine)
        } else if text_equals(&chars, &chars_of("sawtooth")) {
            Ok(Waveform::Sawtooth)
        } else if text_equals(&chars, &chars_of("square")) {
            Ok(Waveform::Square)
        } else {
            Err(InvalidWaveform { name: String::from_str(name) })
        }
    }
}

impl std::str::FromStr for Waveform {
    type Err = InvalidWaveform;

    /// The waveform that the history stores under `s`; for any other text,
    /// an error that holds the text.
    fn from_str(s: &str) -> (result: Result<Self, Self::Err>)
        ensures
            match waveform_named(s@) {
                Some(waveform) => result == Ok::<Waveform, InvalidWaveform>(waveform),
                None => result is Err && result->Err_0.name@ == s@,
            },
    {
        Waveform::from_name(s)
    }
}

} // verus!
