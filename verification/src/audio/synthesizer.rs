//! How many samples a stretch of sound takes, how loud a tone is, where
//! its fades end, and where the clicks of the metronome fall.

use vstd::prelude::*;
use crate::audio::waveform::WaveformType;
use crate::mml::ast::Mml;
use crate::mml::duration::{Fraction, Ratio};
use crate::playback::{
    arrange, lemma_view_segments, segments_extent, total_extent, view_segments, walk, Segment,
};

verus! {

/// Renders pieces at a sample rate, at a master volume from 0 to 100, in
/// one shape of wave.
#[derive(Debug, Clone, Copy, PartialEq, Eq, Structural)]
pub struct Synthesizer {
    pub sample_rate: u32,
    pub volume: u8,
    pub waveform_type: WaveformType,
}

/// The samples of a fade at a sample rate: five milliseconds' worth.
pub open spec fn fade_samples(sample_rate: u32) -> int {
    sample_rate * 5 / 1000
}

/// The samples over which a tone of `len` samples fades in, and as many
/// over which it fades out: five milliseconds' worth, or half of the tone
/// where the tone is shorter than two fades.
pub open spec fn fade_length(len: int, sample_rate: u32) -> int {
    if len < 2 * fade_samples(sample_rate) {
        len / 2
    } else {
        fade_samples(sample_rate)
    }
}

/// The samples between two clicks of the metronome: a beat of a quarter, an
/// eighth or a sixteenth note lasts 60, 30 or 15 seconds over the tempo.
pub open spec fn click_interval(bpm: u16, beat: u8, sample_rate: u32) -> int
    recommends
        bpm > 0,
        beat == 4 || beat == 8 || beat == 16,
{
    (240int / (beat as int)) * (sample_rate as int) / (bpm as int)
}

/// How many clicks fall into `len` samples at `interval` samples apart,
/// the first at the very start. At an interval of zero there is one click.
pub open spec fn click_count(len: int, interval: int) -> int {
    if len <= 0 {
        0
    } else if interval <= 0 {
        1
    } else {
        (len - 1) / interval + 1
    }
}

impl Synthesizer {
    pub fn new(sample_rate: u32, volume: u8, waveform_type: WaveformType) -> (synthesizer: Self)
        ensures
            synthesizer == (Synthesizer { sample_rate, volume, waveform_type }),
    {
        Self { sample_rate, volume, waveform_type }
    }

    /// The segments that a piece sounds as: what has to be rendered, in
    /// order. `None` where the piece has a tempo of zero or a tuplet with a
    /// count of zero; a piece that the parser read has neither.
    pub fn segments(&self, mml: &Mml) -> (segments: Option<Vec<Segment>>)
        ensures
            match walk(mml@) {
                Some((expected, _)) => segments matches Some(s) && view_segments(s@) == expected,
                None => segments is None,
            },
    {
        arrange(mml.commands.as_slice())
    }

    /// The samples that a piece takes when it is rendered: those of every
    /// note and rest, each rounded by itself, and for a tuplet inside a
    /// tuplet those of the slot that it is fitted into.
    pub fn sample_total(&self, mml: &Mml) -> (samples: Option<u64>)
        ensures
            samples == (match walk(mml@) {
                Some((segments, _)) => total_extent(
                    segments,
                    segments.len(),
                    self.sample_rate,
                ),
                None => None,
            }),
    {
        match arrange(mml.commands.as_slice()) {
            Some(segments) => {
                proof {
                    lemma_view_segments(segments@);
                }
                segments_extent(&segments, self.sample_rate)
            },
            None => None,
        }
    }

    /// The samples that a stretch of `seconds` takes: the seconds times the
    /// sample rate, rounded to the nearest whole number.
    pub fn sample_count(&self, seconds: &Fraction) -> (samples: Option<u64>)
        ensures
            samples == seconds@.checked_rounded_times(self.sample_rate as int),
    {
        seconds.rounded_times(self.sample_rate)
    }

    /// By what a tone at `velocity`, from 0 to 15, is multiplied: the
    /// master volume over 100, times the velocity over 15.
    pub fn gain(&self, velocity: u8) -> (gain: Fraction)
        ensures
            gain@ == (Ratio { num: self.volume * velocity, den: 1500 }),
    {
        assert(self.volume * velocity <= 255 * 255) by (nonlinear_arith)
            requires
                self.volume <= 255,
                velocity <= 255,
        ;
        Fraction::new(self.volume as u64 * velocity as u64, 1500)
    }

    /// The samples over which a tone of `len` samples fades in and out.
    pub fn fade_length(&self, len: u64) -> (fade: u64)
        ensures
            fade == fade_length(len as int, self.sample_rate),
            2 * fade <= len,
    {
        let fade: u64 = self.sample_rate as u64 * 5 / 1000;
        if len < 2 * fade {
            len / 2
        } else {
            fade
        }
    }
}

/// The samples between two clicks of the metronome.
pub fn click_interval_samples(bpm: u16, beat: u8, sample_rate: u32) -> (interval: u64)
    requires
        bpm > 0,
        beat == 4 || beat == 8 || beat == 16,
    ensures
        interval == click_interval(bpm, beat, sample_rate),
{
    let seconds_times_bpm: u64 = if beat == 4 {
        60
    } else if beat == 8 {
        30
    } else {
        15
    };
    seconds_times_bpm * sample_rate as u64 / bpm as u64
}

/// Where the clicks of the metronome begin in a buffer of `len` samples:
/// at the start and then every `interval` samples, as long as that is
/// within the buffer. At an interval of zero there is the one click at the
/// start.
pub fn click_positions(len: usize, interval: usize) -> (positions: Vec<usize>)
    ensures
        positions.len() == click_count(len as int, interval as int),
        forall|k: int| 0 <= k < positions.len() ==> #[trigger] positions[k] == k * interval,
        forall|k: int| 0 <= k < positions.len() ==> #[trigger] positions[k] < len,
{
    let mut positions: Vec<usize> = Vec::new();
    if len == 0 {
        return positions;
    }
    if interval == 0 {
        positions.push(0);
        assert(positions[0] == 0 * interval);
        return positions;
    }
    let mut position: usize = 0;
    loop
        invariant
            interval > 0,
            position < len,
            position == positions.len() * interval,
            forall|k: int| 0 <= k < positions.len() ==> #[trigger] positions[k] == k * interval,
            forall|k: int| 0 <= k < positions.len() ==> #[trigger] positions[k] < len,
        decreases len - position,
    {
        let ghost count = positions.len();
        positions.push(position);
        proof {
            assert((count + 1) * interval == count * interval + interval) by (nonlinear_arith);
        }
        if len - position <= interval {
            proof {
                // The next click would begin at or after the end.
                assert((len - 1) / (interval as int) == count) by (nonlinear_arith)
                    requires
                        interval > 0,
                        position == count * interval,
                        position < len,
                        len - position <= interval,
                ;
            }
            return positions;
        }
        position += interval;
    }
}

} // verus!
