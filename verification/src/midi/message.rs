//! MIDI messages and the conversion of notation values to MIDI values.

use vstd::prelude::*;
use crate::mml::ast::{midi_note_number, Accidental, Pitch};

verus! {

/// A MIDI channel, 1 to 16.
pub type MidiChannel = u8;

/// A MIDI note number, 0 to 127.
pub type MidiNote = u8;

/// A MIDI velocity, 0 to 127.
pub type MidiVelocity = u8;

/// The messages that playback sends. `AllNotesOff` is control change 123.
#[derive(Debug, Clone, Copy, PartialEq, Eq, Structural)]
pub enum MidiMessage {
    NoteOn { channel: MidiChannel, note: MidiNote, velocity: MidiVelocity },
    NoteOff { channel: MidiChannel, note: MidiNote, velocity: MidiVelocity },
    AllNotesOff { channel: MidiChannel },
}

/// The four bits that name a channel in a status byte: the channel less
/// one, where the channel is 1 to 16.
pub open spec fn channel_bits(channel: u8) -> u8 {
    (if channel == 0 {
        0u8
    } else {
        (channel - 1) as u8
    }) & 0x0f
}

impl MidiMessage {
    /// The three bytes of the message on the wire.
    pub open spec fn bytes(self) -> Seq<u8> {
        match self {
            MidiMessage::NoteOn { channel, note, velocity } => seq![
                0x90u8 | channel_bits(channel),
                note & 0x7f,
                velocity & 0x7f,
            ],
            MidiMessage::NoteOff { channel, note, velocity } => seq![
                0x80u8 | channel_bits(channel),
                note & 0x7f,
                velocity & 0x7f,
            ],
            MidiMessage::AllNotesOff { channel } => seq![0xb0u8 | channel_bits(channel), 123u8, 0u8],
        }
    }

    pub fn note_on(channel: MidiChannel, note: MidiNote, velocity: MidiVelocity) -> (message: Self)
        ensures
            message == (MidiMessage::NoteOn { channel, note, velocity }),
    {
        MidiMessage::NoteOn { channel, note, velocity }
    }

    pub fn note_off(channel: MidiChannel, note: MidiNote, velocity: MidiVelocity) -> (message: Self)
        ensures
            message == (MidiMessage::NoteOff { channel, note, velocity }),
    {
        MidiMessage::NoteOff { channel, note, velocity }
    }

    pub fn all_notes_off(channel: MidiChannel) -> (message: Self)
        ensures
            message == (MidiMessage::AllNotesOff { channel }),
    {
        MidiMessage::AllNotesOff { channel }
    }

    /// The three bytes of the message on the wire: the status byte, which
    /// holds the kind of message and the channel, and two data bytes of
    /// seven bits each.
    pub fn to_bytes(&self) -> (bytes: [u8; 3])
        ensures
            bytes@ == self.bytes(),
    {
        match *self {
            MidiMessage::NoteOn { channel, note, velocity } => {
                let status: u8 = 0x90 | (channel.saturating_sub(1) & 0x0f);
                [status, note & 0x7f, velocity & 0x7f]
            },
            MidiMessage::NoteOff { channel, note, velocity } => {
                let status: u8 = 0x80 | (channel.saturating_sub(1) & 0x0f);
                [status, note & 0x7f, velocity & 0x7f]
            },
            MidiMessage::AllNotesOff { channel } => {
                let status: u8 = 0xb0 | (channel.saturating_sub(1) & 0x0f);
                [status, 123, 0]
            },
        }
    }
}

/// On a channel from 1 to 16 the status byte is the kind of message plus
/// the channel less one, and a data byte up to 127 is sent as it is.
pub proof fn lemma_message_bytes(message: MidiMessage)
    ensures
        match message {
            MidiMessage::NoteOn { channel, note, velocity } => {
                &&& 1 <= channel <= 16 ==> message.bytes()[0] == 0x90 + (channel - 1)
                &&& note <= 127 ==> message.bytes()[1] == note
                &&& velocity <= 127 ==> message.bytes()[2] == velocity
                &&& message.bytes()[1] <= 127 && message.bytes()[2] <= 127
            },
            MidiMessage::NoteOff { channel, note, velocity } => {
                &&& 1 <= channel <= 16 ==> message.bytes()[0] == 0x80 + (channel - 1)
                &&& note <= 127 ==> message.bytes()[1] == note
                &&& velocity <= 127 ==> message.bytes()[2] == velocity
                &&& message.bytes()[1] <= 127 && message.bytes()[2] <= 127
            },
            MidiMessage::AllNotesOff { channel } => {
                &&& 1 <= channel <= 16 ==> message.bytes()[0] == 0xb0 + (channel - 1)
                &&& message.bytes()[1] == 123
                &&& message.bytes()[2] == 0
            },
        },
{
    match message {
        MidiMessage::NoteOn { channel, note, velocity } => {
            if 1 <= channel <= 16 {
                lemma_status_byte(0x90, channel);
            }
            lemma_data_byte(note);
            lemma_data_byte(velocity);
        },
        MidiMessage::NoteOff { channel, note, velocity } => {
            if 1 <= channel <= 16 {
                lemma_status_byte(0x80, channel);
            }
            lemma_data_byte(note);
            lemma_data_byte(velocity);
        },
        MidiMessage::AllNotesOff { channel } => {
            if 1 <= channel <= 16 {
                lemma_status_byte(0xb0, channel);
            }
        },
    }
}

proof fn lemma_status_byte(kind: u8, channel: u8)
    requires
        kind == 0x80 || kind == 0x90 || kind == 0xb0,
        1 <= channel <= 16,
    ensures
        kind | channel_bits(channel) == kind + (channel - 1),
{
    let low: u8 = (channel - 1) as u8;
    assert(low <= 15);
    assert((kind == 0x80 || kind == 0x90 || kind == 0xb0) && low <= 15 ==> kind | (low & 0x0f)
        == kind + low) by (bit_vector);
}

proof fn lemma_data_byte(value: u8)
    ensures
        value & 0x7f <= 127,
        value <= 127 ==> value & 0x7f == value,
{
    assert(value & 0x7f <= 127) by (bit_vector);
    assert(value <= 127 ==> value & 0x7f == value) by (bit_vector);
}

/// The bytes of a Note On message.
pub fn build_note_on_message(channel: u8, note: u8, velocity: u8) -> (bytes: [u8; 3])
    ensures
        bytes@ == (MidiMessage::NoteOn { channel, note, velocity }).bytes(),
{
    MidiMessage::note_on(channel, note, velocity).to_bytes()
}

/// The bytes of a Note Off message, which has velocity 0.
pub fn build_note_off_message(channel: u8, note: u8) -> (bytes: [u8; 3])
    ensures
        bytes@ == (MidiMessage::NoteOff { channel, note, velocity: 0 }).bytes(),
{
    MidiMessage::note_off(channel, note, 0).to_bytes()
}

/// The bytes of an All Notes Off message.
pub fn build_all_notes_off_message(channel: u8) -> (bytes: [u8; 3])
    ensures
        bytes@ == (MidiMessage::AllNotesOff { channel }).bytes(),
{
    MidiMessage::all_notes_off(channel).to_bytes()
}

/// The MIDI note number of a pitch in an octave: twelve per octave, with C
/// of octave 4 at 60, kept within 0..=127.
pub fn mml_to_midi_note(pitch: Pitch, accidental: Accidental, octave: u8) -> (note: u8)
    ensures
        note as int == midi_note_number(pitch, accidental, octave as int),
        note <= 127,
{
    let raw: i16 = (octave as i16 + 1) * 12 + pitch.semitone() as i16 + accidental.offset() as i16;
    if raw < 0 {
        0
    } else if raw > 127 {
        127
    } else {
        raw as u8
    }
}

/// The MIDI velocity of a volume on the scale from 0 to 15: the volume
/// times 127 over 15, rounded down.
pub open spec fn velocity_of_volume(volume: int) -> int {
    volume * 127 / 15
}

/// Maps a volume on the notation's scale from 0 to 15 linearly to a MIDI
/// velocity from 0 to 127. A volume above 15 gives the low eight bits of
/// the same quotient.
pub fn mml_volume_to_velocity(volume: u8) -> (velocity: u8)
    ensures
        velocity as int == velocity_of_volume(volume as int) % 256,
        volume <= 15 ==> velocity as int == velocity_of_volume(volume as int) && velocity <= 127,
{
    let wide: u16 = volume as u16 * 127 / 15;
    (wide % 256) as u8
}

} // verus!
