//! MIDI output: errors, messages, and the conversion of notation values to
//! MIDI values.

pub mod device;
pub mod error;
pub mod message;
pub mod player;

pub use device::{list_midi_devices_info, resolve_device_id, MidiDeviceInfo};
pub use error::{MidiError, MidiErrorView};
pub use message::{
    build_all_notes_off_message, build_note_off_message, build_note_on_message, mml_to_midi_note,
    mml_volume_to_velocity, MidiChannel, MidiMessage, MidiNote, MidiVelocity,
};
pub use player::{
    calculate_total_duration_ms, schedule, Action, Event, Phase, PlaybackState, Player,
};
