//! The values that the command line takes, and the checks on them.

use vstd::prelude::*;
use crate::text::{
    chars_of, contains, decimal_digits, decimal_up_to, parse_decimal, push_decimal, text_contains,
};

verus! {

/// What the export command takes: the history entry to render, and the file
/// to write.
#[derive(Debug)]
pub struct ExportArgs {
    pub history_id: i64,
    pub output: String,
}

/// The waveforms that the command line offers.
#[derive(Debug, Clone, Copy, PartialEq, Eq, Structural)]
pub enum Waveform {
    Sine,
    Sawtooth,
    Square,
}

/// The most characters that a note on a history entry may hold.
pub const MAX_NOTE_LENGTH: usize = 500;

/// What `validate_metronome_beat` answers to a number that is no beat.
pub open spec fn beat_refused(value: u8) -> Seq<char> {
    "メトロノームビートは 4, 8, 16 のいずれかを指定してください（指定値: "@ + decimal_digits(
        value as nat,
    ) + "）"@
}

/// What `validate_note` answers to a note of `count` characters, which are
/// too many.
pub open spec fn note_refused(count: nat) -> Seq<char> {
    "メモは"@ + decimal_digits(MAX_NOTE_LENGTH as nat) + "文字以内で入力してください（現在: "@
        + decimal_digits(count) + "文字）"@
}

/// Accepts the metronome beats 4, 8 and 16, written in decimal.
pub fn validate_metronome_beat(v: &str) -> (result: Result<u8, String>)
    ensures
        match decimal_up_to(v@, 255) {
            Some(value) => if value == 4 || value == 8 || value == 16 {
                result == Ok::<u8, String>(value as u8)
            } else {
                result is Err && result->Err_0@ == beat_refused(value as u8)
            },
            None => result is Err && result->Err_0@ == "Invalid number"@,
        },
{
    let chars = chars_of(v);
    match parse_decimal(&chars, 255) {
        Some(value) => {
            let beat: u8 = value as u8;
            if beat == 4 || beat == 8 || beat == 16 {
                Ok(beat)
            } else {
                let mut message = String::from_str(
                    "メトロノームビートは 4, 8, 16 のいずれかを指定してください（指定値: ",
                );
                push_decimal(&mut message, beat as u64);
                message.append("）");
                Err(message)
            }
        },
        None => Err(String::from_str("Invalid number")),
    }
}

/// Accepts a note of at most `MAX_NOTE_LENGTH` characters, whatever their
/// size in bytes.
pub fn validate_note(note: &str) -> (result: Result<(), String>)
    ensures
        note@.len() <= MAX_NOTE_LENGTH ==> result is Ok,
        note@.len() > MAX_NOTE_LENGTH ==> result is Err && result->Err_0@ == note_refused(
            note@.len(),
        ),
{
    let chars = chars_of(note);
    let count: usize = chars.len();
    if count > MAX_NOTE_LENGTH {
        let mut message = String::from_str("メモは");
        push_decimal(&mut message, MAX_NOTE_LENGTH as u64);
        message.append("文字以内で入力してください（現在: ");
        push_decimal(&mut message, count as u64);
        message.append("文字）");
        Err(message)
    } else {
        Ok(())
    }
}

/// Accepts a path to write to unless it holds `..`, by which it could
/// leave the directory it is meant for.
pub fn validate_output_path(output: &str) -> (result: Result<(), String>)
    ensures
        !contains(output@, ".."@) ==> result is Ok,
        contains(output@, ".."@) ==> result is Err && result->Err_0@
            == "Path traversal detected: '..' is not allowed in output path"@,
{
    let path = chars_of(output);
    let dots = chars_of("..");
    if text_contains(&path, &dots) {
        Err(String::from_str("Path traversal detected: '..' is not allowed in output path"))
    } else {
        Ok(())
    }
}

} // verus!
