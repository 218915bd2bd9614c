//! What can go wrong with MIDI output.

use vstd::prelude::*;
use crate::text::{decimal_digits, push_decimal};

verus! {

/// The view of a `MidiError`.
pub enum MidiErrorView {
    NoDeviceFound,
    ConnectionFailed { reason: Seq<char> },
    SendFailed { reason: Seq<char> },
    InvalidDeviceId { id: usize },
    DeviceDisconnected,
    InvalidChannel { channel: u8 },
}

#[derive(Debug)]
pub enum MidiError {
    /// No MIDI device, or none of the name asked for.
    NoDeviceFound,
    /// The connection to a device could not be made.
    ConnectionFailed { reason: String },
    /// A message could not be sent.
    SendFailed { reason: String },
    /// No device has this number.
    InvalidDeviceId { id: usize },
    /// The device is gone.
    DeviceDisconnected,
    /// A channel outside 1..=16.
    InvalidChannel { channel: u8 },
}

impl View for MidiError {
    type V = MidiErrorView;

    open spec fn view(&self) -> MidiErrorView {
        match self {
            MidiError::NoDeviceFound => MidiErrorView::NoDeviceFound,
            MidiError::ConnectionFailed { reason } => MidiErrorView::ConnectionFailed {
                reason: reason@,
            },
            MidiError::SendFailed { reason } => MidiErrorView::SendFailed { reason: reason@ },
            MidiError::InvalidDeviceId { id } => MidiErrorView::InvalidDeviceId { id: *id },
            MidiError::DeviceDisconnected => MidiErrorView::DeviceDisconnected,
            MidiError::InvalidChannel { channel } => MidiErrorView::InvalidChannel {
                channel: *channel,
            },
        }
    }
}

impl MidiErrorView {
    /// The message that describes the error.
    pub open spec fn message(self) -> Seq<char> {
        match self {
            MidiErrorView::NoDeviceFound => "[MML-E015] MIDIデバイスが見つかりません"@,
            MidiErrorView::ConnectionFailed { reason } =>
                "[MML-E016] MIDIデバイスへの接続に失敗しました: "@ + reason,
            MidiErrorView::SendFailed { reason } =>
                "[MML-E017] MIDIメッセージの送信に失敗しました: "@ + reason,
            MidiErrorView::InvalidDeviceId { id } => "[MML-E018] 無効なMIDIデバイスIDです: "@
                + decimal_digits(id as nat),
            MidiErrorView::DeviceDisconnected => "[MML-E019] MIDIデバイスが切断されました"@,
            MidiErrorView::InvalidChannel { channel } =>
                "[MML-E024] 無効なMIDIチャンネルです（1-16を指定してください）: "@
                    + decimal_digits(channel as nat),
        }
    }
}

/// The channels that MIDI has: 1 to 16.
pub open spec fn valid_channel(channel: u8) -> bool {
    1 <= channel <= 16
}

impl MidiError {
    pub fn connection_failed(reason: &str) -> (error: Self)
        ensures
            error@ == (MidiErrorView::ConnectionFailed { reason: reason@ }),
    {
        MidiError::ConnectionFailed { reason: String::from_str(reason) }
    }

    pub fn send_failed(reason: &str) -> (error: Self)
        ensures
            error@ == (MidiErrorView::SendFailed { reason: reason@ }),
    {
        MidiError::SendFailed { reason: String::from_str(reason) }
    }

    pub fn invalid_device_id(id: usize) -> (error: Self)
        ensures
            error@ == (MidiErrorView::InvalidDeviceId { id }),
    {
        MidiError::InvalidDeviceId { id }
    }

    pub fn invalid_channel(channel: u8) -> (error: Self)
        ensures
            error@ == (MidiErrorView::InvalidChannel { channel }),
    {
        MidiError::InvalidChannel { channel }
    }

    /// Whether `channel` is one of the channels 1 to 16.
    pub fn is_valid_channel(channel: u8) -> (valid: bool)
        ensures
            valid == valid_channel(channel),
    {
        1 <= channel && channel <= 16
    }

    /// Accepts the channels 1 to 16 and rejects every other.
    pub fn validate_channel(channel: u8) -> (result: Result<(), Self>)
        ensures
            valid_channel(channel) ==> result is Ok,
            !valid_channel(channel) ==> result is Err && result->Err_0@ == (
            MidiErrorView::InvalidChannel { channel }),
    {
        if Self::is_valid_channel(channel) {
            Ok(())
        } else {
            Err(Self::invalid_channel(channel))
        }
    }

    /// The message that describes the error.
    pub fn to_string(&self) -> (text: String)
        ensures
            text@ == self@.message(),
    {
        match self {
            MidiError::NoDeviceFound => String::from_str(
                "[MML-E015] MIDIデバイスが見つかりません",
            ),
            MidiError::ConnectionFailed { reason } => {
                let mut text = String::from_str(
                    "[MML-E016] MIDIデバイスへの接続に失敗しました: ",
                );
                text.append(reason.as_str());
                text
            },
            MidiError::SendFailed { reason } => {
                let mut text = String::from_str(
                    "[MML-E017] MIDIメッセージの送信に失敗しました: ",
                );
                text.append(reason.as_str());
                text
            },
            MidiError::InvalidDeviceId { id } => {
                let mut text = String::from_str("[MML-E018] 無効なMIDIデバイスIDです: ");
                push_decimal(&mut text, *id as u64);
                text
            },
            MidiError::DeviceDisconnected => String::from_str(
                "[MML-E019] MIDIデバイスが切断されました",
            ),
            MidiError::InvalidChannel { channel } => {
                let mut text = String::from_str(
                    "[MML-E024] 無効なMIDIチャンネルです（1-16を指定してください）: ",
                );
                push_decimal(&mut text, *channel as u64);
                text
            },
        }
    }
}

} // verus!
