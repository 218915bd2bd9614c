//! The offsets at which MIDI events are due, and notation read from files.

use sine_mml::midi::{schedule, Action, Event, MidiError, Player};
use sine_mml::mml::{extract_mml, parse, Fraction};
use sine_mml::playback::{arrange, Segment};

fn events_of(text: &str) -> Vec<Event> {
    let mml = parse(text).unwrap();
    schedule(&arrange(&mml.commands).unwrap()).unwrap()
}

#[test]
fn events_begin_where_the_one_before_ends() {
    let events = events_of("T120 L4 C D R E2 F8.");
    let due: Vec<(Option<u8>, u64, u64)> = events.iter().map(|e| (e.note, e.start, e.end)).collect();
    assert_eq!(
        due,
        vec![
            (Some(60), 0, 500_000_000),
            (Some(62), 500_000_000, 1_000_000_000),
            (None, 1_000_000_000, 1_500_000_000),
            (Some(64), 1_500_000_000, 2_500_000_000),
            (Some(65), 2_500_000_000, 2_875_000_000),
        ]
    );
    assert!(events.iter().all(|e| e.note.is_none() || e.velocity == 84));
}

#[test]
fn last_event_ends_with_the_piece() {
    let events = events_of("T90 L3 [C D E]33");
    assert_eq!(events.len(), 99);
    let one = (240.0f64 / 270.0 * 1e9).round() as u64;
    for (k, event) in events.iter().enumerate() {
        assert_eq!(event.start, one * k as u64);
        assert_eq!(event.end, one * (k as u64 + 1));
    }
    assert_eq!(events.last().unwrap().end, 99 * one);
}

#[test]
fn events_of_a_tuplet_in_a_tuplet_share_its_slot() {
    let events = events_of("T120 {{CDE}2 F}2:4");
    let due: Vec<(Option<u8>, u64, u64)> = events.iter().map(|e| (e.note, e.start, e.end)).collect();
    assert_eq!(
        due,
        vec![
            (Some(60), 0, 83_333_333),
            (Some(62), 83_333_333, 166_666_666),
            (Some(64), 166_666_666, 250_000_000),
            (Some(65), 250_000_000, 500_000_000),
        ]
    );
}

#[test]
fn segments_without_length_give_events_without_length() {
    let segments = vec![
        Segment::Tone { note: 60, volume: 15, seconds: Fraction::new(0, 1) },
        Segment::Stretched {
            segments: vec![Segment::Silence { seconds: Fraction::new(0, 5) }],
            seconds: Fraction::new(1, 1),
        },
        Segment::Stretched { segments: vec![], seconds: Fraction::new(1, 1) },
    ];
    assert_eq!(
        schedule(&segments),
        Some(vec![Event { note: Some(60), velocity: 127, start: 0, end: 0 }])
    );
    assert_eq!(schedule(&vec![]), Some(vec![]));
}

#[test]
fn lengths_that_do_not_fit_give_no_schedule() {
    let long = Segment::Silence { seconds: Fraction::new(10_000_000_000, 1) };
    assert!(schedule(&vec![long.clone()]).is_some());
    assert_eq!(schedule(&vec![long.clone(), long]), None);
    let unheld = Segment::Silence { seconds: Fraction::new(1, 0) };
    assert_eq!(schedule(&vec![unheld]), None);
}

#[test]
fn extract_mml_drops_comments_and_blank_lines() {
    assert_eq!(extract_mml("# Song\nT120 L4\n\n  CDE  \n#end\nFGA\n"), "T120 L4 CDE FGA");
    assert_eq!(extract_mml("CDE"), "CDE");
    assert_eq!(extract_mml("CDE\r\nFGA\r\n"), "CDE FGA");
    assert_eq!(extract_mml("  # indented comment\n\t\nC # not a comment"), "C # not a comment");
    assert_eq!(extract_mml("\u{3000}C D\u{a0}\n\nE"), "C D E");
}

#[test]
fn extract_mml_of_nothing_is_empty() {
    assert_eq!(extract_mml(""), "");
    assert_eq!(extract_mml("\n\n\n"), "");
    assert_eq!(extract_mml("# only\n   \n#comments"), "");
    assert_eq!(extract_mml(" \t "), "");
}

fn run(text: &str, channel: u8, interrupt_at: Option<usize>) -> Vec<Action> {
    let mut player = Player::new(events_of(text), channel).unwrap();
    let mut actions = Vec::new();
    loop {
        let interrupted = interrupt_at.is_some_and(|at| actions.len() >= at);
        let action = player.step(interrupted);
        actions.push(action);
        if action == Action::Finished {
            assert!(player.is_done());
            assert_eq!(player.step(interrupted), Action::Finished);
            return actions;
        }
        assert!(actions.len() < 1000);
    }
}

#[test]
fn player_sends_every_note_and_cleans_up() {
    assert_eq!(
        run("T120 C R D", 1, None),
        vec![
            Action::WaitUntil { nanos: 0 },
            Action::Send { bytes: [0x90, 60, 84] },
            Action::WaitUntil { nanos: 500_000_000 },
            Action::Send { bytes: [0x80, 60, 0] },
            Action::WaitUntil { nanos: 1_000_000_000 },
            Action::WaitUntil { nanos: 1_000_000_000 },
            Action::Send { bytes: [0x90, 62, 84] },
            Action::WaitUntil { nanos: 1_500_000_000 },
            Action::Send { bytes: [0x80, 62, 0] },
            Action::Send { bytes: [0xb0, 123, 0] },
            Action::Finished,
        ]
    );
}

#[test]
fn player_on_channel_16_without_notes() {
    assert_eq!(
        run("T120 O5 V3", 16, None),
        vec![Action::Send { bytes: [0xbf, 123, 0] }, Action::Finished]
    );
}

#[test]
fn player_stops_before_the_next_event_when_interrupted() {
    assert_eq!(
        run("T120 C D E", 2, Some(0)),
        vec![Action::Send { bytes: [0xb1, 123, 0] }, Action::Finished]
    );
    assert_eq!(
        run("T120 C D E", 2, Some(2)),
        vec![
            Action::WaitUntil { nanos: 0 },
            Action::Send { bytes: [0x91, 60, 84] },
            Action::WaitUntil { nanos: 500_000_000 },
            Action::Send { bytes: [0x81, 60, 0] },
            Action::Send { bytes: [0xb1, 123, 0] },
            Action::Finished,
        ]
    );
}

#[test]
fn player_refuses_channels_outside_1_to_16() {
    for channel in [0u8, 17, 255] {
        assert!(matches!(
            Player::new(vec![], channel),
            Err(MidiError::InvalidChannel { channel: c }) if c == channel
        ));
    }
    assert!(Player::new(vec![], 1).is_ok());
    assert!(Player::new(vec![], 16).is_ok());
}

#[test]
fn test_read_mml_file_success() {
    assert_eq!(extract_mml("CDEFGAB\n"), "CDEFGAB");
}

#[test]
fn test_read_mml_file_with_comments() {
    assert_eq!(extract_mml("# Comment\nCDEFGAB\n\n# Another comment\n>C\n"), "CDEFGAB >C");
}

#[test]
fn test_read_mml_file_trim_whitespace() {
    assert_eq!(extract_mml("  CDEFGAB  \n  >C  \n"), "CDEFGAB >C");
}

#[test]
fn test_read_mml_file_with_indented_comment() {
    assert_eq!(extract_mml("  # Indented comment\nCDEFGAB\n"), "CDEFGAB");
}

#[test]
fn test_read_mml_file_complex_content() {
    assert_eq!(
        extract_mml("# イントロ\nT120 L8 O5\n\n# Aメロ\nCDEFGAB\n"),
        "T120 L8 O5 CDEFGAB"
    );
}

#[test]
fn test_read_mml_file_single_line() {
    assert_eq!(extract_mml("C\n"), "C");
}

#[test]
fn test_read_mml_file_empty() {
    assert!(extract_mml("# Only comments\n\n").is_empty());
}

#[test]
fn test_read_mml_file_only_whitespace_lines() {
    assert!(extract_mml("   \n\n\t\n").is_empty());
}

#[test]
fn test_read_mml_file_hash_in_middle_of_line() {
    assert_eq!(extract_mml("C# D E\n"), "C# D E");
}

#[test]
fn test_read_mml_file_only_hash() {
    assert_eq!(extract_mml("#\nCDE\n"), "CDE");
}
