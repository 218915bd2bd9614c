//! Ties: their tokens, their parsing, and the lengths they add up to.

use sine_mml::mml::{
    parse, tokenize, Accidental, Command, Duration, Fraction, ParseError, Pitch, TiedDuration,
    Token,
};

fn beats(fraction: Fraction) -> f64 {
    fraction.numerator().unwrap() as f64 / fraction.denominator().unwrap() as f64
}

fn seconds(fraction: Option<Fraction>) -> f32 {
    let fraction = fraction.unwrap();
    (fraction.numerator().unwrap() as f64 / fraction.denominator().unwrap() as f64) as f32
}

#[test]
fn test_tokenize_tie_basic() {
    let tokens = tokenize("C4&8").unwrap();
    assert_eq!(tokens.len(), 5); // C, 4, &, 8, Eof
    assert_eq!(tokens[0].token, Token::Pitch(Pitch::C));
    assert_eq!(tokens[1].token, Token::Number(4));
    assert_eq!(tokens[2].token, Token::Tie);
    assert_eq!(tokens[3].token, Token::Number(8));
    assert_eq!(tokens[4].token, Token::Eof);
}

#[test]
fn test_tokenize_tie_position() {
    let tokens = tokenize("C4&8").unwrap();
    assert_eq!(tokens[2].position, 2); // & is at position 2
}

#[test]
fn test_tokenize_tie_with_space() {
    let tokens = tokenize("C4 & 8").unwrap();
    assert_eq!(tokens.len(), 5);
    assert_eq!(tokens[2].token, Token::Tie);
}

#[test]
fn test_tokenize_multiple_ties() {
    let tokens = tokenize("C4&8&16").unwrap();
    assert_eq!(tokens.len(), 7); // C, 4, &, 8, &, 16, Eof
    assert_eq!(tokens[2].token, Token::Tie);
    assert_eq!(tokens[4].token, Token::Tie);
}

#[test]
fn test_tokenize_tie_position_with_whitespace() {
    let tokens = tokenize("C 4 & 8").unwrap();
    assert_eq!(tokens[2].token, Token::Tie);
    assert_eq!(tokens[2].position, 4);
}

#[test]
fn test_tied_duration_basic() {
    let tied = TiedDuration::new(Duration::new(Some(8), 0));
    let duration = seconds(tied.total_duration_in_seconds(120, 4));
    assert!((duration - 0.25).abs() < 0.001);
}

#[test]
fn test_tied_duration_with_dot() {
    let tied = TiedDuration::new(Duration::new(Some(8), 1));
    let duration = seconds(tied.total_duration_in_seconds(120, 4));
    assert!((duration - 0.375).abs() < 0.001);
}

#[test]
fn test_tied_duration_default_length() {
    let tied = TiedDuration::new(Duration::new(None, 0));
    let duration = seconds(tied.total_duration_in_seconds(120, 4));
    assert!((duration - 0.5).abs() < 0.001);
}

#[test]
fn test_tied_duration_multiple_dots() {
    let tied = TiedDuration::new(Duration::new(Some(8), 2));
    let duration = seconds(tied.total_duration_in_seconds(120, 4));
    assert!((duration - 0.4375).abs() < 0.001);
}

#[test]
fn test_tied_duration_different_bpm() {
    let tied = TiedDuration::new(Duration::new(Some(4), 0));
    let duration = seconds(tied.total_duration_in_seconds(60, 4));
    assert!((duration - 1.0).abs() < 0.001);
}

#[test]
fn test_tied_duration_with_ties() {
    let mut tied = TiedDuration::new(Duration::new(Some(4), 0));
    tied.add_tie(Duration::new(Some(8), 0));
    let duration = seconds(tied.total_duration_in_seconds(120, 4));
    assert!((duration - 0.75).abs() < 0.001);
}

#[test]
fn test_parse_note_tie_duration_only() {
    let mml = parse("C4&8").unwrap();
    assert_eq!(mml.commands.len(), 1);
    match &mml.commands[0] {
        Command::Note(n) => {
            assert_eq!(n.pitch, Pitch::C);
            assert_eq!(n.duration.base.value, Some(4));
            assert_eq!(n.duration.tied.len(), 1);
            assert_eq!(n.duration.tied[0].value, Some(8));
            assert_eq!(n.duration.tied[0].dots, 0);
        }
        _ => panic!("Expected Note"),
    }
}

#[test]
fn test_parse_note_tie_followed_by_same_pitch_is_separate() {
    let mml = parse("C4&8 C8").unwrap();
    assert_eq!(mml.commands.len(), 2);
    match &mml.commands[0] {
        Command::Note(n) => {
            assert_eq!(n.pitch, Pitch::C);
            assert_eq!(n.duration.tied.len(), 1);
        }
        _ => panic!("Expected Note"),
    }
}

#[test]
fn test_parse_note_multiple_tie() {
    let mml = parse("C4&8&16").unwrap();
    match &mml.commands[0] {
        Command::Note(n) => {
            assert_eq!(n.duration.tied.len(), 2);
            assert_eq!(n.duration.tied[0].value, Some(8));
            assert_eq!(n.duration.tied[1].value, Some(16));
        }
        _ => panic!("Expected Note"),
    }
}

#[test]
fn test_parse_note_tie_with_dot_after() {
    let mml = parse("C4&8.").unwrap();
    match &mml.commands[0] {
        Command::Note(n) => {
            assert_eq!(n.duration.tied.len(), 1);
            assert_eq!(n.duration.tied[0].value, Some(8));
            assert_eq!(n.duration.tied[0].dots, 1);
        }
        _ => panic!("Expected Note"),
    }
}

#[test]
fn test_parse_note_tie_with_dot_before() {
    let mml = parse("C4.&8").unwrap();
    match &mml.commands[0] {
        Command::Note(n) => {
            assert_eq!(n.duration.base.dots, 1);
            assert_eq!(n.duration.tied.len(), 1);
            assert_eq!(n.duration.tied[0].value, Some(8));
        }
        _ => panic!("Expected Note"),
    }
}

#[test]
fn test_parse_note_tie_different_pitch_error() {
    let err = parse("C4&D").unwrap_err();
    assert!(matches!(err, ParseError::EmptyTieChain { .. }));
}

#[test]
fn test_parse_note_tie_no_following_error() {
    let err = parse("C4&").unwrap_err();
    match err {
        ParseError::EmptyTieChain { position } => {
            assert_eq!(position, 2);
        }
        _ => panic!("Expected EmptyTieChain, got {:?}", err),
    }
}

#[test]
fn test_parse_note_tie_note_and_rest_error() {
    let err = parse("C4&R").unwrap_err();
    assert!(matches!(err, ParseError::EmptyTieChain { .. }));
}

#[test]
fn test_parse_note_tie_followed_by_command_error() {
    let err = parse("C4&T120").unwrap_err();
    assert!(matches!(err, ParseError::EmptyTieChain { .. }));
}

#[test]
fn test_parse_rest_tie_duration_only() {
    let mml = parse("R4&8").unwrap();
    match &mml.commands[0] {
        Command::Rest(r) => {
            assert_eq!(r.duration.base.value, Some(4));
            assert_eq!(r.duration.tied.len(), 1);
            assert_eq!(r.duration.tied[0].value, Some(8));
        }
        _ => panic!("Expected Rest"),
    }
}

#[test]
fn test_parse_rest_tie_multiple() {
    let mml = parse("R4&8&16").unwrap();
    match &mml.commands[0] {
        Command::Rest(r) => {
            assert_eq!(r.duration.tied.len(), 2);
            assert_eq!(r.duration.tied[0].value, Some(8));
            assert_eq!(r.duration.tied[1].value, Some(16));
        }
        _ => panic!("Expected Rest"),
    }
}

#[test]
fn test_parse_rest_tie_rest_and_note_error() {
    let err = parse("R4&C").unwrap_err();
    assert!(matches!(err, ParseError::EmptyTieChain { .. }));
}

#[test]
fn test_parse_rest_tie_no_following_error() {
    let err = parse("R4&").unwrap_err();
    assert!(matches!(err, ParseError::EmptyTieChain { .. }));
}

#[test]
fn test_note_duration_with_tie() {
    let mml = parse("C4&8").unwrap();
    match &mml.commands[0] {
        Command::Note(n) => {
            let duration = seconds(n.duration_in_seconds(120, 4));
            assert!((duration - 0.75).abs() < 0.001);
        }
        _ => panic!("Expected Note"),
    }
}

#[test]
fn test_note_duration_multiple_tie() {
    let mml = parse("C4&8&16").unwrap();
    match &mml.commands[0] {
        Command::Note(n) => {
            let duration = seconds(n.duration_in_seconds(120, 4));
            assert!((duration - 0.875).abs() < 0.001);
        }
        _ => panic!("Expected Note"),
    }
}

#[test]
fn test_note_duration_tie_with_dot() {
    let mml = parse("C4&8.").unwrap();
    match &mml.commands[0] {
        Command::Note(n) => {
            let duration = seconds(n.duration_in_seconds(120, 4));
            assert!((duration - 0.875).abs() < 0.001);
        }
        _ => panic!("Expected Note"),
    }
}

#[test]
fn test_rest_duration_with_tie() {
    let mml = parse("R4&8").unwrap();
    match &mml.commands[0] {
        Command::Rest(r) => {
            let duration = seconds(r.duration_in_seconds(120, 4));
            assert!((duration - 0.75).abs() < 0.001);
        }
        _ => panic!("Expected Rest"),
    }
}

#[test]
fn test_note_duration_no_tie() {
    let mml = parse("C4").unwrap();
    match &mml.commands[0] {
        Command::Note(n) => {
            let duration = seconds(n.duration_in_seconds(120, 4));
            assert!((duration - 0.5).abs() < 0.001);
        }
        _ => panic!("Expected Note"),
    }
}

#[test]
fn test_note_duration_long_tie() {
    let mml = parse("C1&1").unwrap();
    match &mml.commands[0] {
        Command::Note(n) => {
            let duration = seconds(n.duration_in_seconds(120, 4));
            assert!((duration - 4.0).abs() < 0.001);
        }
        _ => panic!("Expected Note"),
    }
}

#[test]
fn test_parse_tie_with_sharp() {
    let mml = parse("C#4&8").unwrap();
    match &mml.commands[0] {
        Command::Note(n) => {
            assert_eq!(n.pitch, Pitch::C);
            assert_eq!(n.accidental, Accidental::Sharp);
            assert_eq!(n.duration.tied.len(), 1);
        }
        _ => panic!("Expected Note"),
    }
}

#[test]
fn test_parse_tie_with_flat() {
    let mml = parse("E-4&8").unwrap();
    match &mml.commands[0] {
        Command::Note(n) => {
            assert_eq!(n.pitch, Pitch::E);
            assert_eq!(n.accidental, Accidental::Flat);
            assert_eq!(n.duration.tied.len(), 1);
        }
        _ => panic!("Expected Note"),
    }
}

#[test]
fn test_parse_multiple_notes_with_ties() {
    let mml = parse("C4&8 D4&16 E2&4").unwrap();
    assert_eq!(mml.commands.len(), 3);

    for cmd in &mml.commands {
        match cmd {
            Command::Note(n) => {
                assert_eq!(n.duration.tied.len(), 1);
            }
            _ => panic!("Expected Note"),
        }
    }
}

#[test]
fn test_parse_tie_with_other_commands() {
    let mml = parse("T120 C4&8 V10 D2").unwrap();
    assert_eq!(mml.commands.len(), 4);
    assert!(matches!(mml.commands[0], Command::Tempo(_)));
    assert!(matches!(mml.commands[1], Command::Note(_)));
    assert!(matches!(mml.commands[2], Command::Volume(_)));
    assert!(matches!(mml.commands[3], Command::Note(_)));
}

#[test]
fn test_parse_tie_inside_loop() {
    let mml = parse("[C4&8 D2]2").unwrap();
    assert_eq!(mml.commands.len(), 4);
    match &mml.commands[0] {
        Command::Note(n) => {
            assert_eq!(n.duration.tied.len(), 1);
        }
        _ => panic!("Expected Note"),
    }
}

#[test]
fn test_parse_tie_dot_only() {
    let mml = parse("C4&.").unwrap();
    match &mml.commands[0] {
        Command::Note(n) => {
            assert_eq!(n.duration.tied.len(), 1);
            assert_eq!(n.duration.tied[0].value, None);
            assert_eq!(n.duration.tied[0].dots, 1);
        }
        _ => panic!("Expected Note"),
    }
}

#[test]
fn test_edge_case_very_long_tie() {
    let mml = parse("C1&1&1&1").unwrap();
    match &mml.commands[0] {
        Command::Note(n) => {
            let duration = seconds(n.duration_in_seconds(60, 4));
            assert!((duration - 16.0).abs() < 0.01);
        }
        _ => panic!("Expected Note"),
    }
}

#[test]
fn test_edge_case_very_short_tie() {
    let mml = parse("C64&64").unwrap();
    match &mml.commands[0] {
        Command::Note(n) => {
            let duration = seconds(n.duration_in_seconds(300, 4));
            assert!((duration - 0.025).abs() < 0.001);
        }
        _ => panic!("Expected Note"),
    }
}

#[test]
fn test_regression_notes_without_tie() {
    let mml = parse("CDEFGAB").unwrap();
    assert_eq!(mml.commands.len(), 7);

    for cmd in &mml.commands {
        match cmd {
            Command::Note(n) => {
                assert!(!n.duration.has_ties());
            }
            _ => panic!("Expected Note"),
        }
    }
}

#[test]
fn test_regression_dotted_note() {
    let mml = parse("C4.").unwrap();
    match &mml.commands[0] {
        Command::Note(n) => {
            assert_eq!(n.duration.base.value, Some(4));
            assert_eq!(n.duration.base.dots, 1);
            assert!(!n.duration.has_ties());
        }
        _ => panic!("Expected Note"),
    }
}

#[test]
fn test_regression_loop_syntax() {
    let mml = parse("[CDEF]2").unwrap();
    assert_eq!(mml.commands.len(), 8);
}

#[test]
fn test_regression_relative_volume() {
    let mml = parse("V10 C V+2 D").unwrap();
    assert_eq!(mml.commands.len(), 4);

    assert!(matches!(mml.commands[0], Command::Volume(_)));
    assert!(matches!(mml.commands[1], Command::Note(_)));
    assert!(matches!(mml.commands[2], Command::Volume(_)));
    assert!(matches!(mml.commands[3], Command::Note(_)));
}

#[test]
fn test_performance_tie_parsing() {
    let mut input = String::new();
    for _ in 0..100 {
        input.push_str("C4&8 ");
    }

    let start = std::time::Instant::now();
    let _ = parse(&input).unwrap();
    let elapsed = start.elapsed();

    assert!(
        elapsed.as_millis() < 5,
        "Parsing took {}ms, expected <5ms",
        elapsed.as_millis()
    );
}

#[test]
fn test_performance_tie_duration_calculation() {
    let mut tied = TiedDuration::new(Duration::new(Some(4), 0));
    for _ in 0..100 {
        tied.add_tie(Duration::new(Some(8), 0));
    }

    let start = std::time::Instant::now();
    let _ = seconds(tied.total_duration_in_seconds(120, 4));
    let elapsed = start.elapsed();

    assert!(
        elapsed.as_micros() < 1000,
        "Calculation took {}μs, expected <1000μs",
        elapsed.as_micros()
    );
}

#[test]
fn test_tied_duration_new() {
    let duration = TiedDuration::new(Duration::new(Some(4), 0));
    assert_eq!(duration.base.value, Some(4));
    assert_eq!(duration.base.dots, 0);
    assert!(duration.tied.is_empty());
}

#[test]
fn test_tied_duration_add_tie() {
    let mut duration = TiedDuration::new(Duration::new(Some(4), 0));
    duration.add_tie(Duration::new(Some(8), 0));
    assert_eq!(duration.tied.len(), 1);
    assert_eq!(duration.tied[0].value, Some(8));
}

#[test]
fn test_tied_duration_has_ties() {
    let mut duration = TiedDuration::new(Duration::new(Some(4), 0));
    assert!(!duration.has_ties());
    duration.add_tie(Duration::new(Some(8), 0));
    assert!(duration.has_ties());
}

#[test]
fn test_tied_duration_total_beats_simple() {
    let mut duration = TiedDuration::new(Duration::new(Some(4), 0));
    duration.add_tie(Duration::new(Some(8), 0));
    let total = beats(duration.total_beats(4));
    assert!((total - 1.5).abs() < 0.001);
}

#[test]
fn test_tied_duration_total_beats_multiple() {
    let mut duration = TiedDuration::new(Duration::new(Some(4), 0));
    duration.add_tie(Duration::new(Some(8), 0));
    duration.add_tie(Duration::new(Some(16), 0));
    let total = beats(duration.total_beats(4));
    assert!((total - 1.75).abs() < 0.001);
}

#[test]
fn test_tied_duration_total_beats_dotted() {
    let mut duration = TiedDuration::new(Duration::new(Some(4), 1));
    duration.add_tie(Duration::new(Some(8), 0));
    let total = beats(duration.total_beats(4));
    assert!((total - 2.0).abs() < 0.001);
}

#[test]
fn test_tied_duration_total_beats_no_ties() {
    let duration = TiedDuration::new(Duration::new(Some(4), 0));
    let total = beats(duration.total_beats(4));
    assert!((total - 1.0).abs() < 0.001);
}

#[test]
fn test_tied_duration_total_beats_whole_note() {
    let mut duration = TiedDuration::new(Duration::new(Some(1), 0));
    duration.add_tie(Duration::new(Some(2), 0));
    let total = beats(duration.total_beats(4));
    assert!((total - 6.0).abs() < 0.001);
}

#[test]
fn test_duration_to_beats_quarter() {
    let duration = Duration::new(Some(4), 0);
    let beats = beats(duration.to_beats(4));
    assert!((beats - 1.0).abs() < 0.001);
}

#[test]
fn test_duration_to_beats_half() {
    let duration = Duration::new(Some(2), 0);
    let beats = beats(duration.to_beats(4));
    assert!((beats - 2.0).abs() < 0.001);
}

#[test]
fn test_duration_to_beats_eighth() {
    let duration = Duration::new(Some(8), 0);
    let beats = beats(duration.to_beats(4));
    assert!((beats - 0.5).abs() < 0.001);
}

#[test]
fn test_duration_to_beats_sixteenth() {
    let duration = Duration::new(Some(16), 0);
    let beats = beats(duration.to_beats(4));
    assert!((beats - 0.25).abs() < 0.001);
}

#[test]
fn test_duration_to_beats_dotted_quarter() {
    let duration = Duration::new(Some(4), 1);
    let beats = beats(duration.to_beats(4));
    assert!((beats - 1.5).abs() < 0.001);
}

#[test]
fn test_duration_to_beats_double_dotted() {
    let duration = Duration::new(Some(4), 2);
    let beats = beats(duration.to_beats(4));
    assert!((beats - 1.75).abs() < 0.001);
}

#[test]
fn test_duration_to_beats_default_length() {
    let duration = Duration::new(None, 0);
    let beats = beats(duration.to_beats(8)); // default=8分音符
    assert!((beats - 0.5).abs() < 0.001);
}

#[test]
fn test_note_total_beats_quarter() {
    let mml = parse("C4").unwrap();
    match &mml.commands[0] {
        Command::Note(n) => {
            let beats = beats(n.total_beats(4));
            assert!((beats - 1.0).abs() < 0.001);
        }
        _ => panic!("Expected Note"),
    }
}

#[test]
fn test_note_total_beats_with_tie() {
    let mml = parse("C4&8").unwrap();
    match &mml.commands[0] {
        Command::Note(n) => {
            let beats = beats(n.total_beats(4));
            assert!((beats - 1.5).abs() < 0.001);
        }
        _ => panic!("Expected Note"),
    }
}

#[test]
fn test_note_total_beats_dotted() {
    let mml = parse("C4.").unwrap();
    match &mml.commands[0] {
        Command::Note(n) => {
            let beats = beats(n.total_beats(4));
            assert!((beats - 1.5).abs() < 0.001);
        }
        _ => panic!("Expected Note"),
    }
}

#[test]
fn test_rest_total_beats_quarter() {
    let mml = parse("R4").unwrap();
    match &mml.commands[0] {
        Command::Rest(r) => {
            let beats = beats(r.total_beats(4));
            assert!((beats - 1.0).abs() < 0.001);
        }
        _ => panic!("Expected Rest"),
    }
}

#[test]
fn test_rest_total_beats_with_tie() {
    let mml = parse("R4&8").unwrap();
    match &mml.commands[0] {
        Command::Rest(r) => {
            let beats = beats(r.total_beats(4));
            assert!((beats - 1.5).abs() < 0.001);
        }
        _ => panic!("Expected Rest"),
    }
}
