//! What holds of the library in general, on chosen values.

use sine_mml::audio::synthesizer::{click_interval_samples, click_positions};
use sine_mml::audio::{Synthesizer, WaveformType};
use sine_mml::midi::message::mml_volume_to_velocity;
use sine_mml::midi::player::calculate_total_duration_ms;
use sine_mml::mml::duration::dot_multiplier_of;
use sine_mml::mml::parser::{expand_loop, parse, Parser};
use sine_mml::mml::{
    tokenize, Accidental, Command, Duration, Fraction, Note, ParseError, Pitch, TiedDuration,
    Token,
};
use sine_mml::playback::{arrange, Segment};

fn note(pitch: Pitch) -> Command {
    Command::Note(Note {
        pitch,
        accidental: Accidental::Natural,
        duration: TiedDuration::new(Duration::new(None, 0)),
    })
}

fn same(fraction: &Fraction, num: u128, den: u128) -> bool {
    let n = fraction.numerator().unwrap() as u128;
    let d = fraction.denominator().unwrap() as u128;
    d != 0 && n * den == num * d
}

fn parts(fraction: &Fraction) -> (u64, u64) {
    (fraction.numerator().unwrap(), fraction.denominator().unwrap())
}

#[test]
fn expansion_without_escape_has_body_times_count_commands() {
    let body = vec![note(Pitch::C), note(Pitch::D), note(Pitch::E)];
    for count in 1..=99usize {
        let expanded = expand_loop(&body, None, count).unwrap();
        assert_eq!(expanded.len(), body.len() * count);
        for (i, command) in expanded.iter().enumerate() {
            assert_eq!(command, &body[i % body.len()]);
        }
    }
}

#[test]
fn expansion_with_escape_stops_the_last_round_early() {
    let body = vec![note(Pitch::C), note(Pitch::D), note(Pitch::E), note(Pitch::F)];
    for k in 0..body.len() {
        for count in 1..=5usize {
            let expanded = expand_loop(&body, Some(k), count).unwrap();
            assert_eq!(expanded.len(), body.len() * (count - 1) + k);
        }
    }
    let expanded = expand_loop(&body, Some(1), 2).unwrap();
    assert_eq!(
        expanded,
        vec![note(Pitch::C), note(Pitch::D), note(Pitch::E), note(Pitch::F), note(Pitch::C)]
    );
}

#[test]
fn expansion_of_no_rounds_is_empty() {
    let body = vec![note(Pitch::C)];
    assert_eq!(expand_loop(&body, None, 0).unwrap().len(), 0);
    assert_eq!(expand_loop(&body, Some(7), 2).unwrap().len(), 2);
}

#[test]
fn expansion_expands_loops_in_the_body() {
    let inner = Command::Loop {
        commands: vec![note(Pitch::F), note(Pitch::G)],
        escape_index: Some(1),
        repeat_count: 2,
    };
    let body = vec![note(Pitch::C), inner];
    let expanded = expand_loop(&body, None, 2).unwrap();
    let round = vec![note(Pitch::C), note(Pitch::F), note(Pitch::G), note(Pitch::F)];
    assert_eq!(expanded, [round.clone(), round].concat());
}

#[test]
fn expansion_stops_at_the_limit() {
    let body = vec![note(Pitch::C); 100];
    assert_eq!(expand_loop(&body, None, 100).unwrap().len(), 10_000);
    let body = vec![note(Pitch::C); 101];
    match expand_loop(&body, None, 100).unwrap_err() {
        ParseError::LoopExpandedTooLarge { max_commands, actual } => {
            assert_eq!(max_commands, 10_000);
            assert_eq!(actual, 10_001);
        }
        other => panic!("unexpected error: {other:?}"),
    }
    assert!(expand_loop(&body, None, usize::MAX).is_err());
}

#[test]
fn dot_multipliers_are_1_3_2_7_4_15_8() {
    assert_eq!(parts(&dot_multiplier_of(0)), (1, 1));
    assert_eq!(parts(&dot_multiplier_of(1)), (3, 2));
    assert_eq!(parts(&dot_multiplier_of(2)), (7, 4));
    assert_eq!(parts(&dot_multiplier_of(3)), (15, 8));
    assert_eq!(parts(&dot_multiplier_of(4)), (31, 16));
    assert_eq!(parts(&dot_multiplier_of(62)), ((1 << 63) - 1, 1 << 62));
    assert_eq!(dot_multiplier_of(63).numerator(), Some(u64::MAX));
    assert_eq!(dot_multiplier_of(63).denominator(), Some(1 << 63));
    assert_eq!(dot_multiplier_of(64).numerator(), None);
    assert_eq!(dot_multiplier_of(64).denominator(), None);
}

#[test]
fn dot_multipliers_of_many_dots_come_close_to_two() {
    for dots in [64u8, 100, 126, 127, 128, 200, 255] {
        let multiplier = dot_multiplier_of(dots);
        assert_eq!(multiplier.rounded_times(1_000_000_000), Some(2_000_000_000), "{dots}");
        assert_eq!(multiplier.rounded_times(1), Some(2));
        assert_eq!(multiplier.over(3).rounded_times(1), Some(1));
        assert_eq!(multiplier.over(4).rounded_times(1), Some(0));
    }
    assert_eq!(dot_multiplier_of(30).rounded_times(1 << 30), Some((1 << 31) - 1));
    assert_eq!(dot_multiplier_of(31).rounded_times(1 << 30), Some(1 << 31));
}

#[test]
fn quarter_note_lasts_half_a_second_at_120() {
    let quarter = Duration::new(Some(4), 0);
    assert!(same(&quarter.duration_in_seconds(120, 4).unwrap(), 1, 2));
    assert!(same(&quarter.duration_in_seconds(60, 4).unwrap(), 1, 1));
    assert_eq!(parts(&quarter.duration_in_seconds(120, 4).unwrap()), (240, 480));
    assert!(same(&quarter.to_beats(8), 1, 1));
    assert!(same(&Duration::new(None, 3).to_beats(8), 15, 16));
}

#[test]
fn zero_length_lasts_no_time() {
    assert!(same(&Duration::new(Some(0), 2).to_beats(4), 0, 1));
    assert!(same(&Duration::new(None, 0).to_beats(0), 0, 1));
    assert!(same(&Duration::new(None, 0).duration_in_seconds(120, 0).unwrap(), 0, 1));
}

#[test]
fn every_note_value_has_a_length() {
    assert_eq!(Duration::new(Some(4), 0).duration_in_seconds(0, 4), None);
    for dots in [126u8, 200, 255] {
        let beats = Duration::new(Some(4), dots).to_beats(4);
        assert_eq!(beats.rounded_times(1_000_000), Some(2_000_000));
        let seconds = Duration::new(Some(4), dots).duration_in_seconds(120, 4).unwrap();
        assert_eq!(seconds.rounded_times(1_000_000_000), Some(1_000_000_000));
        let seconds = Duration::new(None, dots).duration_in_seconds(300, 64).unwrap();
        assert_eq!(seconds.rounded_times(1_000_000_000), Some(25_000_000));
    }
    let mut tied = TiedDuration::new(Duration::new(Some(3), 60));
    tied.add_tie(Duration::new(Some(5), 60));
    tied.add_tie(Duration::new(Some(7), 60));
    // 8/3 + 8/5 + 8/7 beats, less a little for the sixty dots
    assert_eq!(tied.total_beats(4).rounded_times(105), Some(568));
    assert_eq!(
        tied.total_duration_in_seconds(120, 4).unwrap().rounded_times(210),
        Some(568)
    );
}

#[test]
fn long_chains_of_ties_add_up() {
    let mut sixty_fourths = TiedDuration::new(Duration::new(None, 0));
    for _ in 0..8 {
        sixty_fourths.add_tie(Duration::new(Some(64), 0));
    }
    let total = sixty_fourths.total_duration_in_seconds(300, 64).unwrap();
    assert_eq!(total.rounded_times(1_000_000_000), Some(112_500_000));
    assert_eq!(total.rounded_times(10_000), Some(1125));

    let mut quarters = TiedDuration::new(Duration::new(Some(4), 0));
    for _ in 0..199 {
        quarters.add_tie(Duration::new(Some(4), 0));
    }
    assert_eq!(quarters.total_beats(4).rounded_times(1), Some(200));
    let seconds = quarters.total_duration_in_seconds(120, 4).unwrap();
    assert_eq!(seconds.rounded_times(1_000_000_000), Some(100_000_000_000));
    assert_eq!(seconds.rounded_times(44100), Some(4_410_000));

    let text = format!("T300 L64 C{}", "&64".repeat(8));
    let mml = parse(&text).unwrap();
    assert_eq!(calculate_total_duration_ms(&mml.commands), Some(112));
    let text = format!("C4{}", "&4.".repeat(40));
    let mml = parse(&text).unwrap();
    assert_eq!(calculate_total_duration_ms(&mml.commands), Some(500 + 40 * 750));
}

#[test]
fn tokenizing_twice_gives_the_same() {
    for text in ["T120 O4 [C4&8 D:E]3 {CDE}3:2 V+2 R.", "C X", "99999999", "", " \t\n"] {
        assert_eq!(tokenize(text), tokenize(text));
    }
}

#[test]
fn tokenizer_counts_characters_not_bytes() {
    let tokens = tokenize("C\u{3000}D\u{a0}E").unwrap();
    assert_eq!(tokens.len(), 4);
    assert_eq!(tokens[1].position, 2);
    assert_eq!(tokens[2].position, 4);
    assert_eq!(tokens[3].token, Token::Eof);
    assert_eq!(tokens[3].position, 5);
    match tokenize("CD\u{3042}").unwrap_err() {
        ParseError::UnexpectedCharacter { character, position } => {
            assert_eq!(character, '\u{3042}');
            assert_eq!(position, 2);
        }
        other => panic!("unexpected error: {other:?}"),
    }
}

#[test]
fn tokenizer_reads_numbers_up_to_65535() {
    assert_eq!(tokenize("65535").unwrap()[0].token, Token::Number(65535));
    assert_eq!(tokenize("0065535").unwrap()[0].token, Token::Number(65535));
    assert_eq!(tokenize("C 12 D").unwrap()[2].position, 5);
    for (text, position) in [("65536", 0), ("C4 100000", 3), ("18446744073709551616", 0)] {
        assert_eq!(
            tokenize(text).unwrap_err(),
            ParseError::InvalidNumber { value: 0, range: (0, u16::MAX), position }
        );
    }
}

#[test]
fn five_loops_deep_is_allowed_and_six_is_not() {
    let mml = parse("[[[[[CDE]2]2]2]2]2").unwrap();
    assert_eq!(mml.commands.len(), 32 * 3);
    match parse("[[[[[[CDE]2]2]2]2]2]2").unwrap_err() {
        ParseError::LoopNestTooDeep { max_depth, position } => {
            assert_eq!(max_depth, 5);
            assert_eq!(position, 5);
        }
        other => panic!("unexpected error: {other:?}"),
    }
}

#[test]
fn expansion_over_the_limit_fails() {
    match parse("[[[C]50]50]5").unwrap_err() {
        ParseError::LoopExpandedTooLarge { max_commands, actual } => {
            assert_eq!(max_commands, 10_000);
            assert_eq!(actual, 10_001);
        }
        other => panic!("unexpected error: {other:?}"),
    }
    assert_eq!(parse("[[[C]10]10]99").unwrap().commands.len(), 9_900);
    assert_eq!(parse("[[C]99]99 [[D]99]99").unwrap().commands.len(), 2 * 99 * 99);
}

#[test]
fn tie_chain_adds_up() {
    let mml = parse("C4&8").unwrap();
    match &mml.commands[0] {
        Command::Note(n) => {
            assert!(same(&n.duration_in_seconds(120, 4).unwrap(), 3, 4));
            assert!(same(&n.total_beats(4), 3, 2));
        }
        _ => panic!("Expected Note"),
    }
    assert_eq!(parse("C4&").unwrap_err(), ParseError::EmptyTieChain { position: 2 });
    assert_eq!(parse("C4&C4").unwrap_err(), ParseError::EmptyTieChain { position: 2 });
    assert_eq!(
        parse("C4&65").unwrap_err(),
        ParseError::InvalidNumber { value: 65, range: (1, 64), position: 3 }
    );
}

#[test]
fn triplet_fills_one_beat() {
    let mml = parse("{CDE}3").unwrap();
    let segments = arrange(&mml.commands).unwrap();
    assert_eq!(segments.len(), 3);
    let mut num: u128 = 0;
    for (segment, note) in segments.iter().zip([60u8, 62, 64]) {
        match segment {
            Segment::Tone { note: n, volume, seconds } => {
                assert_eq!(*n, note);
                assert_eq!(*volume, 10);
                assert!(same(seconds, 1, 6));
                assert_eq!(seconds.denominator(), Some(120 * 4 * 3));
                num += seconds.numerator().unwrap() as u128;
            }
            other => panic!("unexpected segment: {other:?}"),
        }
    }
    assert_eq!(num * 2, 120 * 4 * 3);
}

#[test]
fn tuplet_notes_with_a_length_of_their_own() {
    let mml = parse("T60 {C2 D R4&8 E}4:1").unwrap();
    let segments = arrange(&mml.commands).unwrap();
    assert_eq!(segments.len(), 4);
    let lengths: Vec<Fraction> = segments
        .iter()
        .map(|s| match s {
            Segment::Tone { seconds, .. } | Segment::Silence { seconds } => seconds.clone(),
            other => panic!("unexpected segment: {other:?}"),
        })
        .collect();
    assert!(same(&lengths[0], 2, 4));
    assert!(same(&lengths[1], 4, 4));
    assert!(same(&lengths[2], 3, 8));
    assert!(same(&lengths[3], 1, 1));
    assert!(matches!(segments[2], Segment::Silence { .. }));
}

#[test]
fn tuplet_in_a_tuplet_is_stretched_into_one_slot() {
    let mml = parse("{{CD}2 E}3").unwrap();
    let segments = arrange(&mml.commands).unwrap();
    assert_eq!(segments.len(), 2);
    match &segments[0] {
        Segment::Stretched { segments: inner, seconds } => {
            assert!(same(seconds, 1, 6));
            assert_eq!(inner.len(), 2);
            for segment in inner {
                match segment {
                    Segment::Tone { seconds, .. } => assert!(same(seconds, 1, 4)),
                    other => panic!("unexpected segment: {other:?}"),
                }
            }
        }
        other => panic!("unexpected segment: {other:?}"),
    }
    assert!(matches!(segments[1], Segment::Tone { note: 64, .. }));
}

#[test]
fn loop_in_a_tuplet_plays_its_rounds_in_slots() {
    let mml = parse("{[C:D]2 E}4").unwrap();
    assert_eq!(mml.commands.len(), 1);
    let segments = arrange(&mml.commands).unwrap();
    let notes: Vec<u8> = segments
        .iter()
        .map(|s| match s {
            Segment::Tone { note, seconds, .. } => {
                assert!(same(seconds, 1, 8));
                *note
            }
            other => panic!("unexpected segment: {other:?}"),
        })
        .collect();
    assert_eq!(notes, vec![60, 62, 60, 64]);
}

#[test]
fn walk_keeps_octave_tempo_length_and_volume() {
    let mml = parse("O5 C >D <<E T60 L8 F V3 G V+20 A V-20 B O1 <C O8 >B").unwrap();
    let segments = arrange(&mml.commands).unwrap();
    let seen: Vec<(u8, u8, u64, u64)> = segments
        .iter()
        .map(|s| match s {
            Segment::Tone { note, volume, seconds } => {
                (*note, *volume, parts(seconds).0, parts(seconds).1)
            }
            other => panic!("unexpected segment: {other:?}"),
        })
        .collect();
    assert_eq!(
        seen,
        vec![
            (72, 10, 240, 480),
            (86, 10, 240, 480),
            (64, 10, 240, 480),
            (65, 10, 240, 480),
            (67, 3, 240, 480),
            (69, 15, 240, 480),
            (71, 0, 240, 480),
            (24, 0, 240, 480),
            (119, 0, 240, 480),
        ]
    );
}

#[test]
fn walk_of_an_unexpanded_loop_is_that_of_its_expansion() {
    let body = vec![note(Pitch::C), Command::OctaveUp, note(Pitch::D)];
    let looped = vec![Command::Loop { commands: body.clone(), escape_index: Some(2), repeat_count: 3 }];
    let expanded = expand_loop(&body, Some(2), 3).unwrap();
    assert_eq!(arrange(&looped), arrange(&expanded));
    assert_eq!(arrange(&looped).unwrap().len(), 5);
}

#[test]
fn walk_has_a_length_for_every_note_but_at_tempo_zero() {
    let long = Command::Note(Note {
        pitch: Pitch::C,
        accidental: Accidental::Natural,
        duration: TiedDuration::new(Duration::new(Some(4), 200)),
    });
    let segments = arrange(&[note(Pitch::C), long.clone()]).unwrap();
    assert_eq!(segments.len(), 2);
    assert_eq!(calculate_total_duration_ms(&[note(Pitch::C), long]), Some(1500));
    assert_eq!(arrange(&[]), Some(vec![]));

    let stopped = [Command::Tempo(sine_mml::mml::Tempo { value: 0 }), note(Pitch::C)];
    assert_eq!(arrange(&stopped), None);
    assert_eq!(arrange(&stopped[..1]), Some(vec![]));
    let countless =
        [Command::Tuplet { commands: vec![note(Pitch::C)], count: 0, base_duration: None }];
    assert_eq!(arrange(&countless), None);
}

#[test]
fn total_duration_counts_a_tuplet_by_its_slots() {
    let ast = parse("T120 {CDE}4").unwrap();
    assert_eq!(calculate_total_duration_ms(&ast.commands), Some(375));
    let ast = parse("T120 {CDE}3").unwrap();
    assert_eq!(calculate_total_duration_ms(&ast.commands), Some(500));
    let ast = parse("T120 {{CD}2 E}3").unwrap();
    assert_eq!(calculate_total_duration_ms(&ast.commands), Some(333));
    let ast = parse("T120 L4 CDEF").unwrap();
    assert_eq!(calculate_total_duration_ms(&ast.commands), Some(2000));
}

#[test]
fn volume_maps_to_velocity() {
    let table = [0u8, 8, 16, 25, 33, 42, 50, 59, 67, 76, 84, 93, 101, 110, 118, 127];
    for (volume, velocity) in table.iter().enumerate() {
        assert_eq!(mml_volume_to_velocity(volume as u8), *velocity);
    }
    assert_eq!(mml_volume_to_velocity(16), 135);
    assert_eq!(mml_volume_to_velocity(255), (255u16 * 127 / 15 % 256) as u8);
}

#[test]
fn parser_counts_dots_up_to_255() {
    let text = format!("C4{}", ".".repeat(300));
    let mml = parse(&text).unwrap();
    match &mml.commands[0] {
        Command::Note(n) => assert_eq!(n.duration.base.dots, 255),
        _ => panic!("Expected Note"),
    }
}

#[test]
fn parser_closes_what_it_opened_after_an_error() {
    let tokens = tokenize("[[C4&]2]2 [[[[[D]2]2]2]2]2").unwrap();
    let mut parser = Parser::new(tokens);
    assert!(matches!(parser.parse().unwrap_err(), ParseError::EmptyTieChain { position: 4 }));
    while parser.peek().token != Token::LoopStart {
        parser.advance();
    }
    parser.advance();
    parser.advance();
    parser.advance();
    parser.advance();
    assert_eq!(parser.parse().unwrap().commands.len(), 32);
}

#[test]
fn every_parse_error_has_an_input() {
    assert!(matches!(parse("C}").unwrap_err(), ParseError::UnexpectedToken { found: Token::TupletEnd, position: 1, .. }));
    assert!(matches!(parse("O").unwrap_err(), ParseError::UnexpectedToken { found: Token::Eof, position: 1, .. }));
    assert!(matches!(parse("T29").unwrap_err(), ParseError::InvalidNumber { value: 29, range: (30, 300), position: 1 }));
    assert!(matches!(parse("L65").unwrap_err(), ParseError::InvalidNumber { value: 65, range: (1, 64), position: 1 }));
    assert!(matches!(parse("C?").unwrap_err(), ParseError::UnexpectedCharacter { character: '?', position: 1 }));
    assert!(matches!(parse("").unwrap_err(), ParseError::EmptyInput));
    assert!(matches!(parse("C [D").unwrap_err(), ParseError::UnmatchedLoopStart { position: 2 }));
    assert!(matches!(parse("C ]").unwrap_err(), ParseError::UnmatchedLoopEnd { position: 2 }));
    assert!(matches!(parse("[C]100").unwrap_err(), ParseError::InvalidLoopCount { value: 100, range: (1, 99), position: 3 }));
    assert!(matches!(parse("C:").unwrap_err(), ParseError::LoopEscapeOutsideLoop { position: 1 }));
    assert!(matches!(parse("[C:D:E]").unwrap_err(), ParseError::MultipleEscapePoints { position: 4 }));
    assert!(matches!(parse("R&").unwrap_err(), ParseError::EmptyTieChain { position: 1 }));
    assert!(matches!(parse("C {D").unwrap_err(), ParseError::UnclosedTuplet { position: 2 }));
    assert!(matches!(parse("{C} D").unwrap_err(), ParseError::TupletCountMissing { position: 4 }));
    assert!(matches!(parse("{C}1").unwrap_err(), ParseError::InvalidTupletCount { count: 1, position: 3 }));
    assert!(matches!(
        parse("{{{{{{C}2}2}2}2}2}2").unwrap_err(),
        ParseError::TupletNestTooDeep { max_depth: 5, position: 5 }
    ));
    assert!(matches!(parse("{C:D}2").unwrap_err(), ParseError::LoopEscapeOutsideLoop { position: 2 }));
    assert!(matches!(parse("{C}3:D").unwrap_err(), ParseError::UnexpectedToken { found: Token::Pitch(Pitch::D), .. }));
    assert!(matches!(parse("{C}3:65").unwrap_err(), ParseError::InvalidNumber { value: 65, range: (1, 64), .. }));
}

#[test]
fn tuplet_count_above_99_counts_as_99() {
    match &parse("{C}65535").unwrap().commands[0] {
        Command::Tuplet { count, .. } => assert_eq!(*count, 99),
        other => panic!("unexpected command: {other:?}"),
    }
}

#[test]
fn sample_counts_are_rounded() {
    let synthesizer = Synthesizer::new(44100, 100, WaveformType::Sine);
    assert_eq!(synthesizer.sample_count(&Fraction::new(1, 2)), Some(22050));
    assert_eq!(synthesizer.sample_count(&Fraction::new(1, 6)), Some(7350));
    assert_eq!(synthesizer.sample_count(&Fraction::new(1, 88200)), Some(1));
    assert_eq!(synthesizer.sample_count(&Fraction::new(1, 88201)), Some(0));
    assert_eq!(synthesizer.sample_count(&Fraction::new(0, 1)), Some(0));
    assert_eq!(synthesizer.sample_count(&Fraction::new(1, 0)), None);
    assert_eq!(synthesizer.sample_count(&Fraction::new(u64::MAX, 1)), None);
    assert_eq!(synthesizer.sample_count(&Fraction::new(u64::MAX, 44100)), Some(u64::MAX));
    assert_eq!(parts(&synthesizer.gain(15)), (1500, 1500));
    assert_eq!(parts(&Synthesizer::new(44100, 50, WaveformType::Square).gain(10)), (500, 1500));
}

#[test]
fn fades_take_five_milliseconds_or_half_the_tone() {
    let synthesizer = Synthesizer::new(44100, 100, WaveformType::Sine);
    assert_eq!(synthesizer.fade_length(22050), 220);
    assert_eq!(synthesizer.fade_length(440), 220);
    assert_eq!(synthesizer.fade_length(439), 219);
    assert_eq!(synthesizer.fade_length(1), 0);
    assert_eq!(synthesizer.fade_length(0), 0);
}

#[test]
fn clicks_fall_at_every_interval() {
    assert_eq!(click_interval_samples(120, 4, 44100), 22050);
    assert_eq!(click_interval_samples(120, 8, 44100), 11025);
    assert_eq!(click_interval_samples(120, 16, 44100), 5512);
    assert_eq!(click_positions(10, 3), vec![0, 3, 6, 9]);
    assert_eq!(click_positions(9, 3), vec![0, 3, 6]);
    assert_eq!(click_positions(1, 3), vec![0]);
    assert_eq!(click_positions(0, 3), Vec::<usize>::new());
    assert_eq!(click_positions(10, 0), vec![0]);
    assert_eq!(click_positions(usize::MAX, usize::MAX), vec![0]);
}

#[test]
fn sample_totals_of_pieces() {
    let synthesizer = Synthesizer::new(44100, 100, WaveformType::Sine);
    let total = |text: &str| synthesizer.sample_total(&parse(text).unwrap());
    assert_eq!(total("T120 {CDE}3"), Some(22050));
    assert_eq!(total("T120 {CDE}3:2"), Some(44100));
    assert_eq!(total("T120 {CRE}3"), Some(22050));
    assert_eq!(total("T120 {CDEFG}5"), Some(22050));
    assert_eq!(total("T120 {{CD}2 E}3"), Some(2 * 7350));
    assert_eq!(total("V15 A16"), Some(5513));
    assert_eq!(total("T120 L4 C D R {DEF}4"), Some(3 * 22050 + 3 * 5513));
    assert_eq!(total("O5 V3 T60"), Some(0));
    assert_eq!(total(" "), Some(0));
}

#[test]
fn white_space_and_digits_are_those_of_the_standard_library() {
    for code in 0..=0x10ffffu32 {
        if let Some(c) = char::from_u32(code) {
            assert_eq!(sine_mml::text::char_is_whitespace(c), c.is_whitespace(), "{code:#x}");
            assert_eq!(sine_mml::text::char_is_digit(c), c.is_ascii_digit(), "{code:#x}");
        }
    }
}

#[test]
fn pitch_letters_are_those_whose_upper_case_is_a_pitch() {
    for code in 0..=0x10ffffu32 {
        if let Some(c) = char::from_u32(code) {
            let expected = match c.to_ascii_uppercase() {
                'C' => Some(Pitch::C),
                'D' => Some(Pitch::D),
                'E' => Some(Pitch::E),
                'F' => Some(Pitch::F),
                'G' => Some(Pitch::G),
                'A' => Some(Pitch::A),
                'B' => Some(Pitch::B),
                _ => None,
            };
            assert_eq!(Pitch::from_char(c), expected);
        }
    }
}

#[test]
fn decimal_numbers_are_read_as_the_standard_library_reads_them() {
    let texts = [
        "0", "7", "42", "+42", "0042", "255", "256", "-1", "+", "", " 1", "1 ", "1_0", "١٢", "1e3",
        "18446744073709551615", "18446744073709551616", "++1", "+-1", "0x10",
    ];
    let devices: Vec<String> = (0..300).map(|i| format!("device {i}")).collect();
    for text in texts {
        let expected = text.parse::<u8>().ok();
        let got = sine_mml::cli::args::validate_metronome_beat(text);
        match expected {
            Some(value) if value == 4 || value == 8 || value == 16 => assert_eq!(got, Ok(value)),
            Some(_) => assert!(got.unwrap_err().starts_with("メトロノーム")),
            None => assert_eq!(got.unwrap_err(), "Invalid number"),
        }
        if let Ok(id) = text.parse::<usize>() {
            let resolved = sine_mml::midi::resolve_device_id(text, &devices);
            if id < devices.len() {
                assert_eq!(resolved.unwrap(), id);
            } else {
                assert!(resolved.is_err());
            }
        }
    }
}
