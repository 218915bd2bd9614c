//! What a sequence of tokens means.
//!
//! The functions here read a command, or a part of one, at a given index of
//! a token sequence. Each gives what it read together with the index of the
//! first token after it, or the error that stops the reading. `Parser`
//! computes what these functions say.

use vstd::prelude::*;
use crate::mml::ast::{
    lemma_playable_concat, playable, playable_command, Accidental, CommandView, DefaultLength,
    Duration, NoteView, Octave, RestView, Tempo, TiedDurationView, Volume, VolumeValue,
};
use crate::mml::error::ParseErrorView;
use crate::mml::expand::{
    checked_expand, lemma_expansion_holds_no_loop, lemma_expansion_playable, lemma_loop_free_concat, loop_free,
};
use crate::mml::token::{Token, TokenWithPos};

verus! {

/// How deep loops may nest.
pub const MAX_LOOP_DEPTH: usize = 5;

/// How deep tuplets may nest.
pub const MAX_TUPLET_DEPTH: usize = 5;

/// A token sequence that ends with the end-of-input token.
pub open spec fn terminated(tokens: Seq<TokenWithPos>) -> bool {
    tokens.len() > 0 && tokens.last().token == Token::Eof
}

/// The token at index `at`; past the end, the last token.
pub open spec fn token_at(tokens: Seq<TokenWithPos>, at: int) -> TokenWithPos {
    if 0 <= at < tokens.len() {
        tokens[at]
    } else {
        tokens.last()
    }
}

/// Whether reading from `at` to `next` consumed a token and stayed within
/// `len` tokens.
pub open spec fn advanced(at: int, next: int, len: nat) -> bool {
    at < next <= len
}

/// The error for a token that stands where a number was expected.
pub open spec fn number_expected(found: TokenWithPos) -> ParseErrorView {
    ParseErrorView::UnexpectedToken {
        expected: "number"@,
        found: found.token,
        position: found.position,
    }
}

/// The number at `at`, which has to lie in `min..=max`.
pub open spec fn number_in_range(tokens: Seq<TokenWithPos>, at: int, min: u16, max: u16) -> Result<
    u16,
    ParseErrorView,
> {
    let found = token_at(tokens, at);
    match found.token {
        Token::Number(value) => if min <= value <= max {
            Ok(value)
        } else {
            Err(
                ParseErrorView::InvalidNumber {
                    value,
                    range: (min, max),
                    position: found.position,
                },
            )
        },
        _ => Err(number_expected(found)),
    }
}

/// Where the run of dots that begins at `from` ends.
pub open spec fn dots_end(tokens: Seq<TokenWithPos>, from: int) -> int
    decreases tokens.len() - from,
{
    if 0 <= from < tokens.len() && tokens[from].token == Token::Dot {
        dots_end(tokens, from + 1)
    } else {
        from
    }
}

/// The number of dots in a run of `run` dots, as a note value holds it: it
/// stops counting at 255.
pub open spec fn dot_count(run: int) -> u8 {
    if run > 255 {
        255
    } else if run < 0 {
        0
    } else {
        run as u8
    }
}

/// A note value at `at`: a number in 1..=64 or none, then any dots.
pub open spec fn duration_at(tokens: Seq<TokenWithPos>, at: int) -> Result<
    (Duration, int),
    ParseErrorView,
> {
    match token_at(tokens, at).token {
        Token::Number(_) => match number_in_range(tokens, at, 1, 64) {
            Ok(value) => {
                let end = dots_end(tokens, at + 1);
                Ok((Duration { value: Some(value as u8), dots: dot_count(end - (at + 1)) }, end))
            },
            Err(e) => Err(e),
        },
        _ => {
            let end = dots_end(tokens, at);
            Ok((Duration { value: None, dots: dot_count(end - at) }, end))
        },
    }
}

/// The note values tied on from `at`: as long as a tie stands there, the
/// note value after it, which has to begin with a number or a dot.
pub open spec fn ties_at(tokens: Seq<TokenWithPos>, at: int) -> Result<
    (Seq<Duration>, int),
    ParseErrorView,
>
    decreases tokens.len() - at,
    via ties_at_decreases
{
    if 0 <= at < tokens.len() && tokens[at].token == Token::Tie {
        let next = token_at(tokens, at + 1).token;
        if next is Number || next == Token::Dot {
            match duration_at(tokens, at + 1) {
                Ok((duration, after)) => match ties_at(tokens, after) {
                    Ok((more, end)) => Ok((seq![duration] + more, end)),
                    Err(e) => Err(e),
                },
                Err(e) => Err(e),
            }
        } else {
            Err(ParseErrorView::EmptyTieChain { position: tokens[at].position })
        }
    } else {
        Ok((Seq::empty(), at))
    }
}

#[via_fn]
proof fn ties_at_decreases(tokens: Seq<TokenWithPos>, at: int) {
    if 0 <= at < tokens.len() && tokens[at].token == Token::Tie {
        let next = token_at(tokens, at + 1).token;
        if next is Number || next == Token::Dot {
            assert(at + 1 < tokens.len());
            lemma_dots_end(tokens, at + 1);
            lemma_dots_end(tokens, at + 2);
        }
    }
}

/// A run of dots ends at or after its start and within the tokens.
pub proof fn lemma_dots_end(tokens: Seq<TokenWithPos>, from: int)
    requires
        0 <= from <= tokens.len(),
    ensures
        from <= dots_end(tokens, from) <= tokens.len(),
        dots_end(tokens, from) < tokens.len() ==> tokens[dots_end(tokens, from)].token != Token::Dot,
        terminated(tokens) ==> dots_end(tokens, from) < tokens.len() || from == tokens.len(),
    decreases tokens.len() - from,
{
    if from < tokens.len() && tokens[from].token == Token::Dot {
        lemma_dots_end(tokens, from + 1);
    }
}

/// A note value with its ties at `at`.
pub open spec fn tied_duration_at(tokens: Seq<TokenWithPos>, at: int) -> Result<
    (TiedDurationView, int),
    ParseErrorView,
> {
    match duration_at(tokens, at) {
        Ok((base, after)) => match ties_at(tokens, after) {
            Ok((tied, end)) => Ok((TiedDurationView { base, tied }, end)),
            Err(e) => Err(e),
        },
        Err(e) => Err(e),
    }
}

/// The note whose pitch letter stands at `at`: an accidental or none, then
/// the note value with its ties.
pub open spec fn note_at(tokens: Seq<TokenWithPos>, at: int) -> Result<
    (NoteView, int),
    ParseErrorView,
>
    recommends
        token_at(tokens, at).token is Pitch,
{
    let pitch = token_at(tokens, at).token->Pitch_0;
    let sign = token_at(tokens, at + 1).token;
    let accidental = if sign == Token::Sharp {
        Accidental::Sharp
    } else if sign == Token::Flat {
        Accidental::Flat
    } else {
        Accidental::Natural
    };
    let after = if accidental == Accidental::Natural {
        at + 1
    } else {
        at + 2
    };
    match tied_duration_at(tokens, after) {
        Ok((duration, end)) => Ok((NoteView { pitch, accidental, duration }, end)),
        Err(e) => Err(e),
    }
}

/// The rest whose letter stands at `at`.
pub open spec fn rest_at(tokens: Seq<TokenWithPos>, at: int) -> Result<
    (RestView, int),
    ParseErrorView,
> {
    match tied_duration_at(tokens, at + 1) {
        Ok((duration, end)) => Ok((RestView { duration }, end)),
        Err(e) => Err(e),
    }
}

/// The octave command whose letter stands at `at`: a number in 1..=8.
pub open spec fn octave_at(tokens: Seq<TokenWithPos>, at: int) -> Result<
    (Octave, int),
    ParseErrorView,
> {
    match number_in_range(tokens, at + 1, 1, 8) {
        Ok(value) => Ok((Octave { value: value as u8 }, at + 2)),
        Err(e) => Err(e),
    }
}

/// The tempo command whose letter stands at `at`: a number in 30..=300.
pub open spec fn tempo_at(tokens: Seq<TokenWithPos>, at: int) -> Result<
    (Tempo, int),
    ParseErrorView,
> {
    match number_in_range(tokens, at + 1, 30, 300) {
        Ok(value) => Ok((Tempo { value }, at + 2)),
        Err(e) => Err(e),
    }
}

/// The default-length command whose letter stands at `at`: a number in
/// 1..=64.
pub open spec fn length_at(tokens: Seq<TokenWithPos>, at: int) -> Result<
    (DefaultLength, int),
    ParseErrorView,
> {
    match number_in_range(tokens, at + 1, 1, 64) {
        Ok(value) => Ok((DefaultLength { value: value as u8 }, at + 2)),
        Err(e) => Err(e),
    }
}

/// The size of a relative volume step: the number written, at most 15.
pub open spec fn step_size(written: u16) -> i8 {
    if written > 15 {
        15
    } else {
        written as i8
    }
}

/// The volume command whose letter stands at `at`: a sign with a step size
/// or without (then 1), or a number in 0..=15.
pub open spec fn volume_at(tokens: Seq<TokenWithPos>, at: int) -> Result<
    (Volume, int),
    ParseErrorView,
> {
    let sign = token_at(tokens, at + 1).token;
    if sign == Token::Sharp || sign == Token::Flat {
        let up = sign == Token::Sharp;
        match token_at(tokens, at + 2).token {
            Token::Number(n) => Ok(
                (
                    Volume {
                        value: VolumeValue::Relative(
                            if up {
                                step_size(n)
                            } else {
                                (-step_size(n)) as i8
                            },
                        ),
                    },
                    at + 3,
                ),
            ),
            _ => Ok(
                (
                    Volume {
                        value: VolumeValue::Relative(
                            if up {
                                1i8
                            } else {
                                -1i8
                            },
                        ),
                    },
                    at + 2,
                ),
            ),
        }
    } else {
        match number_in_range(tokens, at + 1, 0, 15) {
            Ok(value) => Ok((Volume { value: VolumeValue::Absolute(value as u8) }, at + 2)),
            Err(e) => Err(e),
        }
    }
}

/// The error for a token that begins no command.
pub open spec fn command_expected(found: TokenWithPos) -> ParseErrorView {
    match found.token {
        Token::LoopEnd => ParseErrorView::UnmatchedLoopEnd { position: found.position },
        Token::LoopEscape => ParseErrorView::LoopEscapeOutsideLoop { position: found.position },
        Token::Eof => ParseErrorView::UnexpectedEof {
            expected: "command"@,
            position: found.position,
        },
        other => ParseErrorView::UnexpectedToken {
            expected: "command"@,
            found: other,
            position: found.position,
        },
    }
}

/// The repeat count that may follow a loop's `]`, which stands at `close`:
/// a number in 1..=99, or none, which counts as 1.
pub open spec fn repeat_count_at(tokens: Seq<TokenWithPos>, close: int) -> Result<
    (usize, int),
    ParseErrorView,
> {
    let found = token_at(tokens, close + 1);
    match found.token {
        Token::Number(n) => if n == 0 || n > 99 {
            Err(
                ParseErrorView::InvalidLoopCount {
                    value: n,
                    range: (1, 99),
                    position: found.position,
                },
            )
        } else {
            Ok((n as usize, close + 2))
        },
        _ => Ok((1, close + 1)),
    }
}

/// What has to follow a tuplet's `}`, which stands at `close`: the count,
/// at least 2 and taken as 99 where it is more; then, where a colon
/// follows, the base length, a number in 1..=64.
pub open spec fn tuplet_tail_at(tokens: Seq<TokenWithPos>, close: int) -> Result<
    (u8, Option<u8>, int),
    ParseErrorView,
> {
    let found = token_at(tokens, close + 1);
    match found.token {
        Token::Number(n) => if n < 2 {
            Err(ParseErrorView::InvalidTupletCount { count: n as u8, position: found.position })
        } else {
            let count = if n > 99 {
                99u8
            } else {
                n as u8
            };
            if token_at(tokens, close + 2).token == Token::LoopEscape {
                match number_in_range(tokens, close + 3, 1, 64) {
                    Ok(base) => Ok((count, Some(base as u8), close + 4)),
                    Err(e) => Err(e),
                }
            } else {
                Ok((count, None, close + 2))
            }
        },
        _ => Err(ParseErrorView::TupletCountMissing { position: found.position }),
    }
}

/// The command that begins at `at`, read inside `loop_depth` loops and
/// `tuplet_depth` tuplets.
///
/// A loop is read with its body as written; a tuplet likewise. Inside a
/// loop or a tuplet, a `]` or a `:` that does not belong to the enclosing
/// loop is an error like any token that begins no command.
pub open spec fn command_at(
    tokens: Seq<TokenWithPos>,
    at: int,
    loop_depth: nat,
    tuplet_depth: nat,
) -> Result<(CommandView, int), ParseErrorView>
    decreases tokens.len() - at, 1nat,
{
    if at < 0 || at >= tokens.len() {
        Err(command_expected(token_at(tokens, at)))
    } else {
        match tokens[at].token {
            Token::Pitch(_) => match note_at(tokens, at) {
                Ok((note, next)) => Ok((CommandView::Note(note), next)),
                Err(e) => Err(e),
            },
            Token::Rest => match rest_at(tokens, at) {
                Ok((rest, next)) => Ok((CommandView::Rest(rest), next)),
                Err(e) => Err(e),
            },
            Token::Octave => match octave_at(tokens, at) {
                Ok((octave, next)) => Ok((CommandView::Octave(octave), next)),
                Err(e) => Err(e),
            },
            Token::OctaveUp => Ok((CommandView::OctaveUp, at + 1)),
            Token::OctaveDown => Ok((CommandView::OctaveDown, at + 1)),
            Token::Tempo => match tempo_at(tokens, at) {
                Ok((tempo, next)) => Ok((CommandView::Tempo(tempo), next)),
                Err(e) => Err(e),
            },
            Token::Length => match length_at(tokens, at) {
                Ok((length, next)) => Ok((CommandView::DefaultLength(length), next)),
                Err(e) => Err(e),
            },
            Token::Volume => match volume_at(tokens, at) {
                Ok((volume, next)) => Ok((CommandView::Volume(volume), next)),
                Err(e) => Err(e),
            },
            Token::LoopStart => loop_at(tokens, at, loop_depth, tuplet_depth),
            Token::TupletStart => tuplet_at(tokens, at, loop_depth, tuplet_depth),
            _ => Err(command_expected(tokens[at])),
        }
    }
}

/// The loop whose `[` stands at `at`: its body up to the matching `]`, then
/// the repeat count. A loop inside `MAX_LOOP_DEPTH` loops is too deep.
pub open spec fn loop_at(
    tokens: Seq<TokenWithPos>,
    at: int,
    loop_depth: nat,
    tuplet_depth: nat,
) -> Result<(CommandView, int), ParseErrorView>
    decreases tokens.len() - at, 0nat,
{
    if at < 0 || at >= tokens.len() {
        Err(command_expected(token_at(tokens, at)))
    } else if loop_depth >= MAX_LOOP_DEPTH {
        Err(
            ParseErrorView::LoopNestTooDeep {
                max_depth: MAX_LOOP_DEPTH,
                position: tokens[at].position,
            },
        )
    } else {
        match loop_body_at(
            tokens,
            at + 1,
            tokens[at].position,
            loop_depth + 1,
            tuplet_depth,
            Seq::empty(),
            None,
        ) {
            Ok((commands, escape_index, close)) => match repeat_count_at(tokens, close) {
                Ok((repeat_count, next)) => Ok(
                    (CommandView::Loop { commands, escape_index, repeat_count }, next),
                ),
                Err(e) => Err(e),
            },
            Err(e) => Err(e),
        }
    }
}

/// The rest of a loop body from `at` on, where `commands` have been read
/// and `escape_index` is the escape point met so far: the commands up to
/// the `]`, the escape point, and the index of the `]`. The loop's `[`
/// stands at offset `opened_at` of the text.
///
/// A command always takes at least one token, so the test on `advanced`
/// never fails; it is there to show that the reading ends.
pub open spec fn loop_body_at(
    tokens: Seq<TokenWithPos>,
    at: int,
    opened_at: usize,
    loop_depth: nat,
    tuplet_depth: nat,
    commands: Seq<CommandView>,
    escape_index: Option<usize>,
) -> Result<(Seq<CommandView>, Option<usize>, int), ParseErrorView>
    decreases tokens.len() - at, 2nat,
{
    let found = token_at(tokens, at);
    if at < 0 || at >= tokens.len() || found.token == Token::Eof {
        Err(ParseErrorView::UnmatchedLoopStart { position: opened_at })
    } else if found.token == Token::LoopEnd {
        Ok((commands, escape_index, at))
    } else if found.token == Token::LoopEscape {
        if escape_index is Some {
            Err(ParseErrorView::MultipleEscapePoints { position: found.position })
        } else {
            loop_body_at(
                tokens,
                at + 1,
                opened_at,
                loop_depth,
                tuplet_depth,
                commands,
                Some(commands.len() as usize),
            )
        }
    } else {
        match command_at(tokens, at, loop_depth, tuplet_depth) {
            Ok((command, next)) => if advanced(at, next, tokens.len()) {
                loop_body_at(
                    tokens,
                    next,
                    opened_at,
                    loop_depth,
                    tuplet_depth,
                    commands.push(command),
                    escape_index,
                )
            } else {
                Err(ParseErrorView::UnmatchedLoopStart { position: opened_at })
            },
            Err(e) => Err(e),
        }
    }
}

/// The tuplet whose `{` stands at `at`: its body up to the matching `}`,
/// then the count and the base length. A tuplet inside `MAX_TUPLET_DEPTH`
/// tuplets is too deep.
pub open spec fn tuplet_at(
    tokens: Seq<TokenWithPos>,
    at: int,
    loop_depth: nat,
    tuplet_depth: nat,
) -> Result<(CommandView, int), ParseErrorView>
    decreases tokens.len() - at, 0nat,
{
    if at < 0 || at >= tokens.len() {
        Err(command_expected(token_at(tokens, at)))
    } else if tuplet_depth >= MAX_TUPLET_DEPTH {
        Err(
            ParseErrorView::TupletNestTooDeep {
                max_depth: MAX_TUPLET_DEPTH,
                position: tokens[at].position,
            },
        )
    } else {
        match tuplet_body_at(
            tokens,
            at + 1,
            tokens[at].position,
            loop_depth,
            tuplet_depth + 1,
            Seq::empty(),
        ) {
            Ok((commands, close)) => match tuplet_tail_at(tokens, close) {
                Ok((count, base_duration, next)) => Ok(
                    (CommandView::Tuplet { commands, count, base_duration }, next),
                ),
                Err(e) => Err(e),
            },
            Err(e) => Err(e),
        }
    }
}

/// The rest of a tuplet body from `at` on, where `commands` have been
/// read: the commands up to the `}`, and the index of the `}`. The tuplet's
/// `{` stands at offset `opened_at` of the text. The commands stay as they
/// are written: a loop among them is not expanded.
pub open spec fn tuplet_body_at(
    tokens: Seq<TokenWithPos>,
    at: int,
    opened_at: usize,
    loop_depth: nat,
    tuplet_depth: nat,
    commands: Seq<CommandView>,
) -> Result<(Seq<CommandView>, int), ParseErrorView>
    decreases tokens.len() - at, 2nat,
{
    let found = token_at(tokens, at);
    if at < 0 || at >= tokens.len() || found.token == Token::Eof {
        Err(ParseErrorView::UnclosedTuplet { position: opened_at })
    } else if found.token == Token::TupletEnd {
        Ok((commands, at))
    } else {
        match command_at(tokens, at, loop_depth, tuplet_depth) {
            Ok((command, next)) => if advanced(at, next, tokens.len()) {
                tuplet_body_at(
                    tokens,
                    next,
                    opened_at,
                    loop_depth,
                    tuplet_depth,
                    commands.push(command),
                )
            } else {
                Err(ParseErrorView::UnclosedTuplet { position: opened_at })
            },
            Err(e) => Err(e),
        }
    }
}

/// What a command read at the top level adds to the piece: a loop its
/// expansion, which may be too large; any other command itself.
pub open spec fn compiled(command: CommandView) -> Result<Seq<CommandView>, ParseErrorView> {
    match command {
        CommandView::Loop { commands, escape_index, repeat_count } => checked_expand(
            commands,
            escape_index,
            repeat_count as nat,
        ),
        other => Ok(seq![other]),
    }
}

/// The piece that the tokens from `at` on add to `commands`: command after
/// command up to the end of the input, every loop replaced by its
/// expansion.
pub open spec fn piece_at(
    tokens: Seq<TokenWithPos>,
    at: int,
    loop_depth: nat,
    tuplet_depth: nat,
    commands: Seq<CommandView>,
) -> Result<Seq<CommandView>, ParseErrorView>
    decreases tokens.len() - at,
{
    if at < 0 || at >= tokens.len() || tokens[at].token == Token::Eof {
        Ok(commands)
    } else {
        match command_at(tokens, at, loop_depth, tuplet_depth) {
            Ok((command, next)) => match compiled(command) {
                Ok(added) => if advanced(at, next, tokens.len()) {
                    piece_at(tokens, next, loop_depth, tuplet_depth, commands + added)
                } else {
                    Ok(commands + added)
                },
                Err(e) => Err(e),
            },
            Err(e) => Err(e),
        }
    }
}

/// A note value that is read has a length from 1 to 64 or none; reading it
/// takes no token back and ends within the tokens.
pub proof fn lemma_duration_advances(tokens: Seq<TokenWithPos>, at: int)
    requires
        terminated(tokens),
        0 <= at < tokens.len(),
    ensures
        duration_at(tokens, at) matches Ok((duration, end)) ==> at <= end < tokens.len()
            && duration.well_formed(),
{
    lemma_dots_end(tokens, at);
    if at + 1 <= tokens.len() {
        lemma_dots_end(tokens, at + 1);
    }
}

/// A chain of ties takes no token back and ends within the tokens.
pub proof fn lemma_ties_advance(tokens: Seq<TokenWithPos>, at: int)
    requires
        terminated(tokens),
        0 <= at < tokens.len(),
    ensures
        ties_at(tokens, at) matches Ok((_, end)) ==> at <= end < tokens.len(),
    decreases tokens.len() - at,
{
    if tokens[at].token == Token::Tie {
        let next = token_at(tokens, at + 1).token;
        if next is Number || next == Token::Dot {
            lemma_duration_advances(tokens, at + 1);
            if let Ok((_, after)) = duration_at(tokens, at + 1) {
                lemma_ties_advance(tokens, after);
            }
        }
    }
}

/// A note value with its ties takes no token back and ends within the
/// tokens.
pub proof fn lemma_tied_duration_advances(tokens: Seq<TokenWithPos>, at: int)
    requires
        terminated(tokens),
        0 <= at < tokens.len(),
    ensures
        tied_duration_at(tokens, at) matches Ok((_, end)) ==> at <= end < tokens.len(),
{
    lemma_duration_advances(tokens, at);
    if let Ok((_, after)) = duration_at(tokens, at) {
        lemma_ties_advance(tokens, after);
    }
}

/// Every command takes at least one token and ends before the end of the
/// input: the tests on `advanced` in the bodies of loops and tuplets and in
/// the piece never fail.
pub proof fn lemma_command_advances(
    tokens: Seq<TokenWithPos>,
    at: int,
    loop_depth: nat,
    tuplet_depth: nat,
)
    requires
        terminated(tokens),
        0 <= at,
    ensures
        command_at(tokens, at, loop_depth, tuplet_depth) matches Ok((_, next)) ==> at < next
            < tokens.len(),
    decreases tokens.len() - at, 1nat,
{
    if at < tokens.len() {
        match tokens[at].token {
            Token::Pitch(_) => {
                let sign = token_at(tokens, at + 1).token;
                if sign == Token::Sharp || sign == Token::Flat {
                    lemma_tied_duration_advances(tokens, at + 2);
                } else {
                    lemma_tied_duration_advances(tokens, at + 1);
                }
            },
            Token::Rest => {
                lemma_tied_duration_advances(tokens, at + 1);
            },
            Token::LoopStart => {
                if loop_depth < MAX_LOOP_DEPTH {
                    lemma_loop_body_ends(
                        tokens,
                        at + 1,
                        tokens[at].position,
                        loop_depth + 1,
                        tuplet_depth,
                        Seq::empty(),
                        None,
                    );
                }
            },
            Token::TupletStart => {
                if tuplet_depth < MAX_TUPLET_DEPTH {
                    lemma_tuplet_body_ends(
                        tokens,
                        at + 1,
                        tokens[at].position,
                        loop_depth,
                        tuplet_depth + 1,
                        Seq::empty(),
                    );
                }
            },
            _ => {},
        }
    }
}

/// The body of a loop ends at a `]` within the tokens.
pub proof fn lemma_loop_body_ends(
    tokens: Seq<TokenWithPos>,
    at: int,
    opened_at: usize,
    loop_depth: nat,
    tuplet_depth: nat,
    commands: Seq<CommandView>,
    escape_index: Option<usize>,
)
    requires
        terminated(tokens),
        0 <= at,
    ensures
        loop_body_at(
            tokens,
            at,
            opened_at,
            loop_depth,
            tuplet_depth,
            commands,
            escape_index,
        ) matches Ok((_, _, close)) ==> at <= close < tokens.len() && tokens[close].token
            == Token::LoopEnd,
    decreases tokens.len() - at, 2nat,
{
    if at < tokens.len() {
        let found = tokens[at];
        if found.token == Token::Eof || found.token == Token::LoopEnd {
        } else if found.token == Token::LoopEscape {
            if escape_index is None {
                lemma_loop_body_ends(
                    tokens,
                    at + 1,
                    opened_at,
                    loop_depth,
                    tuplet_depth,
                    commands,
                    Some(commands.len() as usize),
                );
            }
        } else {
            lemma_command_advances(tokens, at, loop_depth, tuplet_depth);
            if let Ok((command, next)) = command_at(tokens, at, loop_depth, tuplet_depth) {
                lemma_loop_body_ends(
                    tokens,
                    next,
                    opened_at,
                    loop_depth,
                    tuplet_depth,
                    commands.push(command),
                    escape_index,
                );
            }
        }
    }
}

/// The body of a tuplet ends at a `}` within the tokens.
pub proof fn lemma_tuplet_body_ends(
    tokens: Seq<TokenWithPos>,
    at: int,
    opened_at: usize,
    loop_depth: nat,
    tuplet_depth: nat,
    commands: Seq<CommandView>,
)
    requires
        terminated(tokens),
        0 <= at,
    ensures
        tuplet_body_at(tokens, at, opened_at, loop_depth, tuplet_depth, commands) matches Ok(
            (_, close),
        ) ==> at <= close < tokens.len() && tokens[close].token == Token::TupletEnd,
    decreases tokens.len() - at, 2nat,
{
    if at < tokens.len() {
        let found = tokens[at];
        if found.token == Token::Eof || found.token == Token::TupletEnd {
        } else {
            lemma_command_advances(tokens, at, loop_depth, tuplet_depth);
            if let Ok((command, next)) = command_at(tokens, at, loop_depth, tuplet_depth) {
                lemma_tuplet_body_ends(
                    tokens,
                    next,
                    opened_at,
                    loop_depth,
                    tuplet_depth,
                    commands.push(command),
                );
            }
        }
    }
}

/// A compiled piece holds no loop at its top level, where the commands it
/// began with held none.
pub proof fn lemma_piece_holds_no_loop(
    tokens: Seq<TokenWithPos>,
    at: int,
    loop_depth: nat,
    tuplet_depth: nat,
    commands: Seq<CommandView>,
)
    requires
        loop_free(commands),
    ensures
        piece_at(tokens, at, loop_depth, tuplet_depth, commands) matches Ok(piece) ==> loop_free(
            piece,
        ),
    decreases tokens.len() - at,
{
    if !(at < 0 || at >= tokens.len() || tokens[at].token == Token::Eof) {
        if let Ok((command, next)) = command_at(tokens, at, loop_depth, tuplet_depth) {
            if let Ok(added) = compiled(command) {
                match command {
                    CommandView::Loop { commands: body, escape_index, repeat_count } => {
                        lemma_expansion_holds_no_loop(body, escape_index, repeat_count as nat);
                    },
                    _ => {},
                }
                lemma_loop_free_concat(commands, added);
                if advanced(at, next, tokens.len()) {
                    lemma_piece_holds_no_loop(
                        tokens,
                        next,
                        loop_depth,
                        tuplet_depth,
                        commands + added,
                    );
                }
            }
        }
    }
}

/// Every command that is read can be played: its tempo is not zero, and
/// no tuplet in it has a count of zero.
pub proof fn lemma_command_playable(
    tokens: Seq<TokenWithPos>,
    at: int,
    loop_depth: nat,
    tuplet_depth: nat,
)
    ensures
        command_at(tokens, at, loop_depth, tuplet_depth) matches Ok((command, _))
            ==> playable_command(command),
    decreases tokens.len() - at, 1nat,
{
    if 0 <= at < tokens.len() {
        match tokens[at].token {
            Token::LoopStart => {
                if loop_depth < MAX_LOOP_DEPTH {
                    lemma_loop_body_playable(
                        tokens,
                        at + 1,
                        tokens[at].position,
                        loop_depth + 1,
                        tuplet_depth,
                        Seq::empty(),
                        None,
                    );
                }
            },
            Token::TupletStart => {
                if tuplet_depth < MAX_TUPLET_DEPTH {
                    lemma_tuplet_body_playable(
                        tokens,
                        at + 1,
                        tokens[at].position,
                        loop_depth,
                        tuplet_depth + 1,
                        Seq::empty(),
                    );
                }
            },
            _ => {},
        }
    }
}

/// The body of a loop that is read can be played, where the commands read
/// before can.
pub proof fn lemma_loop_body_playable(
    tokens: Seq<TokenWithPos>,
    at: int,
    opened_at: usize,
    loop_depth: nat,
    tuplet_depth: nat,
    commands: Seq<CommandView>,
    escape_index: Option<usize>,
)
    requires
        playable(commands),
    ensures
        loop_body_at(
            tokens,
            at,
            opened_at,
            loop_depth,
            tuplet_depth,
            commands,
            escape_index,
        ) matches Ok((body, _, _)) ==> playable(body),
    decreases tokens.len() - at, 2nat,
{
    if 0 <= at < tokens.len() {
        let found = tokens[at];
        if found.token == Token::Eof || found.token == Token::LoopEnd {
        } else if found.token == Token::LoopEscape {
            if escape_index is None {
                lemma_loop_body_playable(
                    tokens,
                    at + 1,
                    opened_at,
                    loop_depth,
                    tuplet_depth,
                    commands,
                    Some(commands.len() as usize),
                );
            }
        } else {
            lemma_command_playable(tokens, at, loop_depth, tuplet_depth);
            if let Ok((command, next)) = command_at(tokens, at, loop_depth, tuplet_depth) {
                if advanced(at, next, tokens.len()) {
                    lemma_playable_concat(commands, seq![command]);
                    assert(commands + seq![command] =~= commands.push(command));
                    lemma_loop_body_playable(
                        tokens,
                        next,
                        opened_at,
                        loop_depth,
                        tuplet_depth,
                        commands.push(command),
                        escape_index,
                    );
                }
            }
        }
    }
}

/// The body of a tuplet that is read can be played, where the commands
/// read before can.
pub proof fn lemma_tuplet_body_playable(
    tokens: Seq<TokenWithPos>,
    at: int,
    opened_at: usize,
    loop_depth: nat,
    tuplet_depth: nat,
    commands: Seq<CommandView>,
)
    requires
        playable(commands),
    ensures
        tuplet_body_at(tokens, at, opened_at, loop_depth, tuplet_depth, commands) matches Ok(
            (body, _),
        ) ==> playable(body),
    decreases tokens.len() - at, 2nat,
{
    if 0 <= at < tokens.len() {
        let found = tokens[at];
        if found.token == Token::Eof || found.token == Token::TupletEnd {
        } else {
            lemma_command_playable(tokens, at, loop_depth, tuplet_depth);
            if let Ok((command, next)) = command_at(tokens, at, loop_depth, tuplet_depth) {
                if advanced(at, next, tokens.len()) {
                    lemma_playable_concat(commands, seq![command]);
                    assert(commands + seq![command] =~= commands.push(command));
                    lemma_tuplet_body_playable(
                        tokens,
                        next,
                        opened_at,
                        loop_depth,
                        tuplet_depth,
                        commands.push(command),
                    );
                }
            }
        }
    }
}

/// A compiled piece can be played, where the commands it began with can.
pub proof fn lemma_piece_playable(
    tokens: Seq<TokenWithPos>,
    at: int,
    loop_depth: nat,
    tuplet_depth: nat,
    commands: Seq<CommandView>,
)
    requires
        playable(commands),
    ensures
        piece_at(tokens, at, loop_depth, tuplet_depth, commands) matches Ok(piece) ==> playable(
            piece,
        ),
    decreases tokens.len() - at,
{
    if !(at < 0 || at >= tokens.len() || tokens[at].token == Token::Eof) {
        lemma_command_playable(tokens, at, loop_depth, tuplet_depth);
        if let Ok((command, next)) = command_at(tokens, at, loop_depth, tuplet_depth) {
            if let Ok(added) = compiled(command) {
                match command {
                    CommandView::Loop { commands: body, escape_index, repeat_count } => {
                        assert(playable(body));
                        lemma_expansion_playable(body, escape_index, repeat_count as nat);
                    },
                    _ => {},
                }
                lemma_playable_concat(commands, added);
                if advanced(at, next, tokens.len()) {
                    lemma_piece_playable(tokens, next, loop_depth, tuplet_depth, commands + added);
                }
            }
        }
    }
}

} // verus!
