//! From tokens to commands, by recursive descent with one token of
//! lookahead. What each step reads is stated in `grammar`.

use vstd::prelude::*;
use crate::mml::ast::{
    lemma_view_commands, lemma_view_commands_push, playable, view_commands, Accidental, Command,
    CommandView, DefaultLength, Duration, Mml, Note, Octave, Pitch, Rest, Tempo, TiedDuration,
    Volume, VolumeValue,
};
use crate::mml::error::{ParseError, ParseErrorView};
use crate::mml::expand::loop_free;
use crate::mml::grammar::{
    lemma_piece_holds_no_loop, lemma_piece_playable, command_at, command_expected, dot_count, dots_end, duration_at,
    length_at, loop_at, loop_body_at, note_at, number_expected, number_in_range, octave_at,
    piece_at, rest_at, step_size, tempo_at, terminated, tied_duration_at, ties_at, token_at,
    tuplet_at, tuplet_body_at, volume_at, MAX_LOOP_DEPTH, MAX_TUPLET_DEPTH,
};
use crate::mml::token::{Token, TokenWithPos};
use crate::mml::tokenizer::{lemma_tokens_end_with_eof, spec_tokenize, tokenize};

pub use crate::mml::expand::expand_loop;

verus! {

/// The view of a `Parser`: the tokens, the index of the next token to read,
/// and the number of loops and of tuplets that are open.
pub struct ParserView {
    pub tokens: Seq<TokenWithPos>,
    pub current: usize,
    pub loop_depth: usize,
    pub tuplet_depth: usize,
}

/// Reads commands from a sequence of tokens.
pub struct Parser {
    tokens: Vec<TokenWithPos>,
    current: usize,
    loop_depth: usize,
    tuplet_depth: usize,
}

impl View for Parser {
    type V = ParserView;

    closed spec fn view(&self) -> ParserView {
        ParserView {
            tokens: self.tokens@,
            current: self.current,
            loop_depth: self.loop_depth,
            tuplet_depth: self.tuplet_depth,
        }
    }
}

/// What a step of the parser came to: the view of what it read and the
/// index it stopped at, or the view of its error.
pub open spec fn outcome<T: View>(result: Result<T, ParseError>, current: usize) -> Result<
    (T::V, int),
    ParseErrorView,
> {
    match result {
        Ok(value) => Ok((value@, current as int)),
        Err(error) => Err(error@),
    }
}

/// `outcome` for a value that is its own view.
pub open spec fn plain_outcome<T>(result: Result<T, ParseError>, current: usize) -> Result<
    (T, int),
    ParseErrorView,
> {
    match result {
        Ok(value) => Ok((value, current as int)),
        Err(error) => Err(error@),
    }
}

/// The note values in `tied` put before those of `rest`.
pub open spec fn ties_then(
    tied: Seq<Duration>,
    rest: Result<(Seq<Duration>, int), ParseErrorView>,
) -> Result<(Seq<Duration>, int), ParseErrorView> {
    match rest {
        Ok((more, end)) => Ok((tied + more, end)),
        Err(e) => Err(e),
    }
}

impl Parser {
    /// The tokens end with `Eof`, the next token exists, and no more loops
    /// or tuplets are open than may be.
    pub open spec fn well_formed(&self) -> bool {
        &&& terminated(self@.tokens)
        &&& self@.current < self@.tokens.len()
        &&& self@.loop_depth <= MAX_LOOP_DEPTH
        &&& self@.tuplet_depth <= MAX_TUPLET_DEPTH
    }

    /// `self` holds the tokens and depths of `before` and has not moved
    /// back.
    pub open spec fn follows(&self, before: &Parser) -> bool {
        &&& self@.tokens == before@.tokens
        &&& self@.loop_depth == before@.loop_depth
        &&& self@.tuplet_depth == before@.tuplet_depth
        &&& before@.current <= self@.current
    }

    /// The token that is read next.
    pub open spec fn next_token(&self) -> TokenWithPos {
        token_at(self@.tokens, self@.current as int)
    }

    /// A parser at the first of `tokens`, which have to end with `Eof`.
    pub fn new(tokens: Vec<TokenWithPos>) -> (parser: Self)
        requires
            terminated(tokens@),
        ensures
            parser.well_formed(),
            parser@ == (ParserView { tokens: tokens@, current: 0, loop_depth: 0, tuplet_depth: 0 }),
    {
        Self { tokens, current: 0, loop_depth: 0, tuplet_depth: 0 }
    }

    /// The token that is read next.
    pub fn peek(&self) -> (token: &TokenWithPos)
        requires
            self.well_formed(),
        ensures
            *token == self.next_token(),
    {
        if self.current >= self.tokens.len() {
            &self.tokens[self.tokens.len() - 1]
        } else {
            &self.tokens[self.current]
        }
    }

    /// Whether the next token is the end of the input.
    pub fn is_at_end(&self) -> (at_end: bool)
        requires
            self.well_formed(),
        ensures
            at_end == (self.next_token().token == Token::Eof),
    {
        self.peek().token == Token::Eof
    }

    /// The token before the next one; at the start, the first token.
    pub fn previous(&self) -> (token: &TokenWithPos)
        requires
            self.well_formed(),
        ensures
            *token == self@.tokens[if self@.current == 0 {
                0
            } else {
                self@.current - 1
            }],
    {
        if self.current == 0 {
            &self.tokens[0]
        } else {
            &self.tokens[self.current - 1]
        }
    }

    /// Steps over the next token, unless it is the end of the input, and
    /// gives the token that then lies before the next one.
    pub fn advance(&mut self) -> (token: TokenWithPos)
        requires
            old(self).well_formed(),
        ensures
            final(self).well_formed(),
            final(self).follows(old(self)),
            old(self).next_token().token == Token::Eof ==> final(self)@.current == old(
                self,
            )@.current,
            old(self).next_token().token != Token::Eof ==> final(self)@.current == old(
                self,
            )@.current + 1,
            old(self).next_token().token != Token::Eof ==> token == old(self).next_token(),
            token == final(self)@.tokens[if final(self)@.current == 0 {
                0
            } else {
                final(self)@.current - 1
            }],
    {
        if !self.is_at_end() {
            assert(self.current + 1 < self.tokens.len());
            self.current += 1;
        }
        *self.previous()
    }

    fn check_loop_end(&self) -> (found: bool)
        requires
            self.well_formed(),
        ensures
            found == (self.next_token().token == Token::LoopEnd),
    {
        self.peek().token == Token::LoopEnd
    }

    fn check_loop_escape(&self) -> (found: bool)
        requires
            self.well_formed(),
        ensures
            found == (self.next_token().token == Token::LoopEscape),
    {
        self.peek().token == Token::LoopEscape
    }

    fn check_tuplet_end(&self) -> (found: bool)
        requires
            self.well_formed(),
        ensures
            found == (self.next_token().token == Token::TupletEnd),
    {
        self.peek().token == Token::TupletEnd
    }

    fn check_number(&self) -> (found: bool)
        requires
            self.well_formed(),
        ensures
            found == (self.next_token().token is Number),
    {
        match self.peek().token {
            Token::Number(_) => true,
            _ => false,
        }
    }

    fn check_dot(&self) -> (found: bool)
        requires
            self.well_formed(),
        ensures
            found == (self.next_token().token == Token::Dot),
    {
        self.peek().token == Token::Dot
    }

    fn check_sharp(&self) -> (found: bool)
        requires
            self.well_formed(),
        ensures
            found == (self.next_token().token == Token::Sharp),
    {
        self.peek().token == Token::Sharp
    }

    fn check_flat(&self) -> (found: bool)
        requires
            self.well_formed(),
        ensures
            found == (self.next_token().token == Token::Flat),
    {
        self.peek().token == Token::Flat
    }

    /// Whether the next token is a tie.
    pub fn is_next_tie(&self) -> (found: bool)
        requires
            self.well_formed(),
        ensures
            found == (self.next_token().token == Token::Tie),
    {
        self.peek().token == Token::Tie
    }

    /// Steps over the next token if it is a tie, and tells whether it was.
    pub fn consume_tie(&mut self) -> (found: bool)
        requires
            old(self).well_formed(),
        ensures
            final(self).well_formed(),
            final(self).follows(old(self)),
            found == (old(self).next_token().token == Token::Tie),
            found ==> final(self)@.current == old(self)@.current + 1,
            !found ==> final(self)@.current == old(self)@.current,
    {
        if self.is_next_tie() {
            self.advance();
            true
        } else {
            false
        }
    }

    /// Reads the next token as a number of any size.
    fn consume_number(&mut self) -> (result: Result<u16, ParseError>)
        requires
            old(self).well_formed(),
        ensures
            final(self).well_formed(),
            final(self).follows(old(self)),
            match result {
                Ok(value) => old(self).next_token().token == Token::Number(value)
                    && final(self)@.current == old(self)@.current + 1,
                Err(error) => !(old(self).next_token().token is Number) && error@
                    == number_expected(old(self).next_token()) && final(self)@.current == old(
                    self,
                )@.current,
            },
    {
        let found = *self.peek();
        match found.token {
            Token::Number(value) => {
                self.advance();
                Ok(value)
            },
            other => Err(
                ParseError::UnexpectedToken {
                    expected: String::from_str("number"),
                    found: other,
                    position: found.position,
                },
            ),
        }
    }

    /// Reads the next token as a number in `min..=max`.
    fn consume_number_in_range(&mut self, min: u16, max: u16) -> (result: Result<u16, ParseError>)
        requires
            old(self).well_formed(),
        ensures
            final(self).well_formed(),
            final(self).follows(old(self)),
            match result {
                Ok(value) => number_in_range(old(self)@.tokens, old(self)@.current as int, min, max)
                    == Ok::<u16, ParseErrorView>(value) && final(self)@.current == old(
                    self,
                )@.current + 1,
                Err(error) => number_in_range(
                    old(self)@.tokens,
                    old(self)@.current as int,
                    min,
                    max,
                ) == Err::<u16, ParseErrorView>(error@) && final(self)@.current == old(
                    self,
                )@.current,
            },
    {
        let found = *self.peek();
        match found.token {
            Token::Number(value) => {
                if value >= min && value <= max {
                    self.advance();
                    Ok(value)
                } else {
                    Err(
                        ParseError::InvalidNumber {
                            value,
                            range: (min, max),
                            position: found.position,
                        },
                    )
                }
            },
            other => Err(
                ParseError::UnexpectedToken {
                    expected: String::from_str("number"),
                    found: other,
                    position: found.position,
                },
            ),
        }
    }

    /// Reads one note value: a number in 1..=64 or none, then any dots.
    fn parse_duration(&mut self) -> (result: Result<Duration, ParseError>)
        requires
            old(self).well_formed(),
        ensures
            final(self).well_formed(),
            final(self).follows(old(self)),
            plain_outcome(result, final(self)@.current) == duration_at(
                old(self)@.tokens,
                old(self)@.current as int,
            ),
    {
        let value: Option<u8> = if self.check_number() {
            match self.consume_number_in_range(1, 64) {
                Ok(value) => Some(value as u8),
                Err(error) => {
                    return Err(error);
                },
            }
        } else {
            None
        };
        let ghost first_dot = self.current;
        let mut dots: u8 = 0;
        while self.check_dot()
            invariant
                self.well_formed(),
                self.follows(old(self)),
                first_dot <= self@.current,
                dots == dot_count(self@.current - first_dot),
                dots_end(self@.tokens, first_dot as int) == dots_end(
                    self@.tokens,
                    self@.current as int,
                ),
            decreases self@.tokens.len() - self@.current,
        {
            self.advance();
            if dots < 255 {
                dots += 1;
            }
        }
        Ok(Duration { value, dots })
    }

    /// Reads the note values that are tied on, and chains them to
    /// `duration`.
    fn parse_ties(&mut self, duration: &mut TiedDuration) -> (result: Result<(), ParseError>)
        requires
            old(self).well_formed(),
        ensures
            final(self).well_formed(),
            final(self).follows(old(self)),
            final(duration)@.base == old(duration)@.base,
            match result {
                Ok(()) => ties_then(
                    old(duration)@.tied,
                    ties_at(old(self)@.tokens, old(self)@.current as int),
                ) == Ok::<(Seq<Duration>, int), ParseErrorView>(
                    (final(duration)@.tied, final(self)@.current as int),
                ),
                Err(error) => ties_at(old(self)@.tokens, old(self)@.current as int) == Err::<
                    (Seq<Duration>, int),
                    ParseErrorView,
                >(error@),
            },
    {
        proof {
            let rest = ties_at(self@.tokens, self@.current as int);
            if let Ok((more, end)) = rest {
                assert(old(duration)@.tied + (Seq::<Duration>::empty() + more) =~= old(
                    duration,
                )@.tied + more);
            }
        }
        let ghost mut read: Seq<Duration> = Seq::empty();
        while self.is_next_tie()
            invariant
                self.well_formed(),
                self.follows(old(self)),
                duration@.base == old(duration)@.base,
                duration@.tied == old(duration)@.tied + read,
                ties_at(old(self)@.tokens, old(self)@.current as int) == ties_then(
                    read,
                    ties_at(self@.tokens, self@.current as int),
                ),
            decreases self@.tokens.len() - self@.current,
        {
            let tie = self.advance();
            if !(self.check_number() || self.check_dot()) {
                return Err(ParseError::EmptyTieChain { position: tie.position });
            }
            let ghost at = self@.current;
            match self.parse_duration() {
                Ok(tied) => {
                    proof {
                        let rest = ties_at(self@.tokens, self@.current as int);
                        if let Ok((more, end)) = rest {
                            assert(read + (seq![tied] + more) =~= read.push(tied) + more);
                        }
                        assert(duration@.tied.push(tied) =~= old(duration)@.tied + read.push(tied));
                        read = read.push(tied);
                    }
                    duration.add_tie(tied);
                },
                Err(error) => {
                    return Err(error);
                },
            }
        }
        proof {
            assert(read + Seq::<Duration>::empty() =~= read);
        }
        Ok(())
    }

    /// Reads a note value with its ties.
    fn parse_tied_duration(&mut self) -> (result: Result<TiedDuration, ParseError>)
        requires
            old(self).well_formed(),
        ensures
            final(self).well_formed(),
            final(self).follows(old(self)),
            outcome(result, final(self)@.current) == tied_duration_at(
                old(self)@.tokens,
                old(self)@.current as int,
            ),
    {
        let base = match self.parse_duration() {
            Ok(base) => base,
            Err(error) => {
                return Err(error);
            },
        };
        let mut duration = TiedDuration::new(base);
        proof {
            let rest = ties_at(self@.tokens, self@.current as int);
            if let Ok((more, end)) = rest {
                assert(Seq::<Duration>::empty() + more =~= more);
            }
        }
        match self.parse_ties(&mut duration) {
            Ok(()) => Ok(duration),
            Err(error) => Err(error),
        }
    }

    /// Reads the note whose pitch letter, `pitch`, is the next token.
    fn parse_note(&mut self, pitch: Pitch) -> (result: Result<Note, ParseError>)
        requires
            old(self).well_formed(),
            old(self).next_token().token == Token::Pitch(pitch),
        ensures
            final(self).well_formed(),
            final(self).follows(old(self)),
            outcome(result, final(self)@.current) == note_at(
                old(self)@.tokens,
                old(self)@.current as int,
            ),
            result is Ok ==> old(self)@.current < final(self)@.current,
    {
        self.advance();
        let accidental = if self.check_sharp() {
            self.advance();
            Accidental::Sharp
        } else if self.check_flat() {
            self.advance();
            Accidental::Flat
        } else {
            Accidental::Natural
        };
        match self.parse_tied_duration() {
            Ok(duration) => Ok(Note { pitch, accidental, duration }),
            Err(error) => Err(error),
        }
    }

    /// Reads the rest whose letter is the next token.
    fn parse_rest(&mut self) -> (result: Result<Rest, ParseError>)
        requires
            old(self).well_formed(),
            old(self).next_token().token == Token::Rest,
        ensures
            final(self).well_formed(),
            final(self).follows(old(self)),
            outcome(result, final(self)@.current) == rest_at(
                old(self)@.tokens,
                old(self)@.current as int,
            ),
            result is Ok ==> old(self)@.current < final(self)@.current,
    {
        self.advance();
        match self.parse_tied_duration() {
            Ok(duration) => Ok(Rest { duration }),
            Err(error) => Err(error),
        }
    }

    /// Reads the octave command whose letter is the next token.
    fn parse_octave(&mut self) -> (result: Result<Octave, ParseError>)
        requires
            old(self).well_formed(),
            old(self).next_token().token == Token::Octave,
        ensures
            final(self).well_formed(),
            final(self).follows(old(self)),
            plain_outcome(result, final(self)@.current) == octave_at(
                old(self)@.tokens,
                old(self)@.current as int,
            ),
    {
        self.advance();
        match self.consume_number_in_range(1, 8) {
            Ok(value) => Ok(Octave { value: value as u8 }),
            Err(error) => Err(error),
        }
    }

    /// Reads the tempo command whose letter is the next token.
    fn parse_tempo(&mut self) -> (result: Result<Tempo, ParseError>)
        requires
            old(self).well_formed(),
            old(self).next_token().token == Token::Tempo,
        ensures
            final(self).well_formed(),
            final(self).follows(old(self)),
            plain_outcome(result, final(self)@.current) == tempo_at(
                old(self)@.tokens,
                old(self)@.current as int,
            ),
    {
        self.advance();
        match self.consume_number_in_range(30, 300) {
            Ok(value) => Ok(Tempo { value }),
            Err(error) => Err(error),
        }
    }

    /// Reads the default-length command whose letter is the next token.
    fn parse_length(&mut self) -> (result: Result<DefaultLength, ParseError>)
        requires
            old(self).well_formed(),
            old(self).next_token().token == Token::Length,
        ensures
            final(self).well_formed(),
            final(self).follows(old(self)),
            plain_outcome(result, final(self)@.current) == length_at(
                old(self)@.tokens,
                old(self)@.current as int,
            ),
    {
        self.advance();
        match self.consume_number_in_range(1, 64) {
            Ok(value) => Ok(DefaultLength { value: value as u8 }),
            Err(error) => Err(error),
        }
    }

    /// Reads the size of a relative volume step, where one is written.
    fn parse_step(&mut self) -> (size: i8)
        requires
            old(self).well_formed(),
        ensures
            final(self).well_formed(),
            final(self).follows(old(self)),
            match old(self).next_token().token {
                Token::Number(n) => size == step_size(n) && final(self)@.current == old(
                    self,
                )@.current + 1,
                _ => size == 1 && final(self)@.current == old(self)@.current,
            },
            1 <= size <= 15 || old(self).next_token().token == Token::Number(0),
            0 <= size <= 15,
    {
        if self.check_number() {
            match self.consume_number() {
                Ok(raw) => if raw > 15 {
                    15
                } else {
                    raw as i8
                },
                Err(_) => 1,
            }
        } else {
            1
        }
    }

    /// Reads the volume command whose letter is the next token.
    fn parse_volume(&mut self) -> (result: Result<Volume, ParseError>)
        requires
            old(self).well_formed(),
            old(self).next_token().token == Token::Volume,
        ensures
            final(self).well_formed(),
            final(self).follows(old(self)),
            plain_outcome(result, final(self)@.current) == volume_at(
                old(self)@.tokens,
                old(self)@.current as int,
            ),
    {
        self.advance();
        if self.check_sharp() {
            self.advance();
            let size = self.parse_step();
            Ok(Volume { value: VolumeValue::Relative(size) })
        } else if self.check_flat() {
            self.advance();
            let size = self.parse_step();
            Ok(Volume { value: VolumeValue::Relative(-size) })
        } else {
            match self.consume_number_in_range(0, 15) {
                Ok(value) => Ok(Volume { value: VolumeValue::Absolute(value as u8) }),
                Err(error) => Err(error),
            }
        }
    }

    /// The error for the next token, which begins no command.
    fn no_command(&self) -> (error: ParseError)
        requires
            self.well_formed(),
        ensures
            error@ == command_expected(self.next_token()),
    {
        let found = *self.peek();
        match found.token {
            Token::LoopEnd => ParseError::UnmatchedLoopEnd { position: found.position },
            Token::LoopEscape => ParseError::LoopEscapeOutsideLoop { position: found.position },
            Token::Eof => ParseError::UnexpectedEof {
                expected: String::from_str("command"),
                position: found.position,
            },
            other => ParseError::UnexpectedToken {
                expected: String::from_str("command"),
                found: other,
                position: found.position,
            },
        }
    }

    /// Reads one command. A loop comes back as a `Command::Loop`, with its
    /// body as written.
    fn parse_command(&mut self) -> (result: Result<Command, ParseError>)
        requires
            old(self).well_formed(),
        ensures
            final(self).well_formed(),
            final(self).follows(old(self)),
            outcome(result, final(self)@.current) == command_at(
                old(self)@.tokens,
                old(self)@.current as int,
                old(self)@.loop_depth as nat,
                old(self)@.tuplet_depth as nat,
            ),
            result is Ok ==> old(self)@.current < final(self)@.current,
        decreases old(self)@.tokens.len() - old(self)@.current, 1nat,
    {
        let found = *self.peek();
        match found.token {
            Token::Pitch(pitch) => match self.parse_note(pitch) {
                Ok(note) => Ok(Command::Note(note)),
                Err(error) => Err(error),
            },
            Token::Rest => match self.parse_rest() {
                Ok(rest) => Ok(Command::Rest(rest)),
                Err(error) => Err(error),
            },
            Token::Octave => match self.parse_octave() {
                Ok(octave) => Ok(Command::Octave(octave)),
                Err(error) => Err(error),
            },
            Token::OctaveUp => {
                self.advance();
                Ok(Command::OctaveUp)
            },
            Token::OctaveDown => {
                self.advance();
                Ok(Command::OctaveDown)
            },
            Token::Tempo => match self.parse_tempo() {
                Ok(tempo) => Ok(Command::Tempo(tempo)),
                Err(error) => Err(error),
            },
            Token::Length => match self.parse_length() {
                Ok(length) => Ok(Command::DefaultLength(length)),
                Err(error) => Err(error),
            },
            Token::Volume => match self.parse_volume() {
                Ok(volume) => Ok(Command::Volume(volume)),
                Err(error) => Err(error),
            },
            Token::LoopStart => self.parse_loop(),
            Token::TupletStart => self.parse_tuplet(),
            _ => Err(self.no_command()),
        }
    }

    /// Reads the loop whose `[` is the next token.
    fn parse_loop(&mut self) -> (result: Result<Command, ParseError>)
        requires
            old(self).well_formed(),
            old(self).next_token().token == Token::LoopStart,
        ensures
            final(self).well_formed(),
            final(self).follows(old(self)),
            outcome(result, final(self)@.current) == loop_at(
                old(self)@.tokens,
                old(self)@.current as int,
                old(self)@.loop_depth as nat,
                old(self)@.tuplet_depth as nat,
            ),
            result is Ok ==> old(self)@.current < final(self)@.current,
        decreases old(self)@.tokens.len() - old(self)@.current, 0nat,
    {
        let opening = *self.peek();
        if self.loop_depth >= MAX_LOOP_DEPTH {
            return Err(
                ParseError::LoopNestTooDeep {
                    max_depth: MAX_LOOP_DEPTH,
                    position: opening.position,
                },
            );
        }
        self.advance();
        self.loop_depth += 1;
        let body = self.parse_loop_body(opening.position);
        self.loop_depth -= 1;
        let (commands, escape_index) = match body {
            Ok(body) => body,
            Err(error) => {
                return Err(error);
            },
        };
        self.advance();
        let repeat_count: usize = if self.check_number() {
            let found = *self.peek();
            match self.consume_number() {
                Ok(n) => {
                    if n == 0 || n > 99 {
                        return Err(
                            ParseError::InvalidLoopCount {
                                value: n,
                                range: (1, 99),
                                position: found.position,
                            },
                        );
                    }
                    n as usize
                },
                Err(error) => {
                    return Err(error);
                },
            }
        } else {
            1
        };
        Ok(Command::Loop { commands, escape_index, repeat_count })
    }

    /// Reads the body of a loop up to its `]`, which stays the next token.
    fn parse_loop_body(&mut self, opened_at: usize) -> (result: Result<
        (Vec<Command>, Option<usize>),
        ParseError,
    >)
        requires
            old(self).well_formed(),
        ensures
            final(self).well_formed(),
            final(self).follows(old(self)),
            match result {
                Ok((commands, escape_index)) => loop_body_at(
                    old(self)@.tokens,
                    old(self)@.current as int,
                    opened_at,
                    old(self)@.loop_depth as nat,
                    old(self)@.tuplet_depth as nat,
                    Seq::empty(),
                    None,
                ) == Ok::<(Seq<CommandView>, Option<usize>, int), ParseErrorView>(
                    (view_commands(commands@), escape_index, final(self)@.current as int),
                ) && final(self).next_token().token == Token::LoopEnd,
                Err(error) => loop_body_at(
                    old(self)@.tokens,
                    old(self)@.current as int,
                    opened_at,
                    old(self)@.loop_depth as nat,
                    old(self)@.tuplet_depth as nat,
                    Seq::empty(),
                    None,
                ) == Err::<(Seq<CommandView>, Option<usize>, int), ParseErrorView>(error@),
            },
        decreases old(self)@.tokens.len() - old(self)@.current, 2nat,
    {
        let mut commands: Vec<Command> = Vec::new();
        let mut escape_index: Option<usize> = None;
        proof {
            assert(view_commands(commands@) =~= Seq::<CommandView>::empty());
        }
        loop
            invariant
                self.well_formed(),
                self.follows(old(self)),
                loop_body_at(
                    old(self)@.tokens,
                    old(self)@.current as int,
                    opened_at,
                    old(self)@.loop_depth as nat,
                    old(self)@.tuplet_depth as nat,
                    Seq::empty(),
                    None,
                ) == loop_body_at(
                    self@.tokens,
                    self@.current as int,
                    opened_at,
                    self@.loop_depth as nat,
                    self@.tuplet_depth as nat,
                    view_commands(commands@),
                    escape_index,
                ),
            decreases self@.tokens.len() - self@.current,
        {
            if self.check_loop_end() {
                return Ok((commands, escape_index));
            }
            if self.is_at_end() {
                return Err(ParseError::UnmatchedLoopStart { position: opened_at });
            }
            if self.check_loop_escape() {
                if escape_index.is_some() {
                    return Err(
                        ParseError::MultipleEscapePoints { position: self.peek().position },
                    );
                }
                self.advance();
                proof {
                    lemma_view_commands(commands@);
                }
                escape_index = Some(commands.len());
                continue ;
            }
            match self.parse_command() {
                Ok(command) => {
                    proof {
                        lemma_view_commands_push(commands@, command);
                    }
                    commands.push(command);
                },
                Err(error) => {
                    return Err(error);
                },
            }
        }
    }

    /// Reads the tuplet whose `{` is the next token.
    fn parse_tuplet(&mut self) -> (result: Result<Command, ParseError>)
        requires
            old(self).well_formed(),
            old(self).next_token().token == Token::TupletStart,
        ensures
            final(self).well_formed(),
            final(self).follows(old(self)),
            outcome(result, final(self)@.current) == tuplet_at(
                old(self)@.tokens,
                old(self)@.current as int,
                old(self)@.loop_depth as nat,
                old(self)@.tuplet_depth as nat,
            ),
            result is Ok ==> old(self)@.current < final(self)@.current,
        decreases old(self)@.tokens.len() - old(self)@.current, 0nat,
    {
        let opening = *self.peek();
        if self.tuplet_depth >= MAX_TUPLET_DEPTH {
            return Err(
                ParseError::TupletNestTooDeep {
                    max_depth: MAX_TUPLET_DEPTH,
                    position: opening.position,
                },
            );
        }
        self.advance();
        self.tuplet_depth += 1;
        let body = self.parse_tuplet_body(opening.position);
        self.tuplet_depth -= 1;
        let commands = match body {
            Ok(body) => body,
            Err(error) => {
                return Err(error);
            },
        };
        self.advance();
        let found = *self.peek();
        let count: u8 = match found.token {
            Token::Number(n) => {
                self.advance();
                if n < 2 {
                    return Err(
                        ParseError::InvalidTupletCount { count: n as u8, position: found.position },
                    );
                }
                if n > 99 {
                    99
                } else {
                    n as u8
                }
            },
            _ => {
                return Err(ParseError::TupletCountMissing { position: found.position });
            },
        };
        let base_duration: Option<u8> = if self.check_loop_escape() {
            self.advance();
            match self.consume_number_in_range(1, 64) {
                Ok(base) => Some(base as u8),
                Err(error) => {
                    return Err(error);
                },
            }
        } else {
            None
        };
        Ok(Command::Tuplet { commands, count, base_duration })
    }

    /// Reads the body of a tuplet up to its `}`, which stays the next token.
    fn parse_tuplet_body(&mut self, opened_at: usize) -> (result: Result<Vec<Command>, ParseError>)
        requires
            old(self).well_formed(),
        ensures
            final(self).well_formed(),
            final(self).follows(old(self)),
            match result {
                Ok(commands) => tuplet_body_at(
                    old(self)@.tokens,
                    old(self)@.current as int,
                    opened_at,
                    old(self)@.loop_depth as nat,
                    old(self)@.tuplet_depth as nat,
                    Seq::empty(),
                ) == Ok::<(Seq<CommandView>, int), ParseErrorView>(
                    (view_commands(commands@), final(self)@.current as int),
                ) && final(self).next_token().token == Token::TupletEnd,
                Err(error) => tuplet_body_at(
                    old(self)@.tokens,
                    old(self)@.current as int,
                    opened_at,
                    old(self)@.loop_depth as nat,
                    old(self)@.tuplet_depth as nat,
                    Seq::empty(),
                ) == Err::<(Seq<CommandView>, int), ParseErrorView>(error@),
            },
        decreases old(self)@.tokens.len() - old(self)@.current, 2nat,
    {
        let mut commands: Vec<Command> = Vec::new();
        proof {
            assert(view_commands(commands@) =~= Seq::<CommandView>::empty());
        }
        loop
            invariant
                self.well_formed(),
                self.follows(old(self)),
                tuplet_body_at(
                    old(self)@.tokens,
                    old(self)@.current as int,
                    opened_at,
                    old(self)@.loop_depth as nat,
                    old(self)@.tuplet_depth as nat,
                    Seq::empty(),
                ) == tuplet_body_at(
                    self@.tokens,
                    self@.current as int,
                    opened_at,
                    self@.loop_depth as nat,
                    self@.tuplet_depth as nat,
                    view_commands(commands@),
                ),
            decreases self@.tokens.len() - self@.current,
        {
            if self.check_tuplet_end() {
                return Ok(commands);
            }
            if self.is_at_end() {
                return Err(ParseError::UnclosedTuplet { position: opened_at });
            }
            match self.parse_command() {
                Ok(command) => {
                    proof {
                        lemma_view_commands_push(commands@, command);
                    }
                    commands.push(command);
                },
                Err(error) => {
                    return Err(error);
                },
            }
        }
    }

    /// Compiles the tokens from the next one on: reads command after
    /// command up to the end of the input and replaces every loop that it
    /// reads by the loop's expansion. Loops inside a tuplet stay as they
    /// are. The first error ends the reading. Whatever comes back, as many
    /// loops and tuplets count as open afterwards as before.
    pub fn parse(&mut self) -> (result: Result<Mml, ParseError>)
        requires
            old(self).well_formed(),
        ensures
            final(self).well_formed(),
            final(self).follows(old(self)),
            match result {
                Ok(mml) => piece_at(
                    old(self)@.tokens,
                    old(self)@.current as int,
                    old(self)@.loop_depth as nat,
                    old(self)@.tuplet_depth as nat,
                    Seq::empty(),
                ) == Ok::<Seq<CommandView>, ParseErrorView>(mml@) && final(self).next_token().token
                    == Token::Eof,
                Err(error) => piece_at(
                    old(self)@.tokens,
                    old(self)@.current as int,
                    old(self)@.loop_depth as nat,
                    old(self)@.tuplet_depth as nat,
                    Seq::empty(),
                ) == Err::<Seq<CommandView>, ParseErrorView>(error@),
            },
    {
        let mut commands: Vec<Command> = Vec::new();
        proof {
            assert(view_commands(commands@) =~= Seq::<CommandView>::empty());
        }
        while !self.is_at_end()
            invariant
                self.well_formed(),
                self.follows(old(self)),
                piece_at(
                    old(self)@.tokens,
                    old(self)@.current as int,
                    old(self)@.loop_depth as nat,
                    old(self)@.tuplet_depth as nat,
                    Seq::empty(),
                ) == piece_at(
                    self@.tokens,
                    self@.current as int,
                    self@.loop_depth as nat,
                    self@.tuplet_depth as nat,
                    view_commands(commands@),
                ),
            decreases self@.tokens.len() - self@.current,
        {
            let command = match self.parse_command() {
                Ok(command) => command,
                Err(error) => {
                    return Err(error);
                },
            };
            match command {
                Command::Loop { commands: body, escape_index, repeat_count } => {
                    match expand_loop(body.as_slice(), escape_index, repeat_count) {
                        Ok(mut expanded) => {
                            proof {
                                lemma_view_commands_append(commands@, expanded@);
                            }
                            commands.append(&mut expanded);
                        },
                        Err(error) => {
                            return Err(error);
                        },
                    }
                },
                other => {
                    proof {
                        lemma_view_commands_push(commands@, other);
                        assert(view_commands(commands@).push(other@) =~= view_commands(commands@)
                            + seq![other@]);
                    }
                    commands.push(other);
                },
            }
        }
        Ok(Mml { commands })
    }
}

/// Viewing two sequences of commands in a row gives the two views in a row.
pub proof fn lemma_view_commands_append(first: Seq<Command>, second: Seq<Command>)
    ensures
        view_commands(first + second) == view_commands(first) + view_commands(second),
{
    lemma_view_commands(first);
    lemma_view_commands(second);
    lemma_view_commands(first + second);
    assert(view_commands(first + second) =~= view_commands(first) + view_commands(second));
}

/// What `parse` returns for `text`: an error for a text without any
/// character or with a character or number that is no token; else what the
/// tokens of the text compile to.
pub open spec fn spec_parse(text: Seq<char>) -> Result<Seq<CommandView>, ParseErrorView> {
    if text.len() == 0 {
        Err(ParseErrorView::EmptyInput)
    } else {
        match spec_tokenize(text) {
            Ok(tokens) => piece_at(tokens, 0, 0, 0, Seq::empty()),
            Err(e) => Err(e),
        }
    }
}

/// Compiles notation text into the commands that it stands for. A text
/// that holds white space only compiles to no commands; a text that holds
/// nothing is an error.
pub fn parse(input: &str) -> (result: Result<Mml, ParseError>)
    ensures
        match (result, spec_parse(input@)) {
            (Ok(mml), Ok(commands)) => mml@ == commands,
            (Err(error), Err(e)) => error@ == e,
            _ => false,
        },
        result matches Ok(mml) ==> loop_free(mml@) && playable(mml@),
{
    proof {
        if let Ok(tokens) = spec_tokenize(input@) {
            lemma_piece_holds_no_loop(tokens, 0, 0, 0, Seq::empty());
            lemma_piece_playable(tokens, 0, 0, 0, Seq::empty());
        }
    }
    if input.is_empty() {
        return Err(ParseError::EmptyInput);
    }
    let tokens = match tokenize(input) {
        Ok(tokens) => tokens,
        Err(error) => {
            return Err(error);
        },
    };
    proof {
        lemma_tokens_end_with_eof(input@, 0);
    }
    let mut parser = Parser::new(tokens);
    parser.parse()
}

} // verus!
