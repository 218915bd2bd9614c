//! The lexical units of the notation.

use vstd::prelude::*;
use crate::mml::ast::Pitch;
use crate::text::{decimal_digits, push_decimal};

verus! {

/// A lexical unit. `LoopEscape` is the colon, which marks the escape point
/// of a loop and introduces the base length of a tuplet.
#[derive(Debug, Clone, Copy, PartialEq, Eq, Structural)]
pub enum Token {
    Pitch(Pitch),
    Sharp,
    Flat,
    Dot,
    Number(u16),
    Octave,
    OctaveUp,
    OctaveDown,
    Tempo,
    Length,
    Volume,
    Rest,
    LoopStart,
    LoopEnd,
    LoopEscape,
    Tie,
    TupletStart,
    TupletEnd,
    Eof,
}

/// A token and the offset, in characters, at which it began.
#[derive(Debug, Clone, Copy, PartialEq, Eq, Structural)]
pub struct TokenWithPos {
    pub token: Token,
    pub position: usize,
}

impl TokenWithPos {
    pub fn new(token: Token, position: usize) -> (t: Self)
        ensures
            t == (TokenWithPos { token, position }),
    {
        Self { token, position }
    }
}

/// The name of a pitch.
pub open spec fn pitch_name(pitch: Pitch) -> Seq<char> {
    match pitch {
        Pitch::C => "C"@,
        Pitch::D => "D"@,
        Pitch::E => "E"@,
        Pitch::F => "F"@,
        Pitch::G => "G"@,
        Pitch::A => "A"@,
        Pitch::B => "B"@,
    }
}

/// A token as diagnostics show it: the name of its kind, followed in
/// brackets by the pitch or the number where it carries one.
pub open spec fn token_name(token: Token) -> Seq<char> {
    match token {
        Token::Pitch(p) => "Pitch("@ + pitch_name(p) + ")"@,
        Token::Sharp => "Sharp"@,
        Token::Flat => "Flat"@,
        Token::Dot => "Dot"@,
        Token::Number(n) => "Number("@ + decimal_digits(n as nat) + ")"@,
        Token::Octave => "Octave"@,
        Token::OctaveUp => "OctaveUp"@,
        Token::OctaveDown => "OctaveDown"@,
        Token::Tempo => "Tempo"@,
        Token::Length => "Length"@,
        Token::Volume => "Volume"@,
        Token::Rest => "Rest"@,
        Token::LoopStart => "LoopStart"@,
        Token::LoopEnd => "LoopEnd"@,
        Token::LoopEscape => "LoopEscape"@,
        Token::Tie => "Tie"@,
        Token::TupletStart => "TupletStart"@,
        Token::TupletEnd => "TupletEnd"@,
        Token::Eof => "Eof"@,
    }
}

/// Appends the name of `pitch` to `out`.
pub fn push_pitch_name(out: &mut String, pitch: Pitch)
    ensures
        final(out)@ == old(out)@ + pitch_name(pitch),
{
    match pitch {
        Pitch::C => out.append("C"),
        Pitch::D => out.append("D"),
        Pitch::E => out.append("E"),
        Pitch::F => out.append("F"),
        Pitch::G => out.append("G"),
        Pitch::A => out.append("A"),
        Pitch::B => out.append("B"),
    }
}

/// Appends `token`, as diagnostics show it, to `out`.
pub fn push_token_name(out: &mut String, token: Token)
    ensures
        final(out)@ == old(out)@ + token_name(token),
{
    match token {
        Token::Pitch(p) => {
            out.append("Pitch(");
            push_pitch_name(out, p);
            out.append(")");
            proof {
                assert(final(out)@ =~= old(out)@ + token_name(token));
            }
        },
        Token::Sharp => out.append("Sharp"),
        Token::Flat => out.append("Flat"),
        Token::Dot => out.append("Dot"),
        Token::Number(n) => {
            out.append("Number(");
            push_decimal(out, n as u64);
            out.append(")");
            proof {
                assert(final(out)@ =~= old(out)@ + token_name(token));
            }
        },
        Token::Octave => out.append("Octave"),
        Token::OctaveUp => out.append("OctaveUp"),
        Token::OctaveDown => out.append("OctaveDown"),
        Token::Tempo => out.append("Tempo"),
        Token::Length => out.append("Length"),
        Token::Volume => out.append("Volume"),
        Token::Rest => out.append("Rest"),
        Token::LoopStart => out.append("LoopStart"),
        Token::LoopEnd => out.append("LoopEnd"),
        Token::LoopEscape => out.append("LoopEscape"),
        Token::Tie => out.append("Tie"),
        Token::TupletStart => out.append("TupletStart"),
        Token::TupletEnd => out.append("TupletEnd"),
        Token::Eof => out.append("Eof"),
    }
}

} // verus!
