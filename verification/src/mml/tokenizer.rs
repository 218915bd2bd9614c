//! From text to tokens.
//!
//! `spec_tokenize` says which tokens a text holds; `tokenize` computes them
//! in one pass.

use vstd::prelude::*;
use crate::mml::ast::Pitch;
use crate::mml::error::{ParseError, ParseErrorView};
use crate::mml::token::{Token, TokenWithPos};
use crate::text::{
    char_digit_value, char_is_digit, char_is_whitespace, chars_of, is_digit, is_whitespace,
    lemma_number_value_step, number_value,
};

verus! {

/// The token that a character is by itself, if it is one. Letters count in
/// either case; digits and white space are no such tokens.
pub open spec fn symbol_token(c: char) -> Option<Token> {
    if Pitch::spec_from_char(c) is Some {
        Some(Token::Pitch(Pitch::spec_from_char(c)->0))
    } else if c == '+' || c == '#' {
        Some(Token::Sharp)
    } else if c == '-' {
        Some(Token::Flat)
    } else if c == '.' {
        Some(Token::Dot)
    } else if c == 'O' || c == 'o' {
        Some(Token::Octave)
    } else if c == 'T' || c == 't' {
        Some(Token::Tempo)
    } else if c == 'L' || c == 'l' {
        Some(Token::Length)
    } else if c == 'V' || c == 'v' {
        Some(Token::Volume)
    } else if c == 'R' || c == 'r' {
        Some(Token::Rest)
    } else if c == '>' {
        Some(Token::OctaveUp)
    } else if c == '<' {
        Some(Token::OctaveDown)
    } else if c == '[' {
        Some(Token::LoopStart)
    } else if c == ']' {
        Some(Token::LoopEnd)
    } else if c == ':' {
        Some(Token::LoopEscape)
    } else if c == '&' {
        Some(Token::Tie)
    } else if c == '{' {
        Some(Token::TupletStart)
    } else if c == '}' {
        Some(Token::TupletEnd)
    } else {
        None
    }
}

/// Where the run of digits that begins at `from` ends: the offset of the
/// first character at or after `from` that is no digit.
pub open spec fn digits_end(text: Seq<char>, from: int) -> int
    decreases text.len() - from,
{
    if 0 <= from < text.len() && is_digit(text[from]) {
        digits_end(text, from + 1)
    } else {
        from
    }
}

/// The error for a run of digits, beginning at offset `position`, that
/// writes more than a token can hold. The number itself cannot be held, so
/// the error carries a zero in its place.
pub open spec fn number_too_large(position: usize) -> ParseErrorView {
    ParseErrorView::InvalidNumber { value: 0, range: (0, u16::MAX), position }
}

/// `first` put before the tokens of `rest`, or the error of `rest`.
pub open spec fn token_then(
    first: TokenWithPos,
    rest: Result<Seq<TokenWithPos>, ParseErrorView>,
) -> Result<Seq<TokenWithPos>, ParseErrorView> {
    match rest {
        Ok(tokens) => Ok(seq![first] + tokens),
        Err(e) => Err(e),
    }
}

/// The tokens of `text` from offset `pos` on, with the end-of-input token
/// last; or the first error met from there.
pub open spec fn tokens_from(text: Seq<char>, pos: int) -> Result<Seq<TokenWithPos>, ParseErrorView>
    decreases text.len() - pos,
    via tokens_from_decreases
{
    if pos < 0 || pos >= text.len() {
        Ok(seq![TokenWithPos { token: Token::Eof, position: pos as usize }])
    } else if is_whitespace(text[pos]) {
        tokens_from(text, pos + 1)
    } else if is_digit(text[pos]) {
        let end = digits_end(text, pos);
        let value = number_value(text.subrange(pos, end));
        if value > u16::MAX {
            Err(number_too_large(pos as usize))
        } else {
            token_then(
                TokenWithPos { token: Token::Number(value as u16), position: pos as usize },
                tokens_from(text, end),
            )
        }
    } else {
        match symbol_token(text[pos]) {
            Some(token) => token_then(
                TokenWithPos { token, position: pos as usize },
                tokens_from(text, pos + 1),
            ),
            None => Err(
                ParseErrorView::UnexpectedCharacter { character: text[pos], position: pos as usize },
            ),
        }
    }
}

#[via_fn]
proof fn tokens_from_decreases(text: Seq<char>, pos: int) {
    if 0 <= pos < text.len() && is_digit(text[pos]) {
        lemma_digits_end(text, pos);
    }
}

/// What `tokenize` returns for `text`.
pub open spec fn spec_tokenize(text: Seq<char>) -> Result<Seq<TokenWithPos>, ParseErrorView> {
    tokens_from(text, 0)
}

/// A run of digits ends at or after its start and within the text, holds
/// digits only, and stops at a character that is no digit.
pub proof fn lemma_digits_end(text: Seq<char>, from: int)
    requires
        0 <= from <= text.len(),
    ensures
        from <= digits_end(text, from) <= text.len(),
        from < text.len() && is_digit(text[from]) ==> from < digits_end(text, from),
        forall|i: int| from <= i < digits_end(text, from) ==> is_digit(#[trigger] text[i]),
        digits_end(text, from) < text.len() ==> !is_digit(text[digits_end(text, from)]),
    decreases text.len() - from,
{
    if from < text.len() && is_digit(text[from]) {
        lemma_digits_end(text, from + 1);
    }
}

/// Whether a computed result is the expected one: the same tokens, or
/// the same error.
pub open spec fn tokens_match(
    result: Result<Vec<TokenWithPos>, ParseError>,
    expected: Result<Seq<TokenWithPos>, ParseErrorView>,
) -> bool {
    match (result, expected) {
        (Ok(tokens), Ok(t)) => tokens@ == t,
        (Err(error), Err(e)) => error@ == e,
        _ => false,
    }
}

/// `tokens` put before the tokens of `rest`, or the error of `rest`.
pub open spec fn tokens_then(
    tokens: Seq<TokenWithPos>,
    rest: Result<Seq<TokenWithPos>, ParseErrorView>,
) -> Result<Seq<TokenWithPos>, ParseErrorView> {
    match rest {
        Ok(more) => Ok(tokens + more),
        Err(e) => Err(e),
    }
}

proof fn lemma_tokens_then_push(
    tokens: Seq<TokenWithPos>,
    first: TokenWithPos,
    rest: Result<Seq<TokenWithPos>, ParseErrorView>,
)
    ensures
        tokens_then(tokens, token_then(first, rest)) == tokens_then(tokens.push(first), rest),
{
    if let Ok(more) = rest {
        assert(tokens + (seq![first] + more) =~= tokens.push(first) + more);
    }
}

/// Reads the single-character token that `c` is, if it is one.
fn read_symbol(c: char) -> (token: Option<Token>)
    ensures
        token == symbol_token(c),
{
    match Pitch::from_char(c) {
        Some(pitch) => Some(Token::Pitch(pitch)),
        None => match c {
            '+' | '#' => Some(Token::Sharp),
            '-' => Some(Token::Flat),
            '.' => Some(Token::Dot),
            'O' | 'o' => Some(Token::Octave),
            'T' | 't' => Some(Token::Tempo),
            'L' | 'l' => Some(Token::Length),
            'V' | 'v' => Some(Token::Volume),
            'R' | 'r' => Some(Token::Rest),
            '>' => Some(Token::OctaveUp),
            '<' => Some(Token::OctaveDown),
            '[' => Some(Token::LoopStart),
            ']' => Some(Token::LoopEnd),
            ':' => Some(Token::LoopEscape),
            '&' => Some(Token::Tie),
            '{' => Some(Token::TupletStart),
            '}' => Some(Token::TupletEnd),
            _ => None,
        },
    }
}

/// The number that the run of digits beginning at `start` writes, and the
/// number of digits in the run; an error where the number is too large for
/// a token.
fn parse_number(chars: &Vec<char>, start: usize) -> (result: Result<(u16, usize), ParseError>)
    requires
        start < chars.len(),
        is_digit(chars[start as int]),
    ensures
        ({
            let end = digits_end(chars@, start as int);
            let value = number_value(chars@.subrange(start as int, end));
            match result {
                Ok((number, consumed)) => value <= u16::MAX && number == value && start + consumed
                    == end,
                Err(error) => value > u16::MAX && error@ == number_too_large(start),
            }
        }),
{
    let mut value: u32 = 0;
    let mut too_large = false;
    let mut i: usize = start;
    proof {
        lemma_digits_end(chars@, start as int);
        assert(chars@.subrange(start as int, start as int) =~= Seq::<char>::empty());
    }
    while i < chars.len() && char_is_digit(chars[i])
        invariant
            start <= i <= chars.len(),
            digits_end(chars@, start as int) == digits_end(chars@, i as int),
            !too_large ==> value == number_value(chars@.subrange(start as int, i as int)),
            !too_large ==> value <= u16::MAX,
            too_large ==> number_value(chars@.subrange(start as int, i as int)) > u16::MAX,
        decreases chars.len() - i,
    {
        let digit: u8 = char_digit_value(chars[i]);
        proof {
            lemma_number_value_step(chars@, start as int, i as int);
        }
        if !too_large {
            value = value * 10 + digit as u32;
            if value > 65535 {
                too_large = true;
            }
        }
        i += 1;
    }
    if too_large {
        Err(ParseError::InvalidNumber { value: 0, range: (0, u16::MAX), position: start })
    } else {
        Ok((value as u16, i - start))
    }
}

/// Splits notation text into tokens. White space separates tokens and is
/// dropped; a run of digits is one number; the last token is `Eof`. Each
/// token carries the offset, in characters, at which it began. The first
/// character that begins no token, or the first number that is too large to
/// hold, ends the pass with an error.
pub fn tokenize(input: &str) -> (result: Result<Vec<TokenWithPos>, ParseError>)
    ensures
        tokens_match(result, spec_tokenize(input@)),
{
    let chars = chars_of(input);
    let mut tokens: Vec<TokenWithPos> = Vec::new();
    let mut position: usize = 0;
    while position < chars.len()
        invariant
            position <= chars.len(),
            chars@ == input@,
            spec_tokenize(input@) == tokens_then(tokens@, tokens_from(input@, position as int)),
        decreases chars.len() - position,
    {
        let c = chars[position];
        if char_is_whitespace(c) {
            position += 1;
        } else if char_is_digit(c) {
            let start = position;
            match parse_number(&chars, start) {
                Ok((number, consumed)) => {
                    let token = TokenWithPos::new(Token::Number(number), start);
                    proof {
                        lemma_digits_end(chars@, start as int);
                        lemma_tokens_then_push(
                            tokens@,
                            token,
                            tokens_from(input@, (start + consumed) as int),
                        );
                    }
                    position += consumed;
                    tokens.push(token);
                },
                Err(error) => {
                    return Err(error);
                },
            }
        } else {
            match read_symbol(c) {
                Some(symbol) => {
                    let token = TokenWithPos::new(symbol, position);
                    proof {
                        lemma_tokens_then_push(
                            tokens@,
                            token,
                            tokens_from(input@, position as int + 1),
                        );
                    }
                    tokens.push(token);
                    position += 1;
                },
                None => {
                    return Err(ParseError::UnexpectedCharacter { character: c, position });
                },
            }
        }
    }
    let eof = TokenWithPos::new(Token::Eof, position);
    proof {
        assert(tokens@ + seq![eof] =~= tokens@.push(eof));
    }
    tokens.push(eof);
    Ok(tokens)
}

/// Every sequence of tokens that `tokenize` gives ends with `Eof`, and holds
/// `Eof` nowhere else.
pub proof fn lemma_tokens_end_with_eof(text: Seq<char>, pos: int)
    requires
        0 <= pos <= text.len(),
    ensures
        tokens_from(text, pos) matches Ok(tokens) ==> {
            &&& tokens.len() > 0
            &&& tokens.last().token == Token::Eof
            &&& forall|i: int| 0 <= i < tokens.len() - 1 ==> (#[trigger] tokens[i]).token != Token::Eof
        },
    decreases text.len() - pos,
{
    if pos >= text.len() {
    } else if is_whitespace(text[pos]) {
        lemma_tokens_end_with_eof(text, pos + 1);
    } else if is_digit(text[pos]) {
        lemma_digits_end(text, pos);
        lemma_tokens_end_with_eof(text, digits_end(text, pos));
    } else {
        lemma_tokens_end_with_eof(text, pos + 1);
    }
}

/// Tokenizing is a function of the text: two runs on the same text give the
/// same tokens or the same error.
pub proof fn lemma_tokenize_idempotent(
    text: Seq<char>,
    first: Result<Vec<TokenWithPos>, ParseError>,
    second: Result<Vec<TokenWithPos>, ParseError>,
)
    requires
        tokens_match(first, spec_tokenize(text)),
        tokens_match(second, spec_tokenize(text)),
    ensures
        match (first, second) {
            (Ok(a), Ok(b)) => a@ == b@,
            (Err(a), Err(b)) => a@ == b@,
            _ => false,
        },
{
}

} // verus!
