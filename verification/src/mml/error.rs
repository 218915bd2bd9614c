//! What can go wrong while a piece of notation is compiled.

use vstd::prelude::*;
use crate::mml::token::{push_token_name, token_name, Token};
use crate::text::{decimal_digits, push_decimal};

verus! {

/// The view of a `ParseError`: the same error with its texts as sequences
/// of characters.
#[allow(inconsistent_fields)]
pub enum ParseErrorView {
    UnexpectedToken { expected: Seq<char>, found: Token, position: usize },
    InvalidNumber { value: u16, range: (u16, u16), position: usize },
    UnexpectedCharacter { character: char, position: usize },
    UnexpectedEof { expected: Seq<char>, position: usize },
    EmptyInput,
    UnmatchedLoopStart { position: usize },
    UnmatchedLoopEnd { position: usize },
    InvalidLoopCount { value: u16, range: (u16, u16), position: usize },
    LoopEscapeOutsideLoop { position: usize },
    MultipleEscapePoints { position: usize },
    LoopNestTooDeep { max_depth: usize, position: usize },
    LoopExpandedTooLarge { max_commands: usize, actual: usize },
    InvalidTieSequence { position: usize },
    TiePitchMismatch { expected: Seq<char>, found: Seq<char>, position: usize },
    EmptyTieChain { position: usize },
    UnclosedTuplet { position: usize },
    TupletCountMissing { position: usize },
    InvalidTupletCount { count: u8, position: usize },
    TupletNestTooDeep { max_depth: usize, position: usize },
}

/// The first failure met while compiling a piece. `position` is the offset,
/// in characters, of the token or character at fault.
#[allow(inconsistent_fields)]
#[derive(Debug, PartialEq)]
pub enum ParseError {
    /// A token stands where another kind was expected.
    UnexpectedToken { expected: String, found: Token, position: usize },
    /// A number lies outside the range that its place allows, or is too
    /// large to be read at all.
    InvalidNumber { value: u16, range: (u16, u16), position: usize },
    /// A character that begins no token.
    UnexpectedCharacter { character: char, position: usize },
    /// The input ends where more was expected.
    UnexpectedEof { expected: String, position: usize },
    /// The input holds no character at all.
    EmptyInput,
    /// A `[` without its `]`.
    UnmatchedLoopStart { position: usize },
    /// A `]` without its `[`.
    UnmatchedLoopEnd { position: usize },
    /// A repeat count outside 1..=99.
    InvalidLoopCount { value: u16, range: (u16, u16), position: usize },
    /// A `:` that is neither in a loop nor after a tuplet's count.
    LoopEscapeOutsideLoop { position: usize },
    /// A second `:` in one loop body.
    MultipleEscapePoints { position: usize },
    /// Loops nested more than `max_depth` deep.
    LoopNestTooDeep { max_depth: usize, position: usize },
    /// A loop that expands to more than `max_commands` commands.
    LoopExpandedTooLarge { max_commands: usize, actual: usize },
    /// A tie that no note value can follow.
    InvalidTieSequence { position: usize },
    /// A tie between two different pitches.
    TiePitchMismatch { expected: String, found: String, position: usize },
    /// A tie that neither a number nor a dot follows.
    EmptyTieChain { position: usize },
    /// A `{` without its `}`.
    UnclosedTuplet { position: usize },
    /// A tuplet without a count after its `}`.
    TupletCountMissing { position: usize },
    /// A tuplet count under 2.
    InvalidTupletCount { count: u8, position: usize },
    /// Tuplets nested more than `max_depth` deep.
    TupletNestTooDeep { max_depth: usize, position: usize },
}

impl View for ParseError {
    type V = ParseErrorView;

    open spec fn view(&self) -> ParseErrorView {
        match self {
            ParseError::UnexpectedToken { expected, found, position } => {
                ParseErrorView::UnexpectedToken {
                    expected: expected@,
                    found: *found,
                    position: *position,
                }
            },
            ParseError::InvalidNumber { value, range, position } => ParseErrorView::InvalidNumber {
                value: *value,
                range: *range,
                position: *position,
            },
            ParseError::UnexpectedCharacter { character, position } => {
                ParseErrorView::UnexpectedCharacter { character: *character, position: *position }
            },
            ParseError::UnexpectedEof { expected, position } => ParseErrorView::UnexpectedEof {
                expected: expected@,
                position: *position,
            },
            ParseError::EmptyInput => ParseErrorView::EmptyInput,
            ParseError::UnmatchedLoopStart { position } => ParseErrorView::UnmatchedLoopStart {
                position: *position,
            },
            ParseError::UnmatchedLoopEnd { position } => ParseErrorView::UnmatchedLoopEnd {
                position: *position,
            },
            ParseError::InvalidLoopCount { value, range, position } => {
                ParseErrorView::InvalidLoopCount {
                    value: *value,
                    range: *range,
                    position: *position,
                }
            },
            ParseError::LoopEscapeOutsideLoop { position } => {
                ParseErrorView::LoopEscapeOutsideLoop { position: *position }
            },
            ParseError::MultipleEscapePoints { position } => ParseErrorView::MultipleEscapePoints {
                position: *position,
            },
            ParseError::LoopNestTooDeep { max_depth, position } => ParseErrorView::LoopNestTooDeep {
                max_depth: *max_depth,
                position: *position,
            },
            ParseError::LoopExpandedTooLarge { max_commands, actual } => {
                ParseErrorView::LoopExpandedTooLarge {
                    max_commands: *max_commands,
                    actual: *actual,
                }
            },
            ParseError::InvalidTieSequence { position } => ParseErrorView::InvalidTieSequence {
                position: *position,
            },
            ParseError::TiePitchMismatch { expected, found, position } => {
                ParseErrorView::TiePitchMismatch {
                    expected: expected@,
                    found: found@,
                    position: *position,
                }
            },
            ParseError::EmptyTieChain { position } => ParseErrorView::EmptyTieChain {
                position: *position,
            },
            ParseError::UnclosedTuplet { position } => ParseErrorView::UnclosedTuplet {
                position: *position,
            },
            ParseError::TupletCountMissing { position } => ParseErrorView::TupletCountMissing {
                position: *position,
            },
            ParseError::InvalidTupletCount { count, position } => {
                ParseErrorView::InvalidTupletCount { count: *count, position: *position }
            },
            ParseError::TupletNestTooDeep { max_depth, position } => {
                ParseErrorView::TupletNestTooDeep { max_depth: *max_depth, position: *position }
            },
        }
    }
}

impl Clone for ParseError {
    fn clone(&self) -> (copy: Self)
        ensures
            copy@ == self@,
    {
        match self {
            ParseError::UnexpectedToken { expected, found, position } => {
                ParseError::UnexpectedToken {
                    expected: expected.clone(),
                    found: *found,
                    position: *position,
                }
            },
            ParseError::InvalidNumber { value, range, position } => ParseError::InvalidNumber {
                value: *value,
                range: (range.0, range.1),
                position: *position,
            },
            ParseError::UnexpectedCharacter { character, position } => {
                ParseError::UnexpectedCharacter { character: *character, position: *position }
            },
            ParseError::UnexpectedEof { expected, position } => ParseError::UnexpectedEof {
                expected: expected.clone(),
                position: *position,
            },
            ParseError::EmptyInput => ParseError::EmptyInput,
            ParseError::UnmatchedLoopStart { position } => ParseError::UnmatchedLoopStart {
                position: *position,
            },
            ParseError::UnmatchedLoopEnd { position } => ParseError::UnmatchedLoopEnd {
                position: *position,
            },
            ParseError::InvalidLoopCount { value, range, position } => {
                ParseError::InvalidLoopCount {
                    value: *value,
                    range: (range.0, range.1),
                    position: *position,
                }
            },
            ParseError::LoopEscapeOutsideLoop { position } => ParseError::LoopEscapeOutsideLoop {
                position: *position,
            },
            ParseError::MultipleEscapePoints { position } => ParseError::MultipleEscapePoints {
                position: *position,
            },
            ParseError::LoopNestTooDeep { max_depth, position } => ParseError::LoopNestTooDeep {
                max_depth: *max_depth,
                position: *position,
            },
            ParseError::LoopExpandedTooLarge { max_commands, actual } => {
                ParseError::LoopExpandedTooLarge { max_commands: *max_commands, actual: *actual }
            },
            ParseError::InvalidTieSequence { position } => ParseError::InvalidTieSequence {
                position: *position,
            },
            ParseError::TiePitchMismatch { expected, found, position } => {
                ParseError::TiePitchMismatch {
                    expected: expected.clone(),
                    found: found.clone(),
                    position: *position,
                }
            },
            ParseError::EmptyTieChain { position } => ParseError::EmptyTieChain {
                position: *position,
            },
            ParseError::UnclosedTuplet { position } => ParseError::UnclosedTuplet {
                position: *position,
            },
            ParseError::TupletCountMissing { position } => ParseError::TupletCountMissing {
                position: *position,
            },
            ParseError::InvalidTupletCount { count, position } => ParseError::InvalidTupletCount {
                count: *count,
                position: *position,
            },
            ParseError::TupletNestTooDeep { max_depth, position } => {
                ParseError::TupletNestTooDeep { max_depth: *max_depth, position: *position }
            },
        }
    }
}

/// The words that open every message which names a position.
pub open spec fn at_position(position: usize) -> Seq<char> {
    "位置 "@ + decimal_digits(position as nat) + ": "@
}

impl ParseErrorView {
    /// Errors about a token, a character or the end of the input.
    pub open spec fn is_token_error(self) -> bool {
        self is UnexpectedToken || self is UnexpectedCharacter || self is UnexpectedEof
            || self is EmptyInput
    }

    /// Errors about a number.
    pub open spec fn is_number_error(self) -> bool {
        self is InvalidNumber
    }

    /// Errors about a loop.
    pub open spec fn is_loop_error(self) -> bool {
        self is UnmatchedLoopStart || self is UnmatchedLoopEnd || self is InvalidLoopCount
            || self is LoopEscapeOutsideLoop || self is MultipleEscapePoints
            || self is LoopNestTooDeep || self is LoopExpandedTooLarge
    }

    /// Errors about a tie.
    pub open spec fn is_tie_error(self) -> bool {
        self is InvalidTieSequence || self is TiePitchMismatch || self is EmptyTieChain
    }

    /// Errors about a tuplet.
    pub open spec fn is_tuplet_error(self) -> bool {
        self is UnclosedTuplet || self is TupletCountMissing || self is InvalidTupletCount
            || self is TupletNestTooDeep
    }

    /// The message that describes the error.
    pub open spec fn message(self) -> Seq<char> {
        match self {
            ParseErrorView::UnexpectedToken { expected, found, position } => at_position(position)
                + "期待されたトークン '"@ + expected + "' ですが、'"@ + token_name(found)
                + "' が見つかりました"@,
            ParseErrorView::InvalidNumber { value, range, position } => at_position(position)
                + "数値 "@ + decimal_digits(value as nat) + " は範囲 "@ + decimal_digits(
                range.0 as nat,
            ) + "-"@ + decimal_digits(range.1 as nat) + " を超えています"@,
            ParseErrorView::UnexpectedCharacter { character, position } => at_position(position)
                + "不明な文字 '"@.push(character) + "' が見つかりました"@,
            ParseErrorView::UnexpectedEof { expected, position } => at_position(position) + "'"@
                + expected + "' が期待されましたが、入力が終了しました"@,
            ParseErrorView::EmptyInput => "空のMML文字列が入力されました"@,
            ParseErrorView::UnmatchedLoopStart { position } => at_position(position)
                + "ループの開始括弧 '[' に対応する ']' がありません"@,
            ParseErrorView::UnmatchedLoopEnd { position } => at_position(position)
                + "ループの終了括弧 ']' に対応する '[' がありません"@,
            ParseErrorView::InvalidLoopCount { value, range, position } => at_position(position)
                + "ループ回数 "@ + decimal_digits(value as nat) + " は範囲 "@ + decimal_digits(
                range.0 as nat,
            ) + "-"@ + decimal_digits(range.1 as nat) + " を超えています"@,
            ParseErrorView::LoopEscapeOutsideLoop { position } => at_position(position)
                + "脱出ポイント ':' がループ外で使用されています"@,
            ParseErrorView::MultipleEscapePoints { position } => at_position(position)
                + "ループ内に複数の脱出ポイント ':' があります"@,
            ParseErrorView::LoopNestTooDeep { max_depth, position } => at_position(position)
                + "ループのネストが深すぎます（最大"@ + decimal_digits(max_depth as nat)
                + "階層）"@,
            ParseErrorView::LoopExpandedTooLarge { max_commands, actual } =>
                "ループ展開後のコマンド数が多すぎます（最大"@ + decimal_digits(
                    max_commands as nat,
                ) + "、実際: "@ + decimal_digits(actual as nat) + "）"@,
            ParseErrorView::InvalidTieSequence { position } => at_position(position)
                + "タイ記号 '&' の後に有効な音価がありません"@,
            ParseErrorView::TiePitchMismatch { expected, found, position } => at_position(position)
                + "タイで連結する音符の音高が異なります（期待: "@ + expected + ", 実際: "@ + found
                + "）"@,
            ParseErrorView::EmptyTieChain { position } => at_position(position)
                + "タイ記号 '&' が音符/休符なしで使用されています"@,
            ParseErrorView::UnclosedTuplet { position } => at_position(position)
                + "連符の閉じ括弧 '}' がありません"@,
            ParseErrorView::TupletCountMissing { position } => at_position(position)
                + "連符数が指定されていません"@,
            ParseErrorView::InvalidTupletCount { count, position } => at_position(position)
                + "無効な連符数です（2以上を指定してください）: "@ + decimal_digits(
                count as nat,
            ),
            ParseErrorView::TupletNestTooDeep { max_depth, position } => at_position(position)
                + "連符のネストが深すぎます（最大"@ + decimal_digits(max_depth as nat)
                + "階層）"@,
        }
    }
}

/// Appends the words that open a message which names a position.
fn push_position(out: &mut String, position: usize)
    ensures
        final(out)@ == old(out)@ + at_position(position),
{
    out.append("位置 ");
    push_decimal(out, position as u64);
    out.append(": ");
    proof {
        assert(final(out)@ =~= old(out)@ + at_position(position));
    }
}

impl ParseError {
    /// Appends the message of an error about a token, a character or the
    /// end of the input.
    fn fmt_token_error(&self, out: &mut String)
        requires
            self@.is_token_error(),
        ensures
            final(out)@ == old(out)@ + self@.message(),
    {
        match self {
            ParseError::UnexpectedToken { expected, found, position } => {
                push_position(out, *position);
                out.append("期待されたトークン '");
                out.append(expected.as_str());
                out.append("' ですが、'");
                push_token_name(out, *found);
                out.append("' が見つかりました");
            },
            ParseError::UnexpectedCharacter { character, position } => {
                push_position(out, *position);
                out.append("不明な文字 '");
                out.push(*character);
                out.append("' が見つかりました");
            },
            ParseError::UnexpectedEof { expected, position } => {
                push_position(out, *position);
                out.append("'");
                out.append(expected.as_str());
                out.append("' が期待されましたが、入力が終了しました");
            },
            _ => {
                out.append("空のMML文字列が入力されました");
            },
        }
        proof {
            assert(final(out)@ =~= old(out)@ + self@.message());
        }
    }

    /// Appends the message of an error about a number.
    fn fmt_number_error(&self, out: &mut String)
        requires
            self@.is_number_error(),
        ensures
            final(out)@ == old(out)@ + self@.message(),
    {
        match self {
            ParseError::InvalidNumber { value, range, position } => {
                push_position(out, *position);
                out.append("数値 ");
                push_decimal(out, *value as u64);
                out.append(" は範囲 ");
                push_decimal(out, range.0 as u64);
                out.append("-");
                push_decimal(out, range.1 as u64);
                out.append(" を超えています");
            },
            _ => {},
        }
        proof {
            assert(final(out)@ =~= old(out)@ + self@.message());
        }
    }

    /// Appends the message of an error about a loop.
    fn fmt_loop_error(&self, out: &mut String)
        requires
            self@.is_loop_error(),
        ensures
            final(out)@ == old(out)@ + self@.message(),
    {
        match self {
            ParseError::UnmatchedLoopStart { position } => {
                push_position(out, *position);
                out.append("ループの開始括弧 '[' に対応する ']' がありません");
            },
            ParseError::UnmatchedLoopEnd { position } => {
                push_position(out, *position);
                out.append("ループの終了括弧 ']' に対応する '[' がありません");
            },
            ParseError::InvalidLoopCount { value, range, position } => {
                push_position(out, *position);
                out.append("ループ回数 ");
                push_decimal(out, *value as u64);
                out.append(" は範囲 ");
                push_decimal(out, range.0 as u64);
                out.append("-");
                push_decimal(out, range.1 as u64);
                out.append(" を超えています");
            },
            ParseError::LoopEscapeOutsideLoop { position } => {
                push_position(out, *position);
                out.append("脱出ポイント ':' がループ外で使用されています");
            },
            ParseError::MultipleEscapePoints { position } => {
                push_position(out, *position);
                out.append("ループ内に複数の脱出ポイント ':' があります");
            },
            ParseError::LoopNestTooDeep { max_depth, position } => {
                push_position(out, *position);
                out.append("ループのネストが深すぎます（最大");
                push_decimal(out, *max_depth as u64);
                out.append("階層）");
            },
            ParseError::LoopExpandedTooLarge { max_commands, actual } => {
                out.append("ループ展開後のコマンド数が多すぎます（最大");
                push_decimal(out, *max_commands as u64);
                out.append("、実際: ");
                push_decimal(out, *actual as u64);
                out.append("）");
            },
            _ => {},
        }
        proof {
            assert(final(out)@ =~= old(out)@ + self@.message());
        }
    }

    /// Appends the message of an error about a tie.
    fn fmt_tie_error(&self, out: &mut String)
        requires
            self@.is_tie_error(),
        ensures
            final(out)@ == old(out)@ + self@.message(),
    {
        match self {
            ParseError::InvalidTieSequence { position } => {
                push_position(out, *position);
                out.append("タイ記号 '&' の後に有効な音価がありません");
            },
            ParseError::TiePitchMismatch { expected, found, position } => {
                push_position(out, *position);
                out.append("タイで連結する音符の音高が異なります（期待: ");
                out.append(expected.as_str());
                out.append(", 実際: ");
                out.append(found.as_str());
                out.append("）");
            },
            ParseError::EmptyTieChain { position } => {
                push_position(out, *position);
                out.append("タイ記号 '&' が音符/休符なしで使用されています");
            },
            _ => {},
        }
        proof {
            assert(final(out)@ =~= old(out)@ + self@.message());
        }
    }

    /// Appends the message of an error about a tuplet.
    fn fmt_tuplet_error(&self, out: &mut String)
        requires
            self@.is_tuplet_error(),
        ensures
            final(out)@ == old(out)@ + self@.message(),
    {
        match self {
            ParseError::UnclosedTuplet { position } => {
                push_position(out, *position);
                out.append("連符の閉じ括弧 '}' がありません");
            },
            ParseError::TupletCountMissing { position } => {
                push_position(out, *position);
                out.append("連符数が指定されていません");
            },
            ParseError::InvalidTupletCount { count, position } => {
                push_position(out, *position);
                out.append("無効な連符数です（2以上を指定してください）: ");
                push_decimal(out, *count as u64);
            },
            ParseError::TupletNestTooDeep { max_depth, position } => {
                push_position(out, *position);
                out.append("連符のネストが深すぎます（最大");
                push_decimal(out, *max_depth as u64);
                out.append("階層）");
            },
            _ => {},
        }
        proof {
            assert(final(out)@ =~= old(out)@ + self@.message());
        }
    }

    /// The message that describes the error.
    pub fn to_string(&self) -> (text: String)
        ensures
            text@ == self@.message(),
    {
        let mut text = String::new();
        match self {
            ParseError::UnexpectedToken { .. }
            | ParseError::UnexpectedCharacter { .. }
            | ParseError::UnexpectedEof { .. }
            | ParseError::EmptyInput => self.fmt_token_error(&mut text),
            ParseError::InvalidNumber { .. } => self.fmt_number_error(&mut text),
            ParseError::UnmatchedLoopStart { .. }
            | ParseError::UnmatchedLoopEnd { .. }
            | ParseError::InvalidLoopCount { .. }
            | ParseError::LoopEscapeOutsideLoop { .. }
            | ParseError::MultipleEscapePoints { .. }
            | ParseError::LoopNestTooDeep { .. }
            | ParseError::LoopExpandedTooLarge { .. } => self.fmt_loop_error(&mut text),
            ParseError::InvalidTieSequence { .. }
            | ParseError::TiePitchMismatch { .. }
            | ParseError::EmptyTieChain { .. } => self.fmt_tie_error(&mut text),
            ParseError::UnclosedTuplet { .. }
            | ParseError::TupletCountMissing { .. }
            | ParseError::InvalidTupletCount { .. }
            | ParseError::TupletNestTooDeep { .. } => self.fmt_tuplet_error(&mut text),
        }
        proof {
            assert(text@ =~= self@.message());
        }
        text
    }
}

} // verus!
