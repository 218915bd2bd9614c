//! What the commands show of a piece.

use vstd::prelude::*;
use crate::mml::file::{content_end, content_start};
use crate::text::{char_is_whitespace, chars_of};

verus! {

/// How many characters of a text are kept where it is cut to `max_len`
/// characters: three less, to make room for the dots.
pub open spec fn kept(max_len: usize) -> int {
    if max_len >= 3 {
        max_len - 3
    } else {
        0
    }
}

/// `mml` as a list shows it: whole where it has at most `max_len`
/// characters, else its beginning followed by three dots, `max_len`
/// characters in all.
pub open spec fn truncated(mml: Seq<char>, max_len: usize) -> Seq<char> {
    if mml.len() <= max_len {
        mml
    } else {
        mml.subrange(0, kept(max_len)) + "..."@
    }
}

/// Cuts a piece of notation to at most `max_len` characters for display. A
/// text that is cut ends in three dots.
pub fn truncate_mml(mml: &str, max_len: usize) -> (shown: String)
    ensures
        shown@ == truncated(mml@, max_len),
{
    let chars = chars_of(mml);
    if chars.len() <= max_len {
        return String::from_str(mml);
    }
    let keep: usize = if max_len >= 3 {
        max_len - 3
    } else {
        0
    };
    let mut shown = String::new();
    let mut i: usize = 0;
    while i < keep
        invariant
            i <= keep < chars.len(),
            chars@ == mml@,
            shown@ == mml@.subrange(0, i as int),
        decreases keep - i,
    {
        shown.push(chars[i]);
        proof {
            assert(mml@.subrange(0, i as int).push(chars@[i as int]) =~= mml@.subrange(0, i + 1));
        }
        i += 1;
    }
    shown.append("...");
    shown
}

/// The letter `c` in lower case, where it is one of the letters `A` to
/// `Z`; else `c` itself.
pub open spec fn lowered(c: char) -> char {
    if 'A' <= c <= 'Z' {
        ((c as u8) + 32) as char
    } else {
        c
    }
}

/// Whether `text` from `from` up to `to` is `word`, letters in either case
/// counting as the same.
pub open spec fn is_word(text: Seq<char>, from: int, to: int, word: Seq<char>) -> bool {
    to - from == word.len() && forall|i: int|
        0 <= i < word.len() ==> lowered(#[trigger] text[from + i]) == word[i]
}

/// What an answer to a yes-or-no question says: yes for `y` or `yes`, no
/// for `n` or `no`, in either case and with any white space around it;
/// nothing for any other answer.
pub open spec fn confirmation(answer: Seq<char>) -> Option<bool> {
    let from = content_start(answer, 0, answer.len() as int);
    let to = content_end(answer, from, answer.len() as int);
    if is_word(answer, from, to, "y"@) || is_word(answer, from, to, "yes"@) {
        Some(true)
    } else if is_word(answer, from, to, "n"@) || is_word(answer, from, to, "no"@) {
        Some(false)
    } else {
        None
    }
}

/// The letter `c` in lower case; see `lowered`.
fn lower(c: char) -> (l: char)
    ensures
        l == lowered(c),
{
    if 'A' <= c && c <= 'Z' {
        ((c as u8) + 32) as char
    } else {
        c
    }
}

/// Whether `text` from `from` up to `to` is `word`; see `is_word`.
fn matches_word(text: &Vec<char>, from: usize, to: usize, word: &Vec<char>) -> (same: bool)
    requires
        from <= to <= text.len(),
    ensures
        same == is_word(text@, from as int, to as int, word@),
{
    if to - from != word.len() {
        return false;
    }
    let mut i: usize = 0;
    while i < word.len()
        invariant
            i <= word.len(),
            from <= to <= text.len(),
            to - from == word.len(),
            forall|j: int| 0 <= j < i ==> lowered(#[trigger] text@[from + j]) == word@[j],
        decreases word.len() - i,
    {
        if lower(text[from + i]) != word[i] {
            return false;
        }
        i += 1;
    }
    true
}

/// Reads the answer to a yes-or-no question: `Some(true)` for `y` or
/// `yes`, `Some(false)` for `n` or `no`, whatever the case of the letters
/// and the white space around them, and `None` for anything else.
pub fn read_confirmation(answer: &str) -> (reading: Option<bool>)
    ensures
        reading == confirmation(answer@),
{
    let chars = chars_of(answer);
    let mut from: usize = 0;
    while from < chars.len() && char_is_whitespace(chars[from])
        invariant
            from <= chars.len(),
            content_start(chars@, 0, chars@.len() as int) == content_start(
                chars@,
                from as int,
                chars@.len() as int,
            ),
        decreases chars.len() - from,
    {
        from += 1;
    }
    let mut to: usize = chars.len();
    while from < to && char_is_whitespace(chars[to - 1])
        invariant
            from <= to <= chars.len(),
            content_end(chars@, from as int, chars@.len() as int) == content_end(
                chars@,
                from as int,
                to as int,
            ),
        decreases to - from,
    {
        to -= 1;
    }
    if matches_word(&chars, from, to, &chars_of("y")) || matches_word(
        &chars,
        from,
        to,
        &chars_of("yes"),
    ) {
        Some(true)
    } else if matches_word(&chars, from, to, &chars_of("n")) || matches_word(
        &chars,
        from,
        to,
        &chars_of("no"),
    ) {
        Some(false)
    } else {
        None
    }
}

} // verus!
