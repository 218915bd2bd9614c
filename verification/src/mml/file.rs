//! Notation kept in a file: lines of notation, blank lines, and comment
//! lines that begin with `#`.

use vstd::prelude::*;
use crate::text::{char_is_whitespace, chars_of, is_whitespace};

verus! {

/// Where the line that begins at `from` ends: at the next line feed, or at
/// the end of the text.
pub open spec fn line_end(text: Seq<char>, from: int) -> int
    decreases text.len() - from,
{
    if 0 <= from < text.len() && text[from] != '\n' {
        line_end(text, from + 1)
    } else {
        from
    }
}

/// The first offset from `from` up to `to` at which no white space stands;
/// `to` where there is none.
pub open spec fn content_start(text: Seq<char>, from: int, to: int) -> int
    decreases to - from,
{
    if 0 <= from < to <= text.len() && is_whitespace(text[from]) {
        content_start(text, from + 1, to)
    } else {
        from
    }
}

/// The offset after the last character before `to`, down to `from`, that is
/// no white space; `from` where there is none.
pub open spec fn content_end(text: Seq<char>, from: int, to: int) -> int
    decreases to - from,
{
    if 0 <= from < to <= text.len() && is_whitespace(text[to - 1]) {
        content_end(text, from, to - 1)
    } else {
        to
    }
}

/// What the line from `from` up to `to` holds without the white space
/// around it, if that is notation: not nothing, and no comment.
pub open spec fn notation_of_line(text: Seq<char>, from: int, to: int) -> Option<Seq<char>> {
    let start = content_start(text, from, to);
    let end = content_end(text, start, to);
    if start >= end || text[start] == '#' {
        None
    } else {
        Some(text.subrange(start, end))
    }
}

/// The notation of the lines from offset `from` on, joined by single
/// spaces. `first` tells whether no line has been taken yet, so that the
/// next one needs no space before it.
pub open spec fn notation_from(text: Seq<char>, from: int, first: bool) -> Seq<char>
    decreases text.len() - from,
    via notation_from_decreases
{
    if from < 0 || from > text.len() {
        Seq::empty()
    } else {
        let end = line_end(text, from);
        match notation_of_line(text, from, end) {
            Some(line) => (if first {
                line
            } else {
                seq![' '] + line
            }) + (if end < text.len() {
                notation_from(text, end + 1, false)
            } else {
                Seq::empty()
            }),
            None => if end < text.len() {
                notation_from(text, end + 1, first)
            } else {
                Seq::empty()
            },
        }
    }
}

#[via_fn]
proof fn notation_from_decreases(text: Seq<char>, from: int, first: bool) {
    if 0 <= from <= text.len() {
        lemma_line_end(text, from);
    }
}

/// A line ends at or after its start, within the text, at a line feed or
/// at the end, and holds no line feed.
pub proof fn lemma_line_end(text: Seq<char>, from: int)
    requires
        0 <= from <= text.len(),
    ensures
        from <= line_end(text, from) <= text.len(),
        line_end(text, from) < text.len() ==> text[line_end(text, from)] == '\n',
        forall|i: int| from <= i < line_end(text, from) ==> #[trigger] text[i] != '\n',
    decreases text.len() - from,
{
    if from < text.len() && text[from] != '\n' {
        lemma_line_end(text, from + 1);
    }
}

/// The notation that the content of a file holds: every line without the
/// white space around it, except the lines that are empty then and those
/// that begin with `#`; the lines that are left joined by single spaces.
pub open spec fn spec_extract_mml(content: Seq<char>) -> Seq<char> {
    notation_from(content, 0, true)
}

/// Takes the notation out of the content of a file: drops comment lines,
/// which begin with `#`, and blank lines, and joins the other lines, each
/// without the white space around it, by single spaces. The result is
/// empty where the file holds no notation.
pub fn extract_mml(content: &str) -> (mml: String)
    ensures
        mml@ == spec_extract_mml(content@),
{
    let chars = chars_of(content);
    let mut mml = String::new();
    let mut first = true;
    let mut from: usize = 0;
    proof {
        assert(mml@ + notation_from(chars@, 0, true) =~= notation_from(chars@, 0, true));
    }
    loop
        invariant
            from <= chars.len(),
            chars@ == content@,
            spec_extract_mml(content@) == mml@ + notation_from(chars@, from as int, first),
        decreases chars.len() - from,
    {
        let mut end: usize = from;
        while end < chars.len() && chars[end] != '\n'
            invariant
                from <= end <= chars.len(),
                line_end(chars@, from as int) == line_end(chars@, end as int),
            decreases chars.len() - end,
        {
            end += 1;
        }
        let mut start: usize = from;
        while start < end && char_is_whitespace(chars[start])
            invariant
                from <= start <= end <= chars.len(),
                content_start(chars@, from as int, end as int) == content_start(
                    chars@,
                    start as int,
                    end as int,
                ),
            decreases end - start,
        {
            start += 1;
        }
        let mut stop: usize = end;
        while start < stop && char_is_whitespace(chars[stop - 1])
            invariant
                start <= stop <= end <= chars.len(),
                content_end(chars@, start as int, end as int) == content_end(
                    chars@,
                    start as int,
                    stop as int,
                ),
            decreases stop - start,
        {
            stop -= 1;
        }
        let ghost before = mml@;
        let ghost rest = if end < chars.len() {
            notation_from(chars@, end + 1, if start < stop && chars@[start as int] != '#' {
                false
            } else {
                first
            })
        } else {
            Seq::<char>::empty()
        };
        if start < stop && chars[start] != '#' {
            if !first {
                mml.push(' ');
            }
            let ghost opened = mml@;
            let mut i: usize = start;
            while i < stop
                invariant
                    start <= i <= stop <= chars.len(),
                    mml@ == opened + chars@.subrange(start as int, i as int),
                decreases stop - i,
            {
                mml.push(chars[i]);
                proof {
                    assert(chars@.subrange(start as int, i as int).push(chars@[i as int])
                        =~= chars@.subrange(start as int, i + 1));
                }
                i += 1;
            }
            proof {
                let line = chars@.subrange(start as int, stop as int);
                if first {
                    assert(opened =~= before);
                    assert(before + (line + rest) =~= mml@ + rest);
                } else {
                    assert(before + ((seq![' '] + line) + rest) =~= mml@ + rest);
                }
            }
            first = false;
        }
        proof {
            assert(before + Seq::<char>::empty() =~= before);
            assert(mml@ + Seq::<char>::empty() =~= mml@);
        }
        if end >= chars.len() {
            return mml;
        }
        from = end + 1;
    }
}

} // verus!
