//! Characters and strings: the classes of characters that the notation
//! knows, and decimal numbers as text.

use vstd::prelude::*;
use vstd::std_specs::iter::IteratorSpec;

verus! {

/// `String::push` of the standard library: the string afterwards is the
/// string before with the character at its end.
pub assume_specification[ String::push ](s: &mut String, c: char)
    ensures
        final(s)@ == old(s)@.push(c),
;

/// The characters of Unicode's White_Space property.
pub open spec fn is_whitespace(c: char) -> bool {
    let u = c as u32;
    ||| 0x09 <= u <= 0x0d
    ||| u == 0x20
    ||| u == 0x85
    ||| u == 0xa0
    ||| u == 0x1680
    ||| 0x2000 <= u <= 0x200a
    ||| u == 0x2028
    ||| u == 0x2029
    ||| u == 0x202f
    ||| u == 0x205f
    ||| u == 0x3000
}

/// Whether `c` is white space.
pub fn char_is_whitespace(c: char) -> (b: bool)
    ensures
        b == is_whitespace(c),
{
    let u: u32 = c as u32;
    (0x09 <= u && u <= 0x0d) || u == 0x20 || u == 0x85 || u == 0xa0 || u == 0x1680 || (0x2000 <= u
        && u <= 0x200a) || u == 0x2028 || u == 0x2029 || u == 0x202f || u == 0x205f || u == 0x3000
}

/// The digits `0` to `9`.
pub open spec fn is_digit(c: char) -> bool {
    '0' <= c <= '9'
}

/// The number that a digit stands for.
pub open spec fn digit_value(c: char) -> nat
    recommends
        is_digit(c),
{
    (c as u32 - '0' as u32) as nat
}

/// Whether `c` is one of the digits `0` to `9`.
pub fn char_is_digit(c: char) -> (b: bool)
    ensures
        b == is_digit(c),
{
    '0' <= c && c <= '9'
}

/// The number that the digit `c` stands for.
pub fn char_digit_value(c: char) -> (d: u8)
    requires
        is_digit(c),
    ensures
        d as nat == digit_value(c),
        d <= 9,
{
    (c as u32 - '0' as u32) as u8
}

/// The digit that stands for `d`.
pub open spec fn digit_char(d: nat) -> char
    recommends
        d <= 9,
{
    if d == 0 {
        '0'
    } else if d == 1 {
        '1'
    } else if d == 2 {
        '2'
    } else if d == 3 {
        '3'
    } else if d == 4 {
        '4'
    } else if d == 5 {
        '5'
    } else if d == 6 {
        '6'
    } else if d == 7 {
        '7'
    } else if d == 8 {
        '8'
    } else {
        '9'
    }
}

/// `n` written in decimal, without leading zeros.
pub open spec fn decimal_digits(n: nat) -> Seq<char>
    decreases n,
{
    if n < 10 {
        seq![digit_char(n)]
    } else {
        decimal_digits(n / 10).push(digit_char(n % 10))
    }
}

/// Appends `n` in decimal to `s`.
pub fn push_decimal(s: &mut String, n: u64)
    ensures
        final(s)@ == old(s)@ + decimal_digits(n as nat),
    decreases n,
{
    if n >= 10 {
        push_decimal(s, n / 10);
    }
    let d: u8 = (n % 10) as u8;
    let c: char = match d {
        0 => '0',
        1 => '1',
        2 => '2',
        3 => '3',
        4 => '4',
        5 => '5',
        6 => '6',
        7 => '7',
        8 => '8',
        _ => '9',
    };
    s.push(c);
    proof {
        assert(final(s)@ =~= old(s)@ + decimal_digits(n as nat));
    }
}

/// The number that a run of digits writes in decimal.
pub open spec fn number_value(digits: Seq<char>) -> nat
    decreases digits.len(),
{
    if digits.len() == 0 {
        0
    } else {
        number_value(digits.drop_last()) * 10 + digit_value(digits.last())
    }
}

/// Reading one more digit multiplies by ten and adds the digit.
pub proof fn lemma_number_value_step(text: Seq<char>, from: int, to: int)
    requires
        0 <= from <= to < text.len(),
    ensures
        number_value(text.subrange(from, to + 1)) == number_value(text.subrange(from, to)) * 10
            + digit_value(text[to]),
{
    assert(text.subrange(from, to + 1).drop_last() == text.subrange(from, to));
}

/// Whether every character of `text` is a digit.
pub open spec fn all_digits(text: Seq<char>) -> bool {
    forall|i: int| 0 <= i < text.len() ==> is_digit(#[trigger] text[i])
}

/// The number that `text` writes in decimal: a plus sign or none, then one
/// digit or more and nothing else. `None` for every other text.
pub open spec fn decimal_value(text: Seq<char>) -> Option<nat> {
    let digits = if text.len() > 0 && text[0] == '+' {
        text.subrange(1, text.len() as int)
    } else {
        text
    };
    if digits.len() > 0 && all_digits(digits) {
        Some(number_value(digits))
    } else {
        None
    }
}

/// The number that `text` writes, where it writes one that is at most
/// `max`.
pub open spec fn decimal_up_to(text: Seq<char>, max: u64) -> Option<u64> {
    match decimal_value(text) {
        Some(value) => if value <= max {
            Some(value as u64)
        } else {
            None
        },
        None => None,
    }
}

/// Reads `text` as a decimal number of at most `max`: a plus sign or none,
/// then digits only, at least one.
pub fn parse_decimal(text: &Vec<char>, max: u64) -> (number: Option<u64>)
    ensures
        number == decimal_up_to(text@, max),
{
    let start: usize = if text.len() > 0 && text[0] == '+' {
        1
    } else {
        0
    };
    let ghost digits = text@.subrange(start as int, text@.len() as int);
    if start >= text.len() {
        return None;
    }
    let mut value: u64 = 0;
    let mut too_large = false;
    let mut i: usize = start;
    proof {
        assert(text@.subrange(start as int, start as int) =~= Seq::<char>::empty());
        if start == 0 {
            assert(digits =~= text@);
        }
    }
    while i < text.len()
        invariant
            start <= i <= text.len(),
            digits == text@.subrange(start as int, text@.len() as int),
            digits.len() > 0,
            decimal_value(text@) == (if all_digits(digits) {
                Some(number_value(digits))
            } else {
                None
            }),
            forall|j: int| start <= j < i ==> is_digit(#[trigger] text@[j]),
            !too_large ==> value == number_value(text@.subrange(start as int, i as int)),
            !too_large ==> value <= max,
            too_large ==> number_value(text@.subrange(start as int, i as int)) > max,
        decreases text.len() - i,
    {
        if !char_is_digit(text[i]) {
            proof {
                assert(!is_digit(digits[i - start]));
            }
            return None;
        }
        let digit: u8 = char_digit_value(text[i]);
        proof {
            lemma_number_value_step(text@, start as int, i as int);
        }
        if !too_large {
            match value.checked_mul(10) {
                Some(tens) => match tens.checked_add(digit as u64) {
                    Some(next) => {
                        if next <= max {
                            value = next;
                        } else {
                            too_large = true;
                        }
                    },
                    None => {
                        too_large = true;
                    },
                },
                None => {
                    too_large = true;
                },
            }
        }
        i += 1;
    }
    proof {
        assert(text@.subrange(start as int, i as int) == digits);
        assert forall|j: int| 0 <= j < digits.len() implies is_digit(#[trigger] digits[j]) by {
            assert(digits[j] == text@[j + start]);
        }
    }
    if too_large {
        None
    } else {
        Some(value)
    }
}

/// Whether `needle` stands in `haystack` at offset `at`.
pub open spec fn occurs_at(haystack: Seq<char>, needle: Seq<char>, at: int) -> bool {
    0 <= at && at + needle.len() <= haystack.len() && haystack.subrange(
        at,
        at + needle.len(),
    ) == needle
}

/// Whether `needle` stands somewhere in `haystack`. The empty text stands
/// in every text.
pub open spec fn contains(haystack: Seq<char>, needle: Seq<char>) -> bool {
    exists|at: int| occurs_at(haystack, needle, at)
}

/// Whether `needle` stands in `haystack` at offset `at`.
fn matches_at(haystack: &Vec<char>, needle: &Vec<char>, at: usize) -> (found: bool)
    requires
        at + needle.len() <= haystack.len(),
    ensures
        found == occurs_at(haystack@, needle@, at as int),
{
    let mut i: usize = 0;
    while i < needle.len()
        invariant
            i <= needle.len(),
            at + needle.len() <= haystack.len(),
            forall|j: int| 0 <= j < i ==> haystack@[at + j] == needle@[j],
        decreases needle.len() - i,
    {
        if haystack[at + i] != needle[i] {
            proof {
                let part = haystack@.subrange(at as int, at + needle@.len());
                assert(part[i as int] == haystack@[at + i]);
            }
            return false;
        }
        i += 1;
    }
    proof {
        assert(haystack@.subrange(at as int, at + needle@.len()) =~= needle@);
    }
    true
}

/// Whether `needle` stands somewhere in `haystack`.
pub fn text_contains(haystack: &Vec<char>, needle: &Vec<char>) -> (found: bool)
    ensures
        found == contains(haystack@, needle@),
{
    if needle.len() > haystack.len() {
        return false;
    }
    let last: usize = haystack.len() - needle.len();
    let mut at: usize = 0;
    loop
        invariant
            at <= last,
            last == haystack.len() - needle.len(),
            forall|j: int| 0 <= j < at ==> !occurs_at(haystack@, needle@, j),
        decreases last - at,
    {
        if matches_at(haystack, needle, at) {
            return true;
        }
        if at == last {
            return false;
        }
        at += 1;
    }
}

/// Whether two texts hold the same characters.
pub fn text_equals(a: &Vec<char>, b: &Vec<char>) -> (same: bool)
    ensures
        same == (a@ == b@),
{
    if a.len() != b.len() {
        return false;
    }
    let found = matches_at(a, b, 0);
    proof {
        assert(a@.subrange(0, a@.len() as int) =~= a@);
    }
    found
}

/// The characters of `s`, in order.
pub fn chars_of(s: &str) -> (chars: Vec<char>)
    ensures
        chars@ == s@,
{
    let mut chars: Vec<char> = Vec::new();
    for c in it: s.chars()
        invariant
            it.seq() == s@,
            chars@ == it.seq().subrange(0, it.index() as int),
    {
        chars.push(c);
    }
    proof {
        assert(chars@ =~= s@);
    }
    chars
}

} // verus!
