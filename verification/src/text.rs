//! Characters and strings: the character classes of the source language,
//! and the few string operations the rest of the library is built on.
use vstd::prelude::*;

verus! {

/// Whether `c` has Unicode's Alphabetic property, as `char::is_alphabetic`
/// decides it.
pub uninterp spec fn unicode_alphabetic(c: char) -> bool;

/// `char::is_alphabetic` is a function of the character alone; the library
/// asks it about characters beyond ASCII only.
pub assume_specification[ char::is_alphabetic ](ch: char) -> (alphabetic: bool)
    ensures
        alphabetic == unicode_alphabetic(ch),
;

/// `String::push` appends one character to the end of the string.
pub assume_specification[ String::push ](string: &mut String, ch: char)
    ensures
        final(string)@ == old(string)@.push(ch),
;

/// A letter: an ASCII letter, or beyond ASCII whatever Unicode calls
/// alphabetic.
pub open spec fn is_alpha(c: char) -> bool {
    if c <= '\x7f' {
        ('a' <= c && c <= 'z') || ('A' <= c && c <= 'Z')
    } else {
        unicode_alphabetic(c)
    }
}

/// A decimal digit.
pub open spec fn is_digit(c: char) -> bool {
    '0' <= c && c <= '9'
}

/// A letter or a digit.
pub open spec fn is_alphanum(c: char) -> bool {
    is_alpha(c) || is_digit(c)
}

/// An additive operator.
pub open spec fn is_addop(c: char) -> bool {
    c == '+' || c == '-'
}

/// Blank space inside a line: a space or a tab. A line terminator is none.
pub open spec fn is_whitespace(c: char) -> bool {
    c == ' ' || c == '\t'
}

/// A character that ends a line.
pub open spec fn is_line_terminator(c: char) -> bool {
    c == '\n' || c == '\r'
}

/// The number that the decimal digit `c` stands for.
pub open spec fn digit_value(c: char) -> int
    recommends
        is_digit(c),
{
    c as int - '0' as int
}

/// The character that stands for a digit's value.
pub open spec fn digit_of(value: nat) -> char
    recommends
        value < 10,
{
    ('0' as int + value) as char
}

/// `n` in decimal, without leading zeros.
pub open spec fn decimal(n: nat) -> Seq<char>
    decreases n,
{
    if n < 10 {
        seq![digit_of(n)]
    } else {
        decimal(n / 10).push(digit_of(n % 10))
    }
}

/// How many characters of `text` from `from` on come before the first
/// `stop`, or before the end where there is none.
pub open spec fn distance_to(text: Seq<char>, from: int, stop: char) -> nat
    decreases text.len() - from,
{
    if 0 <= from < text.len() && text[from] != stop {
        1 + distance_to(text, from + 1, stop)
    } else {
        0
    }
}

/// `text` without its line terminators.
pub open spec fn without_line_terminators(text: Seq<char>) -> Seq<char> {
    text.filter(|c: char| !is_line_terminator(c))
}

/// Whether `c` is a letter.
pub fn alpha(c: char) -> (yes: bool)
    ensures
        yes == is_alpha(c),
{
    if c <= '\x7f' {
        ('a' <= c && c <= 'z') || ('A' <= c && c <= 'Z')
    } else {
        c.is_alphabetic()
    }
}

/// Whether `c` is a decimal digit.
pub fn digit(c: char) -> (yes: bool)
    ensures
        yes == is_digit(c),
{
    '0' <= c && c <= '9'
}

/// The value of a decimal digit, as a register holds it.
pub fn value_of_digit(c: char) -> (value: isize)
    requires
        is_digit(c),
    ensures
        value == digit_value(c),
        0 <= value <= 9,
{
    (c as u32 - '0' as u32) as isize
}

/// Appends `n` in decimal to `text`.
pub fn push_decimal(text: &mut String, n: usize)
    ensures
        final(text)@ == old(text)@ + decimal(n as nat),
    decreases n,
{
    if n >= 10 {
        push_decimal(text, n / 10);
    }
    let last = (n % 10) as u8;
    text.push((48u8 + last) as char);
    proof {
        if n >= 10 {
            assert(old(text)@ + decimal(n as nat) == (old(text)@ + decimal((n / 10) as nat)).push(
                digit_of((n % 10) as nat),
            ));
        } else {
            assert(old(text)@ + decimal(n as nat) == old(text)@.push(digit_of(n as nat)));
        }
    }
}

/// The index of the first `stop` in `text` at or after `from`, or the
/// length of `text` where there is none.
pub fn find(text: &[char], from: usize, stop: char) -> (at: usize)
    requires
        from <= text@.len(),
    ensures
        at == from + distance_to(text@, from as int, stop),
        from <= at <= text@.len(),
        at < text@.len() ==> text@[at as int] == stop,
{
    let mut at: usize = from;
    while at < text.len() && text[at] != stop
        invariant
            from <= at <= text@.len(),
            at + distance_to(text@, at as int, stop) == from + distance_to(text@, from as int, stop),
        decreases text@.len() - at,
    {
        at += 1;
    }
    at
}

/// The characters of `text`, in order.
pub fn chars_of(text: &str) -> (chars: Vec<char>)
    ensures
        chars@ == text@,
{
    broadcast use vstd::string::group_string_axioms;

    let mut chars: Vec<char> = Vec::new();
    for c in it: text.chars()
        invariant
            it.seq() == text@,
            chars@ == it.seq().take(it.index()),
    {
        chars.push(c);
    }
    chars
}

/// The characters of `text` that end no line, in order.
pub fn strip_line_terminators(text: &str) -> (kept: Vec<char>)
    ensures
        kept@ == without_line_terminators(text@),
{
    broadcast use vstd::string::group_string_axioms;

    let mut kept: Vec<char> = Vec::new();
    proof {
        reveal(Seq::filter);
    }
    for c in it: text.chars()
        invariant
            it.seq() == text@,
            kept@ == without_line_terminators(it.seq().take(it.index())),
    {
        proof {
            let seen = it.seq().take(it.index());
            let next = it.seq().take(it.index() + 1);
            assert(next.drop_last() == seen);
            assert(next.last() == c);
            reveal(Seq::filter);
        }
        if c != '\n' && c != '\r' {
            kept.push(c);
        }
    }
    proof {
        assert(text@.take(text@.len() as int) == text@);
    }
    kept
}

} // verus!
