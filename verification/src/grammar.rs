//! The source language and the code for it, as mathematical functions:
//! for each nonterminal, what the parser consumes from a position of the
//! source on and which lines it emits.
//!
//! ```text
//! program    = blank* block
//! block      = '{' statement* '}'
//! statement  = assignment ';'
//! assignment = blank* name '=' expression
//! expression = (term | <nothing, before a sign>) (('+' | '-') term)*
//! term       = factor (('*' | '/') factor)*
//! factor     = '(' expression ')' | name | name '(' ')' | digit
//! ```
//!
//! Blanks are skipped after every token, never before the first.
use crate::assembly::{
    add_popped, call, clear_d0, diagnostic, divide_d1, load_address, load_immediate, load_variable,
    multiply_popped, negate_d0, pop_d1, push_d0, store_d0, subtract_popped,
};
use crate::error::{CompilerError, Expected};
use crate::text::{is_alpha, is_alphanum, is_digit, is_whitespace};
use vstd::prelude::*;

verus! {

/// What parsing one piece of the source did: how many characters it
/// consumed, which lines it emitted, and the failure that ended it, if one
/// did. The diagnostic of a failure is the last of its lines.
pub struct Parsed {
    pub consumed: nat,
    pub lines: Seq<Seq<char>>,
    pub failure: Option<Expected>,
}

impl Parsed {
    /// Nothing consumed, nothing emitted.
    pub open spec fn nothing() -> Parsed {
        Parsed { consumed: 0, lines: Seq::empty(), failure: None }
    }

    /// `count` characters consumed without a line.
    pub open spec fn skipped(count: nat) -> Parsed {
        Parsed { consumed: count, lines: Seq::empty(), failure: None }
    }

    /// One line emitted.
    pub open spec fn emitted(line: Seq<char>) -> Parsed {
        Parsed { consumed: 0, lines: seq![line], failure: None }
    }

    /// A required token was missing: its diagnostic is emitted.
    pub open spec fn rejected(what: Expected) -> Parsed {
        Parsed { consumed: 0, lines: seq![diagnostic(what)], failure: Some(what) }
    }

    /// This piece followed by `next`, which was parsed where this one
    /// ended: the outcome is that of `next`.
    pub open spec fn with(self, next: Parsed) -> Parsed {
        Parsed {
            consumed: self.consumed + next.consumed,
            lines: self.lines + next.lines,
            failure: next.failure,
        }
    }

    /// This piece and then `next`, unless this piece failed: a failure
    /// ends the parse.
    pub open spec fn and(self, next: Parsed) -> Parsed {
        if self.failure is Some {
            self
        } else {
            self.with(next)
        }
    }

    /// Following one piece by two others is the same in either grouping.
    pub proof fn lemma_with_associative(first: Parsed, second: Parsed, third: Parsed)
        ensures
            first.with(second).with(third) == first.with(second.with(third)),
    {
        assert(first.with(second).with(third).lines == first.with(second.with(third)).lines);
    }

    /// Following a piece that succeeded by nothing leaves it as it is.
    pub proof fn lemma_with_nothing(first: Parsed)
        requires
            first.failure is None,
        ensures
            first.with(Parsed::nothing()) == first,
    {
        assert(first.with(Parsed::nothing()).lines == first.lines);
    }

    /// The outcome as a function returns it.
    pub open spec fn result(self) -> Result<(), CompilerError> {
        match self.failure {
            None => Ok(()),
            Some(what) => Err(CompilerError::ExpectedToken(what)),
        }
    }
}

/// The number of characters from `at` to the end of the source.
pub open spec fn remaining(source: Seq<char>, at: int) -> nat {
    if at <= source.len() {
        (source.len() - at) as nat
    } else {
        0
    }
}

/// The character under the cursor, or none at the end of the source.
pub open spec fn lookahead(source: Seq<char>, at: int) -> Option<char> {
    if 0 <= at < source.len() {
        Some(source[at])
    } else {
        None
    }
}

/// How far the cursor moves in one step: by one character, or not at all
/// at the end of the source.
pub open spec fn step(source: Seq<char>, at: int) -> nat {
    if 0 <= at < source.len() {
        1
    } else {
        0
    }
}

/// The length of the run of blanks that starts at `at`.
pub open spec fn blank_run(source: Seq<char>, at: int) -> nat
    decreases source.len() - at,
{
    if 0 <= at < source.len() && is_whitespace(source[at]) {
        1 + blank_run(source, at + 1)
    } else {
        0
    }
}

/// The length of the run of letters and digits that starts at `at`.
pub open spec fn name_run(source: Seq<char>, at: int) -> nat
    decreases source.len() - at,
{
    if 0 <= at < source.len() && is_alphanum(source[at]) {
        1 + name_run(source, at + 1)
    } else {
        0
    }
}

/// Whether the lookahead is the character `c`.
pub open spec fn sees(source: Seq<char>, at: int, c: char) -> bool {
    lookahead(source, at) == Some(c)
}

/// Whether the lookahead is a letter.
pub open spec fn sees_letter(source: Seq<char>, at: int) -> bool {
    0 <= at < source.len() && is_alpha(source[at])
}

/// Whether the lookahead is a digit.
pub open spec fn sees_digit(source: Seq<char>, at: int) -> bool {
    0 <= at < source.len() && is_digit(source[at])
}

/// The token `expected` and the blanks after it.
pub open spec fn match_char(source: Seq<char>, at: int, expected: char) -> Parsed {
    if sees(source, at, expected) {
        Parsed::skipped(1 + blank_run(source, at + 1))
    } else {
        Parsed::rejected(Expected::Char(expected))
    }
}

/// The name that starts at `at`.
pub open spec fn name_at(source: Seq<char>, at: int) -> Seq<char> {
    source.subrange(at, at + name_run(source, at))
}

/// A name and the blanks after it.
pub open spec fn name(source: Seq<char>, at: int) -> Parsed {
    if sees_letter(source, at) {
        Parsed::skipped(name_run(source, at) + blank_run(source, at + name_run(source, at)))
    } else {
        Parsed::rejected(Expected::Name)
    }
}

/// A single digit and the blanks after it.
pub open spec fn number(source: Seq<char>, at: int) -> Parsed {
    if sees_digit(source, at) {
        Parsed::skipped(1 + blank_run(source, at + 1))
    } else {
        Parsed::rejected(Expected::Integer)
    }
}

/// A name, which loads the variable of that name, or a name followed by
/// `()`, which calls the subroutine of that name.
pub open spec fn ident(source: Seq<char>, at: int) -> Parsed {
    let named = name(source, at);
    if sees(source, at + named.consumed, '(') {
        let opened = named.and(match_char(source, at + named.consumed, '('));
        let closed = opened.and(match_char(source, at + opened.consumed, ')'));
        closed.and(Parsed::emitted(call(name_at(source, at))))
    } else {
        named.and(Parsed::emitted(load_variable(name_at(source, at))))
    }
}

/// A parenthesized expression, an identifier, or a single digit.
pub open spec fn factor(source: Seq<char>, at: int) -> Parsed
    decreases remaining(source, at), 0int,
{
    if sees(source, at, '(') {
        let opened = match_char(source, at, '(');
        let inner = opened.and(expression(source, at + opened.consumed));
        inner.and(match_char(source, at + inner.consumed, ')'))
    } else if sees_letter(source, at) {
        ident(source, at)
    } else {
        number(source, at).and(Parsed::emitted(load_immediate(source[at])))
    }
}

/// The multiplications and divisions that follow the first factor of a
/// term. Each pushes the value so far, parses the operator and a factor,
/// and emits the lines that combine the two.
pub open spec fn term_tail(source: Seq<char>, at: int) -> Parsed
    decreases remaining(source, at), 1int,
{
    if sees(source, at, '*') {
        let operator = Parsed::emitted(push_d0()).with(match_char(source, at, '*'));
        let right = operator.and(factor(source, at + operator.consumed));
        let product = right.and(Parsed::emitted(multiply_popped()));
        product.and(term_tail(source, at + product.consumed))
    } else if sees(source, at, '/') {
        let operator = Parsed::emitted(push_d0()).with(match_char(source, at, '/'));
        let right = operator.and(factor(source, at + operator.consumed));
        let quotient = right.and(Parsed::emitted(pop_d1()).with(Parsed::emitted(divide_d1())));
        quotient.and(term_tail(source, at + quotient.consumed))
    } else {
        Parsed::nothing()
    }
}

/// Factors joined by `*` and `/`, from left to right.
pub open spec fn term(source: Seq<char>, at: int) -> Parsed
    decreases remaining(source, at), 2int,
{
    let first = factor(source, at);
    first.and(term_tail(source, at + first.consumed))
}

/// The additions and subtractions that follow the start of an
/// expression. Each pushes the value so far, parses the operator and a
/// term, and emits the lines that combine the two.
pub open spec fn expression_tail(source: Seq<char>, at: int) -> Parsed
    decreases remaining(source, at), 3int,
{
    if sees(source, at, '+') {
        let operator = Parsed::emitted(push_d0()).with(match_char(source, at, '+'));
        let right = operator.and(term(source, at + operator.consumed));
        let sum = right.and(Parsed::emitted(add_popped()));
        sum.and(expression_tail(source, at + sum.consumed))
    } else if sees(source, at, '-') {
        let operator = Parsed::emitted(push_d0()).with(match_char(source, at, '-'));
        let right = operator.and(term(source, at + operator.consumed));
        let difference = right.and(
            Parsed::emitted(subtract_popped()).with(Parsed::emitted(negate_d0())),
        );
        difference.and(expression_tail(source, at + difference.consumed))
    } else {
        Parsed::nothing()
    }
}

/// Terms joined by `+` and `-`, from left to right. Before a leading
/// sign the value so far is zero: D0 is cleared and no term is parsed.
pub open spec fn expression(source: Seq<char>, at: int) -> Parsed
    decreases remaining(source, at), 4int,
{
    let first = if sees(source, at, '+') || sees(source, at, '-') {
        Parsed::emitted(clear_d0())
    } else {
        term(source, at)
    };
    first.and(expression_tail(source, at + first.consumed))
}

/// `*` and a factor, and then the line that multiplies.
pub open spec fn multiplication(source: Seq<char>, at: int) -> Parsed {
    let operator = match_char(source, at, '*');
    let right = operator.and(factor(source, at + operator.consumed));
    right.and(Parsed::emitted(multiply_popped()))
}

/// `/` and a factor, and then the lines that divide.
pub open spec fn division(source: Seq<char>, at: int) -> Parsed {
    let operator = match_char(source, at, '/');
    let right = operator.and(factor(source, at + operator.consumed));
    right.and(Parsed::emitted(pop_d1()).with(Parsed::emitted(divide_d1())))
}

/// `+` and a term, and then the line that adds.
pub open spec fn addition(source: Seq<char>, at: int) -> Parsed {
    let operator = match_char(source, at, '+');
    let right = operator.and(term(source, at + operator.consumed));
    right.and(Parsed::emitted(add_popped()))
}

/// `-` and a term, and then the lines that subtract.
pub open spec fn subtraction(source: Seq<char>, at: int) -> Parsed {
    let operator = match_char(source, at, '-');
    let right = operator.and(term(source, at + operator.consumed));
    right.and(Parsed::emitted(subtract_popped()).with(Parsed::emitted(negate_d0())))
}

/// Leading blanks, a name, `=`, an expression, and then the lines that
/// store the value under the name.
pub open spec fn assignment(source: Seq<char>, at: int) -> Parsed {
    let start = at + blank_run(source, at);
    let target = Parsed::skipped(blank_run(source, at)).with(name(source, start));
    let equals = target.and(match_char(source, at + target.consumed, '='));
    let value = equals.and(expression(source, at + equals.consumed));
    value.and(
        Parsed::emitted(load_address(name_at(source, start))).with(Parsed::emitted(store_d0())),
    )
}

/// An assignment and the `;` that ends it.
pub open spec fn statement(source: Seq<char>, at: int) -> Parsed {
    let assigned = assignment(source, at);
    assigned.and(match_char(source, at + assigned.consumed, ';'))
}

/// The statements of a block, up to the `}` that closes it.
pub open spec fn statements(source: Seq<char>, at: int) -> Parsed
    decreases remaining(source, at),
{
    if sees(source, at, '}') {
        Parsed::nothing()
    } else {
        let first = statement(source, at);
        if first.failure is Some {
            first
        } else {
            first.with(statements(source, at + first.consumed))
        }
    }
}

/// `{`, statements, `}`.
pub open spec fn block(source: Seq<char>, at: int) -> Parsed {
    let opened = match_char(source, at, '{');
    let body = opened.and(statements(source, at + opened.consumed));
    body.and(match_char(source, at + body.consumed, '}'))
}

/// Leading blanks and a block.
pub open spec fn program(source: Seq<char>, at: int) -> Parsed {
    Parsed::skipped(blank_run(source, at)).with(block(source, at + blank_run(source, at)))
}

} // verus!
