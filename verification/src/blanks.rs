//! Blanks between tokens do not matter: a blank inserted after a token
//! changes neither the lines that the compiler emits nor whether it
//! fails, only how many characters it consumes.
use crate::assembly::{
    add_popped, call, clear_d0, divide_d1, load_address, load_immediate, load_variable,
    multiply_popped, negate_d0, pop_d1, push_d0, store_d0, subtract_popped,
};
use crate::grammar::{
    assignment, blank_run, block, expression, expression_tail, factor, ident, lookahead,
    match_char, name, name_at, name_run, number, program, remaining, sees, sees_digit,
    sees_letter, statement, statements, term, term_tail, Parsed,
};
use crate::text::{is_alphanum, is_whitespace};
use vstd::prelude::*;

verus! {

/// `spaced` is `source` with the blank `blank` inserted before index
/// `k`, after a character and not inside a name.
pub open spec fn blank_inserted(source: Seq<char>, k: int, blank: char, spaced: Seq<char>) -> bool {
    &&& 0 < k <= source.len()
    &&& is_whitespace(blank)
    &&& spaced == source.subrange(0, k).push(blank) + source.subrange(k, source.len() as int)
    &&& !(k < source.len() && is_alphanum(source[k - 1]) && is_alphanum(source[k]))
}

/// Where the position `at` of the source lies in the spaced source.
pub open spec fn moved(k: int, at: int) -> int {
    if at < k {
        at
    } else {
        at + 1
    }
}

/// What parsing from `at` does in the spaced source: the same, with the
/// inserted blank consumed where the parse goes past it.
pub open spec fn adjusted(parsed: Parsed, k: int, at: int) -> Parsed {
    if at < k <= at + parsed.consumed {
        Parsed { consumed: parsed.consumed + 1, ..parsed }
    } else {
        parsed
    }
}

/// The characters of the spaced source.
proof fn lemma_spaced(source: Seq<char>, k: int, blank: char, spaced: Seq<char>)
    requires
        blank_inserted(source, k, blank, spaced),
    ensures
        spaced.len() == source.len() + 1,
        spaced[k] == blank,
        forall|i: int| 0 <= i < k ==> #[trigger] spaced[i] == source[i],
        forall|i: int| k <= i < source.len() ==> spaced[i + 1] == #[trigger] source[i],
        forall|at: int| #[trigger] lookahead(spaced, moved(k, at)) == lookahead(source, at),
{
    assert forall|at: int| #[trigger] lookahead(spaced, moved(k, at)) == lookahead(
        source,
        at,
    ) by {
        if 0 <= at < k {
            assert(spaced[at] == source[at]);
        } else if k <= at < source.len() {
            assert(spaced[at + 1] == source[at]);
        }
    }
}

/// Two pieces adjusted one after the other are the adjusted whole, and
/// they end where the whole ends.
proof fn lemma_adjusted_and(first: Parsed, second: Parsed, k: int, at: int)
    ensures
        adjusted(first, k, at).with(adjusted(second, k, at + first.consumed)) == adjusted(
            first.with(second),
            k,
            at,
        ),
        adjusted(first, k, at).and(adjusted(second, k, at + first.consumed)) == adjusted(
            first.and(second),
            k,
            at,
        ),
        moved(k, at) + adjusted(first, k, at).consumed == moved(k, at + first.consumed),
{
}

/// A piece that consumes nothing is the same in the spaced source.
proof fn lemma_adjusted_emitted(line: Seq<char>, k: int, at: int)
    ensures
        adjusted(Parsed::emitted(line), k, at) == Parsed::emitted(line),
        adjusted(Parsed::nothing(), k, at) == Parsed::nothing(),
{
}

/// A run of blanks in the spaced source: it holds the inserted blank
/// where it reaches it.
proof fn lemma_blank_run_spaced(
    source: Seq<char>,
    k: int,
    blank: char,
    spaced: Seq<char>,
    from: int,
)
    requires
        blank_inserted(source, k, blank, spaced),
    ensures
        from >= k ==> blank_run(spaced, from + 1) == blank_run(source, from),
        from <= k ==> blank_run(spaced, from) == blank_run(source, from) + if from + blank_run(
            source,
            from,
        ) >= k {
            1nat
        } else {
            0nat
        },
    decreases source.len() - from,
{
    lemma_spaced(source, k, blank, spaced);
    if from >= k {
        if from < source.len() {
            assert(spaced[from + 1] == source[from]);
            lemma_blank_run_spaced(source, k, blank, spaced, from + 1);
        }
    }
    if from <= k {
        if from == k {
            assert(blank_run(spaced, k) == 1 + blank_run(spaced, k + 1));
        } else if 0 <= from {
            assert(spaced[from] == source[from]);
            lemma_blank_run_spaced(source, k, blank, spaced, from + 1);
        }
    }
}

/// A name ends within the source.
proof fn lemma_name_run_bound(source: Seq<char>, from: int)
    requires
        0 <= from <= source.len(),
    ensures
        from + name_run(source, from) <= source.len(),
    decreases source.len() - from,
{
    if from < source.len() && is_alphanum(source[from]) {
        lemma_name_run_bound(source, from + 1);
    }
}

/// A name that starts before the inserted blank ends before it.
proof fn lemma_name_stops(source: Seq<char>, k: int, blank: char, spaced: Seq<char>, from: int)
    requires
        blank_inserted(source, k, blank, spaced),
        from < k,
    ensures
        from + name_run(source, from) <= k,
    decreases k - from,
{
    if 0 <= from && is_alphanum(source[from]) {
        if from + 1 < k {
            lemma_name_stops(source, k, blank, spaced, from + 1);
        } else {
            assert(name_run(source, k) == 0);
        }
    }
}

/// The run of letters and digits at a position is the same in the spaced
/// source.
proof fn lemma_name_run_spaced(
    source: Seq<char>,
    k: int,
    blank: char,
    spaced: Seq<char>,
    from: int,
)
    requires
        blank_inserted(source, k, blank, spaced),
    ensures
        name_run(spaced, moved(k, from)) == name_run(source, from),
    decreases source.len() - from,
{
    lemma_spaced(source, k, blank, spaced);
    if 0 <= from < source.len() {
        if from >= k {
            assert(spaced[from + 1] == source[from]);
            lemma_name_run_spaced(source, k, blank, spaced, from + 1);
        } else {
            assert(spaced[from] == source[from]);
            if from + 1 < k {
                lemma_name_run_spaced(source, k, blank, spaced, from + 1);
            } else {
                assert(name_run(spaced, k) == 0);
                if is_alphanum(source[from]) {
                    assert(name_run(source, k) == 0);
                }
            }
        }
    }
}

/// A token and the blanks after it, in the spaced source.
proof fn lemma_match_char_spaced(
    source: Seq<char>,
    k: int,
    blank: char,
    spaced: Seq<char>,
    at: int,
    expected: char,
)
    requires
        blank_inserted(source, k, blank, spaced),
    ensures
        match_char(spaced, moved(k, at), expected) == adjusted(
            match_char(source, at, expected),
            k,
            at,
        ),
{
    lemma_spaced(source, k, blank, spaced);
    assert(lookahead(spaced, moved(k, at)) == lookahead(source, at));
    lemma_blank_run_spaced(source, k, blank, spaced, at + 1);
}

/// A digit and the blanks after it, in the spaced source.
proof fn lemma_number_spaced(source: Seq<char>, k: int, blank: char, spaced: Seq<char>, at: int)
    requires
        blank_inserted(source, k, blank, spaced),
    ensures
        number(spaced, moved(k, at)) == adjusted(number(source, at), k, at),
        sees_digit(spaced, moved(k, at)) == sees_digit(source, at),
        sees_digit(source, at) ==> spaced[moved(k, at)] == source[at],
{
    lemma_spaced(source, k, blank, spaced);
    assert(lookahead(spaced, moved(k, at)) == lookahead(source, at));
    lemma_blank_run_spaced(source, k, blank, spaced, at + 1);
}

/// A name and the blanks after it, in the spaced source.
proof fn lemma_name_spaced(source: Seq<char>, k: int, blank: char, spaced: Seq<char>, at: int)
    requires
        blank_inserted(source, k, blank, spaced),
    ensures
        name(spaced, moved(k, at)) == adjusted(name(source, at), k, at),
        sees_letter(spaced, moved(k, at)) == sees_letter(source, at),
        sees_letter(source, at) ==> name_at(spaced, moved(k, at)) == name_at(source, at),
{
    lemma_spaced(source, k, blank, spaced);
    assert(lookahead(spaced, moved(k, at)) == lookahead(source, at));
    lemma_name_run_spaced(source, k, blank, spaced, at);
    let run = name_run(source, at);
    if at < k {
        lemma_name_stops(source, k, blank, spaced, at);
    }
    lemma_blank_run_spaced(source, k, blank, spaced, at + run);
    if sees_letter(source, at) {
        lemma_name_run_bound(source, at);
        assert(name_at(spaced, moved(k, at)) == name_at(source, at));
    }
}

/// An identifier in the spaced source.
proof fn lemma_ident_spaced(source: Seq<char>, k: int, blank: char, spaced: Seq<char>, at: int)
    requires
        blank_inserted(source, k, blank, spaced),
    ensures
        ident(spaced, moved(k, at)) == adjusted(ident(source, at), k, at),
{
    lemma_spaced(source, k, blank, spaced);
    lemma_name_spaced(source, k, blank, spaced, at);
    let named = name(source, at);
    let text = name_at(source, at);
    let after_name = at + named.consumed;
    lemma_adjusted_and(named, Parsed::nothing(), k, at);
    assert(lookahead(spaced, moved(k, after_name)) == lookahead(source, after_name));
    if sees(source, after_name, '(') {
        let open = match_char(source, after_name, '(');
        lemma_match_char_spaced(source, k, blank, spaced, after_name, '(');
        lemma_adjusted_and(named, open, k, at);
        let opened = named.and(open);
        let close = match_char(source, at + opened.consumed, ')');
        lemma_match_char_spaced(source, k, blank, spaced, at + opened.consumed, ')');
        lemma_adjusted_and(opened, close, k, at);
        let closed = opened.and(close);
        lemma_adjusted_emitted(call(text), k, at + closed.consumed);
        lemma_adjusted_and(closed, Parsed::emitted(call(text)), k, at);
    } else {
        lemma_adjusted_emitted(load_variable(text), k, after_name);
        lemma_adjusted_and(named, Parsed::emitted(load_variable(text)), k, at);
    }
}

/// A factor in the spaced source.
proof fn lemma_factor_spaced(source: Seq<char>, k: int, blank: char, spaced: Seq<char>, at: int)
    requires
        blank_inserted(source, k, blank, spaced),
    ensures
        factor(spaced, moved(k, at)) == adjusted(factor(source, at), k, at),
    decreases remaining(source, at), 0int,
{
    lemma_spaced(source, k, blank, spaced);
    assert(lookahead(spaced, moved(k, at)) == lookahead(source, at));
    if sees(source, at, '(') {
        let open = match_char(source, at, '(');
        lemma_match_char_spaced(source, k, blank, spaced, at, '(');
        let value = expression(source, at + open.consumed);
        lemma_adjusted_and(open, value, k, at);
        lemma_expression_spaced(source, k, blank, spaced, at + open.consumed);
        let inner = open.and(value);
        let close = match_char(source, at + inner.consumed, ')');
        lemma_match_char_spaced(source, k, blank, spaced, at + inner.consumed, ')');
        lemma_adjusted_and(inner, close, k, at);
    } else if sees_letter(source, at) {
        lemma_name_spaced(source, k, blank, spaced, at);
        lemma_ident_spaced(source, k, blank, spaced, at);
    } else {
        lemma_name_spaced(source, k, blank, spaced, at);
        lemma_number_spaced(source, k, blank, spaced, at);
        let digit = number(source, at);
        lemma_adjusted_emitted(load_immediate(source[at]), k, at + digit.consumed);
        lemma_adjusted_and(digit, Parsed::emitted(load_immediate(source[at])), k, at);
    }
}

/// The tail of a term in the spaced source.
proof fn lemma_term_tail_spaced(
    source: Seq<char>,
    k: int,
    blank: char,
    spaced: Seq<char>,
    at: int,
)
    requires
        blank_inserted(source, k, blank, spaced),
    ensures
        term_tail(spaced, moved(k, at)) == adjusted(term_tail(source, at), k, at),
    decreases remaining(source, at), 1int,
{
    lemma_spaced(source, k, blank, spaced);
    assert(lookahead(spaced, moved(k, at)) == lookahead(source, at));
    if sees(source, at, '*') || sees(source, at, '/') {
        let symbol = source[at];
        let combine = if symbol == '*' {
            Parsed::emitted(multiply_popped())
        } else {
            Parsed::emitted(pop_d1()).with(Parsed::emitted(divide_d1()))
        };
        let push = Parsed::emitted(push_d0());
        let matched = match_char(source, at, symbol);
        lemma_match_char_spaced(source, k, blank, spaced, at, symbol);
        lemma_adjusted_emitted(push_d0(), k, at);
        lemma_adjusted_and(push, matched, k, at);
        let operator = push.with(matched);
        let operand = factor(source, at + operator.consumed);
        lemma_factor_spaced(source, k, blank, spaced, at + operator.consumed);
        lemma_adjusted_and(operator, operand, k, at);
        let right = operator.and(operand);
        assert(adjusted(combine, k, at + right.consumed) == combine);
        lemma_adjusted_and(right, combine, k, at);
        let done = right.and(combine);
        let rest = term_tail(source, at + done.consumed);
        lemma_term_tail_spaced(source, k, blank, spaced, at + done.consumed);
        lemma_adjusted_and(done, rest, k, at);
    } else {
        lemma_adjusted_emitted(push_d0(), k, at);
    }
}

/// A term in the spaced source.
proof fn lemma_term_spaced(source: Seq<char>, k: int, blank: char, spaced: Seq<char>, at: int)
    requires
        blank_inserted(source, k, blank, spaced),
    ensures
        term(spaced, moved(k, at)) == adjusted(term(source, at), k, at),
    decreases remaining(source, at), 2int,
{
    let first = factor(source, at);
    lemma_factor_spaced(source, k, blank, spaced, at);
    lemma_term_tail_spaced(source, k, blank, spaced, at + first.consumed);
    lemma_adjusted_and(first, term_tail(source, at + first.consumed), k, at);
}

/// The tail of an expression in the spaced source.
proof fn lemma_expression_tail_spaced(
    source: Seq<char>,
    k: int,
    blank: char,
    spaced: Seq<char>,
    at: int,
)
    requires
        blank_inserted(source, k, blank, spaced),
    ensures
        expression_tail(spaced, moved(k, at)) == adjusted(expression_tail(source, at), k, at),
    decreases remaining(source, at), 3int,
{
    lemma_spaced(source, k, blank, spaced);
    assert(lookahead(spaced, moved(k, at)) == lookahead(source, at));
    if sees(source, at, '+') || sees(source, at, '-') {
        let symbol = source[at];
        let combine = if symbol == '+' {
            Parsed::emitted(add_popped())
        } else {
            Parsed::emitted(subtract_popped()).with(Parsed::emitted(negate_d0()))
        };
        let push = Parsed::emitted(push_d0());
        let matched = match_char(source, at, symbol);
        lemma_match_char_spaced(source, k, blank, spaced, at, symbol);
        lemma_adjusted_emitted(push_d0(), k, at);
        lemma_adjusted_and(push, matched, k, at);
        let operator = push.with(matched);
        let operand = term(source, at + operator.consumed);
        lemma_term_spaced(source, k, blank, spaced, at + operator.consumed);
        lemma_adjusted_and(operator, operand, k, at);
        let right = operator.and(operand);
        assert(adjusted(combine, k, at + right.consumed) == combine);
        lemma_adjusted_and(right, combine, k, at);
        let done = right.and(combine);
        let rest = expression_tail(source, at + done.consumed);
        lemma_expression_tail_spaced(source, k, blank, spaced, at + done.consumed);
        lemma_adjusted_and(done, rest, k, at);
    } else {
        lemma_adjusted_emitted(push_d0(), k, at);
    }
}

/// An expression in the spaced source.
proof fn lemma_expression_spaced(
    source: Seq<char>,
    k: int,
    blank: char,
    spaced: Seq<char>,
    at: int,
)
    requires
        blank_inserted(source, k, blank, spaced),
    ensures
        expression(spaced, moved(k, at)) == adjusted(expression(source, at), k, at),
    decreases remaining(source, at), 4int,
{
    lemma_spaced(source, k, blank, spaced);
    assert(lookahead(spaced, moved(k, at)) == lookahead(source, at));
    let first = if sees(source, at, '+') || sees(source, at, '-') {
        Parsed::emitted(clear_d0())
    } else {
        term(source, at)
    };
    if sees(source, at, '+') || sees(source, at, '-') {
        lemma_adjusted_emitted(clear_d0(), k, at);
    } else {
        lemma_term_spaced(source, k, blank, spaced, at);
    }
    lemma_expression_tail_spaced(source, k, blank, spaced, at + first.consumed);
    lemma_adjusted_and(first, expression_tail(source, at + first.consumed), k, at);
}

/// An assignment in the spaced source.
proof fn lemma_assignment_spaced(
    source: Seq<char>,
    k: int,
    blank: char,
    spaced: Seq<char>,
    at: int,
)
    requires
        blank_inserted(source, k, blank, spaced),
    ensures
        assignment(spaced, moved(k, at)) == adjusted(assignment(source, at), k, at),
{
    lemma_spaced(source, k, blank, spaced);
    let lead = Parsed::skipped(blank_run(source, at));
    let start = at + lead.consumed;
    lemma_blank_run_spaced(source, k, blank, spaced, at);
    assert(Parsed::skipped(blank_run(spaced, moved(k, at))) == adjusted(lead, k, at));
    lemma_name_spaced(source, k, blank, spaced, start);
    let named = name(source, start);
    let text = name_at(source, start);
    lemma_adjusted_and(lead, named, k, at);
    let target = lead.with(named);
    let equal = match_char(source, at + target.consumed, '=');
    lemma_match_char_spaced(source, k, blank, spaced, at + target.consumed, '=');
    lemma_adjusted_and(target, equal, k, at);
    let equals = target.and(equal);
    let computed = expression(source, at + equals.consumed);
    lemma_expression_spaced(source, k, blank, spaced, at + equals.consumed);
    lemma_adjusted_and(equals, computed, k, at);
    let value = equals.and(computed);
    let store = Parsed::emitted(load_address(text)).with(Parsed::emitted(store_d0()));
    assert(adjusted(store, k, at + value.consumed) == store);
    lemma_adjusted_and(value, store, k, at);
}

/// A statement in the spaced source.
proof fn lemma_statement_spaced(
    source: Seq<char>,
    k: int,
    blank: char,
    spaced: Seq<char>,
    at: int,
)
    requires
        blank_inserted(source, k, blank, spaced),
    ensures
        statement(spaced, moved(k, at)) == adjusted(statement(source, at), k, at),
{
    let assigned = assignment(source, at);
    lemma_assignment_spaced(source, k, blank, spaced, at);
    lemma_match_char_spaced(source, k, blank, spaced, at + assigned.consumed, ';');
    lemma_adjusted_and(assigned, match_char(source, at + assigned.consumed, ';'), k, at);
}

/// The statements of a block in the spaced source.
proof fn lemma_statements_spaced(
    source: Seq<char>,
    k: int,
    blank: char,
    spaced: Seq<char>,
    at: int,
)
    requires
        blank_inserted(source, k, blank, spaced),
    ensures
        statements(spaced, moved(k, at)) == adjusted(statements(source, at), k, at),
    decreases remaining(source, at),
{
    lemma_spaced(source, k, blank, spaced);
    assert(lookahead(spaced, moved(k, at)) == lookahead(source, at));
    if !sees(source, at, '}') {
        let first = statement(source, at);
        lemma_statement_spaced(source, k, blank, spaced, at);
        if first.failure is None {
            lemma_statements_spaced(source, k, blank, spaced, at + first.consumed);
            lemma_adjusted_and(first, statements(source, at + first.consumed), k, at);
        }
    }
}

/// A block in the spaced source.
proof fn lemma_block_spaced(source: Seq<char>, k: int, blank: char, spaced: Seq<char>, at: int)
    requires
        blank_inserted(source, k, blank, spaced),
    ensures
        block(spaced, moved(k, at)) == adjusted(block(source, at), k, at),
{
    let open = match_char(source, at, '{');
    lemma_match_char_spaced(source, k, blank, spaced, at, '{');
    let inner = statements(source, at + open.consumed);
    lemma_statements_spaced(source, k, blank, spaced, at + open.consumed);
    lemma_adjusted_and(open, inner, k, at);
    let body = open.and(inner);
    lemma_match_char_spaced(source, k, blank, spaced, at + body.consumed, '}');
    lemma_adjusted_and(body, match_char(source, at + body.consumed, '}'), k, at);
}

/// A program in the spaced source.
proof fn lemma_program_spaced(
    source: Seq<char>,
    k: int,
    blank: char,
    spaced: Seq<char>,
    at: int,
)
    requires
        blank_inserted(source, k, blank, spaced),
    ensures
        program(spaced, moved(k, at)) == adjusted(program(source, at), k, at),
{
    let lead = Parsed::skipped(blank_run(source, at));
    lemma_blank_run_spaced(source, k, blank, spaced, at);
    assert(Parsed::skipped(blank_run(spaced, moved(k, at))) == adjusted(lead, k, at));
    lemma_block_spaced(source, k, blank, spaced, at + lead.consumed);
    lemma_adjusted_and(lead, block(source, at + lead.consumed), k, at);
}

/// Blanks between tokens do not matter. Where a blank is inserted into
/// the source after a character, and not inside a name, every
/// nonterminal that is parsed from a position before the blank emits the
/// same lines and fails or succeeds as before; all that changes is that
/// a parse which goes past the blank consumes one character more.
pub proof fn lemma_blank_between_tokens(
    source: Seq<char>,
    k: int,
    blank: char,
    spaced: Seq<char>,
    at: int,
)
    requires
        blank_inserted(source, k, blank, spaced),
        at < k,
    ensures
        factor(spaced, at) == adjusted(factor(source, at), k, at),
        term(spaced, at) == adjusted(term(source, at), k, at),
        expression(spaced, at) == adjusted(expression(source, at), k, at),
        assignment(spaced, at) == adjusted(assignment(source, at), k, at),
        statement(spaced, at) == adjusted(statement(source, at), k, at),
        block(spaced, at) == adjusted(block(source, at), k, at),
        program(spaced, at) == adjusted(program(source, at), k, at),
{
    lemma_factor_spaced(source, k, blank, spaced, at);
    lemma_term_spaced(source, k, blank, spaced, at);
    lemma_expression_spaced(source, k, blank, spaced, at);
    lemma_assignment_spaced(source, k, blank, spaced, at);
    lemma_statement_spaced(source, k, blank, spaced, at);
    lemma_block_spaced(source, k, blank, spaced, at);
    lemma_program_spaced(source, k, blank, spaced, at);
}

/// A blank inserted between tokens changes no line of the compiled
/// program, and does not change whether the compilation fails.
pub proof fn lemma_blank_changes_no_line(
    source: Seq<char>,
    k: int,
    blank: char,
    spaced: Seq<char>,
)
    requires
        blank_inserted(source, k, blank, spaced),
    ensures
        expression(spaced, 0).lines == expression(source, 0).lines,
        expression(spaced, 0).failure == expression(source, 0).failure,
        assignment(spaced, 0).lines == assignment(source, 0).lines,
        assignment(spaced, 0).failure == assignment(source, 0).failure,
        program(spaced, 0).lines == program(source, 0).lines,
        program(spaced, 0).failure == program(source, 0).failure,
{
    lemma_blank_between_tokens(source, k, blank, spaced, 0);
}

/// The parser looks only forward. Behind an inserted blank every
/// nonterminal is parsed as it was in the source without it.
pub proof fn lemma_blank_behind(
    source: Seq<char>,
    k: int,
    blank: char,
    spaced: Seq<char>,
    at: int,
)
    requires
        blank_inserted(source, k, blank, spaced),
        at >= k,
    ensures
        factor(spaced, at + 1) == factor(source, at),
        term(spaced, at + 1) == term(source, at),
        expression(spaced, at + 1) == expression(source, at),
        assignment(spaced, at + 1) == assignment(source, at),
        statement(spaced, at + 1) == statement(source, at),
        block(spaced, at + 1) == block(source, at),
        program(spaced, at + 1) == program(source, at),
{
    lemma_factor_spaced(source, k, blank, spaced, at);
    lemma_term_spaced(source, k, blank, spaced, at);
    lemma_expression_spaced(source, k, blank, spaced, at);
    lemma_assignment_spaced(source, k, blank, spaced, at);
    lemma_statement_spaced(source, k, blank, spaced, at);
    lemma_block_spaced(source, k, blank, spaced, at);
    lemma_program_spaced(source, k, blank, spaced, at);
}

} // verus!
