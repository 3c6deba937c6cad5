//! The compiler is correct: the code that it emits for an arithmetic
//! expression leaves the value of that expression in D0.
use crate::assembly::{load_immediate, push_d0};
use crate::execution::{
    lemma_pop_into_d0, lemma_run_add, lemma_run_concat, lemma_run_divide,
    lemma_run_load_immediate, lemma_run_multiply, lemma_run_negate, lemma_run_pop_d1,
    lemma_run_push, lemma_run_single, lemma_run_subtract,
};
use crate::grammar::{
    blank_run, expression, expression_tail, factor, match_char, remaining, sees, sees_digit, term,
    term_tail,
};
use crate::instruction::Opcode;
use crate::laws::{
    combining, lemma_arithmetic_lines, lemma_digit_factor, lemma_expression_tail_step,
    lemma_term_tail_step, lemma_written_text_runs,
};
use crate::machine::Machine;
use crate::semantics::{are_lines, combined, evaluate, is_line, run_program};
use crate::text::digit_value;
use crate::writer::{written, TestWriter};
use vstd::prelude::*;

verus! {

/// The result of combining `left` and `right`, where it can be computed.
pub open spec fn operation(opcode: Opcode, left: isize, right: isize) -> Option<isize> {
    match combined(opcode, left, right) {
        Ok(value) => Some(value),
        Err(_) => None,
    }
}

/// The value of the factor at `at`: that of a parenthesized expression,
/// or that of a digit. A name has no value that the source gives.
pub open spec fn factor_value(source: Seq<char>, at: int) -> Option<isize>
    decreases remaining(source, at), 0int,
{
    if sees(source, at, '(') {
        let inner = at + match_char(source, at, '(').consumed;
        if sees(source, inner + expression(source, inner).consumed, ')') {
            expression_value(source, inner)
        } else {
            None
        }
    } else if sees_digit(source, at) {
        Some(digit_value(source[at]) as isize)
    } else {
        None
    }
}

/// The value of a term whose factors up to `at` have the value `left`.
pub open spec fn term_tail_value(source: Seq<char>, at: int, left: isize) -> Option<isize>
    decreases remaining(source, at), 1int,
{
    if sees(source, at, '*') || sees(source, at, '/') {
        let opcode = if sees(source, at, '*') {
            Opcode::Muls
        } else {
            Opcode::Divs
        };
        let right_at = at + match_char(source, at, source[at]).consumed;
        match factor_value(source, right_at) {
            Some(right) => match operation(opcode, left, right) {
                Some(value) => term_tail_value(
                    source,
                    right_at + factor(source, right_at).consumed,
                    value,
                ),
                None => None,
            },
            None => None,
        }
    } else {
        Some(left)
    }
}

/// The value of the term at `at`: its factors, multiplied and divided
/// from left to right.
pub open spec fn term_value(source: Seq<char>, at: int) -> Option<isize>
    decreases remaining(source, at), 2int,
{
    match factor_value(source, at) {
        Some(left) => term_tail_value(source, at + factor(source, at).consumed, left),
        None => None,
    }
}

/// The value of an expression whose terms up to `at` have the value
/// `left`.
pub open spec fn expression_tail_value(source: Seq<char>, at: int, left: isize) -> Option<isize>
    decreases remaining(source, at), 3int,
{
    if sees(source, at, '+') || sees(source, at, '-') {
        let opcode = if sees(source, at, '+') {
            Opcode::Add
        } else {
            Opcode::Sub
        };
        let right_at = at + match_char(source, at, source[at]).consumed;
        match term_value(source, right_at) {
            Some(right) => match operation(opcode, left, right) {
                Some(value) => expression_tail_value(
                    source,
                    right_at + term(source, right_at).consumed,
                    value,
                ),
                None => None,
            },
            None => None,
        }
    } else {
        Some(left)
    }
}

/// The value of the expression at `at`: its terms, added and subtracted
/// from left to right. It is none where the expression holds a name,
/// starts with a sign, divides by zero, or leaves the range of a
/// register on its way.
pub open spec fn expression_value(source: Seq<char>, at: int) -> Option<isize>
    decreases remaining(source, at), 4int,
{
    if sees(source, at, '+') || sees(source, at, '-') {
        None
    } else {
        match term_value(source, at) {
            Some(left) => expression_tail_value(source, at + term(source, at).consumed, left),
            None => None,
        }
    }
}

/// Running `lines` on `machine` succeeds, leaves `value` in D0 and leaves
/// the stack as it was.
pub open spec fn leaves(lines: Seq<Seq<char>>, machine: Machine, value: isize) -> bool {
    let run = run_program(lines, machine);
    &&& run.failure is None
    &&& run.machine.d0 == Some(value)
    &&& run.machine.stack == machine.stack
}

/// Lines followed by lines are lines.
proof fn lemma_lines_concat(first: Seq<Seq<char>>, second: Seq<Seq<char>>)
    requires
        are_lines(first),
        are_lines(second),
    ensures
        are_lines(first + second),
{
    assert forall|k: int| 0 <= k < (first + second).len() implies is_line(
        #[trigger] (first + second)[k],
    ) by {
        if k < first.len() {
            assert((first + second)[k] == first[k]);
        } else {
            assert((first + second)[k] == second[k - first.len()]);
        }
    }
}

/// The lines for one binary operation around the lines of its right
/// operand are lines.
proof fn lemma_operation_lines(operator: char, right_lines: Seq<Seq<char>>)
    requires
        operator == '+' || operator == '-' || operator == '*' || operator == '/',
        are_lines(right_lines),
    ensures
        are_lines(seq![push_d0()] + right_lines + combining(operator)),
{
    lemma_arithmetic_lines();
    lemma_lines_concat(seq![push_d0()], right_lines);
    lemma_lines_concat(seq![push_d0()] + right_lines, combining(operator));
}

/// The opcode of a binary operator.
pub open spec fn opcode_of(operator: char) -> Opcode {
    if operator == '+' {
        Opcode::Add
    } else if operator == '-' {
        Opcode::Sub
    } else if operator == '*' {
        Opcode::Muls
    } else {
        Opcode::Divs
    }
}

/// The lines for one binary operation: with the left operand in D0, they
/// push it, compute the right operand and combine the two.
proof fn lemma_operation_runs(
    operator: char,
    right_lines: Seq<Seq<char>>,
    machine: Machine,
    left: isize,
    right: isize,
)
    requires
        operator == '+' || operator == '-' || operator == '*' || operator == '/',
        machine.d0 == Some(left),
        operation(opcode_of(operator), left, right) is Some,
        forall|loaded: Machine| leaves(right_lines, loaded, right),
    ensures
        leaves(
            seq![push_d0()] + right_lines + combining(operator),
            machine,
            operation(opcode_of(operator), left, right).unwrap(),
        ),
{
    let push = seq![push_d0()];
    let combine = combining(operator);
    let pushed = machine.push(left);
    lemma_run_single(push_d0(), machine);
    lemma_run_push(machine);
    lemma_run_concat(push, right_lines, machine);
    assert(leaves(right_lines, pushed, right));
    let ready = run_program(right_lines, pushed).machine;
    lemma_run_concat(push + right_lines, combine, machine);
    assert(ready.stack.last() == left);
    assert(ready.stack.drop_last() == machine.stack);
    if operator == '+' {
        lemma_run_single(combine[0], ready);
        lemma_run_add(ready);
        lemma_pop_into_d0(Opcode::Add, ready);
    } else if operator == '-' {
        lemma_run_subtract(ready);
        lemma_pop_into_d0(Opcode::Sub, ready);
        let subtracted = run_program(seq![combine[0]], ready).machine;
        lemma_run_single(combine[0], ready);
        lemma_run_negate(subtracted);
        lemma_run_single(combine[1], subtracted);
        lemma_run_concat(seq![combine[0]], seq![combine[1]], ready);
        assert(seq![combine[0]] + seq![combine[1]] == combine);
    } else if operator == '*' {
        lemma_run_single(combine[0], ready);
        lemma_run_multiply(ready);
        lemma_pop_into_d0(Opcode::Muls, ready);
    } else {
        lemma_run_pop_d1(ready);
        lemma_run_single(combine[0], ready);
        let popped = run_program(seq![combine[0]], ready).machine;
        lemma_run_divide(popped);
        lemma_run_single(combine[1], popped);
        lemma_run_concat(seq![combine[0]], seq![combine[1]], ready);
        assert(seq![combine[0]] + seq![combine[1]] == combine);
    }
}

/// A factor with a value compiles, and its code leaves that value in D0.
pub proof fn lemma_factor_runs(source: Seq<char>, at: int, machine: Machine)
    requires
        factor_value(source, at) is Some,
    ensures
        factor(source, at).failure is None,
        factor(source, at).lines.len() > 0,
        are_lines(factor(source, at).lines),
        leaves(factor(source, at).lines, machine, factor_value(source, at).unwrap()),
    decreases remaining(source, at), 0int,
{
    if sees(source, at, '(') {
        let opened = match_char(source, at, '(');
        let inner = expression(source, at + opened.consumed);
        lemma_expression_runs(source, at + opened.consumed, machine);
        assert(factor(source, at).lines == inner.lines);
    } else {
        lemma_digit_factor(source, at);
        lemma_arithmetic_lines();
        lemma_run_load_immediate(source[at], machine);
        lemma_run_single(load_immediate(source[at]), machine);
    }
}

/// A term's tail with a value compiles, and with the value so far in D0
/// its code leaves the value of the whole term there.
pub proof fn lemma_term_tail_runs(source: Seq<char>, at: int, left: isize, machine: Machine)
    requires
        machine.d0 == Some(left),
        term_tail_value(source, at, left) is Some,
    ensures
        term_tail(source, at).failure is None,
        are_lines(term_tail(source, at).lines),
        leaves(term_tail(source, at).lines, machine, term_tail_value(source, at, left).unwrap()),
    decreases remaining(source, at), 1int,
{
    if sees(source, at, '*') || sees(source, at, '/') {
        let operator = source[at];
        let right_at = at + 1 + blank_run(source, at + 1);
        let right = factor(source, right_at);
        let value = factor_value(source, right_at).unwrap();
        let combined = operation(opcode_of(operator), left, value).unwrap();
        let next = right_at + right.consumed;
        assert forall|loaded: Machine| leaves(right.lines, loaded, value) by {
            lemma_factor_runs(source, right_at, loaded);
        }
        lemma_factor_runs(source, right_at, machine);
        lemma_term_tail_step(source, at, operator);
        let step = seq![push_d0()] + right.lines + combining(operator);
        lemma_operation_runs(operator, right.lines, machine, left, value);
        let stepped = run_program(step, machine).machine;
        lemma_term_tail_runs(source, next, combined, stepped);
        lemma_run_concat(step, term_tail(source, next).lines, machine);
        lemma_operation_lines(operator, right.lines);
        lemma_lines_concat(step, term_tail(source, next).lines);
    } else {
        assert(term_tail(source, at).lines == Seq::<Seq<char>>::empty());
    }
}

/// A term with a value compiles, and its code leaves that value in D0.
pub proof fn lemma_term_runs(source: Seq<char>, at: int, machine: Machine)
    requires
        term_value(source, at) is Some,
    ensures
        term(source, at).failure is None,
        term(source, at).lines.len() > 0,
        are_lines(term(source, at).lines),
        leaves(term(source, at).lines, machine, term_value(source, at).unwrap()),
    decreases remaining(source, at), 2int,
{
    let first = factor(source, at);
    let left = factor_value(source, at).unwrap();
    lemma_factor_runs(source, at, machine);
    let loaded = run_program(first.lines, machine).machine;
    lemma_term_tail_runs(source, at + first.consumed, left, loaded);
    lemma_run_concat(first.lines, term_tail(source, at + first.consumed).lines, machine);
    lemma_lines_concat(first.lines, term_tail(source, at + first.consumed).lines);
}

/// An expression's tail with a value compiles, and with the value so far
/// in D0 its code leaves the value of the whole expression there.
pub proof fn lemma_expression_tail_runs(
    source: Seq<char>,
    at: int,
    left: isize,
    machine: Machine,
)
    requires
        machine.d0 == Some(left),
        expression_tail_value(source, at, left) is Some,
    ensures
        expression_tail(source, at).failure is None,
        are_lines(expression_tail(source, at).lines),
        leaves(
            expression_tail(source, at).lines,
            machine,
            expression_tail_value(source, at, left).unwrap(),
        ),
    decreases remaining(source, at), 3int,
{
    if sees(source, at, '+') || sees(source, at, '-') {
        let operator = source[at];
        let right_at = at + 1 + blank_run(source, at + 1);
        let right = term(source, right_at);
        let value = term_value(source, right_at).unwrap();
        let combined = operation(opcode_of(operator), left, value).unwrap();
        let next = right_at + right.consumed;
        assert forall|loaded: Machine| leaves(right.lines, loaded, value) by {
            lemma_term_runs(source, right_at, loaded);
        }
        lemma_term_runs(source, right_at, machine);
        lemma_expression_tail_step(source, at, operator);
        let step = seq![push_d0()] + right.lines + combining(operator);
        lemma_operation_runs(operator, right.lines, machine, left, value);
        let stepped = run_program(step, machine).machine;
        lemma_expression_tail_runs(source, next, combined, stepped);
        lemma_run_concat(step, expression_tail(source, next).lines, machine);
        lemma_operation_lines(operator, right.lines);
        lemma_lines_concat(step, expression_tail(source, next).lines);
    } else {
        assert(expression_tail(source, at).lines == Seq::<Seq<char>>::empty());
    }
}

/// The compiler is correct on arithmetic: an expression with a value
/// compiles without a failure, and running its code on any machine
/// succeeds, leaves that value in D0 and leaves the stack as it was.
pub proof fn lemma_expression_runs(source: Seq<char>, at: int, machine: Machine)
    requires
        expression_value(source, at) is Some,
    ensures
        expression(source, at).failure is None,
        expression(source, at).lines.len() > 0,
        are_lines(expression(source, at).lines),
        leaves(expression(source, at).lines, machine, expression_value(source, at).unwrap()),
    decreases remaining(source, at), 4int,
{
    let first = term(source, at);
    let left = term_value(source, at).unwrap();
    lemma_term_runs(source, at, machine);
    let loaded = run_program(first.lines, machine).machine;
    lemma_expression_tail_runs(source, at + first.consumed, left, loaded);
    lemma_run_concat(first.lines, expression_tail(source, at + first.consumed).lines, machine);
    lemma_lines_concat(first.lines, expression_tail(source, at + first.consumed).lines);
}

/// From source to register: the text that a sink in memory holds after
/// an expression with a value was compiled evaluates without a failure,
/// leaves that value in D0 and leaves the stack as it was.
pub proof fn lemma_compiled_text_runs(source: Seq<char>, at: int, machine: Machine)
    requires
        expression_value(source, at) is Some,
    ensures
        ({
            let text = written::<TestWriter>(expression(source, at).lines);
            let run = evaluate(text, machine);
            &&& run.failure is None
            &&& run.machine.d0 == expression_value(source, at)
            &&& run.machine.stack == machine.stack
        }),
{
    lemma_expression_runs(source, at, machine);
    lemma_written_text_runs(expression(source, at).lines, machine);
}

} // verus!
