//! What holds of the compiler and the interpreter together, proved from
//! the definitions of the grammar and of the machine.
use crate::assembly::{
    add_popped, divide_d1, label, load_immediate, multiply_popped, negate_d0, pop_d1, push_d0,
    subtract_popped,
};
use crate::compiler::Compiler;
use crate::error::AssemblyInterpreterError;
use crate::execution::{
    lemma_distance_to, lemma_distance_to_stops, lemma_pop_into_d0, lemma_run_add, lemma_run_divide,
    lemma_run_load_immediate, lemma_run_multiply, lemma_run_negate, lemma_run_pop_d1,
    lemma_run_push, lemma_run_subtract,
};
use crate::grammar::{
    blank_run, expression, expression_tail, factor, sees, sees_digit, term, term_tail, Parsed,
};
use crate::instruction::{opcode_named, opcode_word, operand_at, Opcode, Operand};
use crate::machine::{Machine, Register};
use crate::reader::Reader;
use crate::semantics::{
    are_lines, evaluate, is_line, lines_from, program_lines, quotient, run_instruction,
    run_operands, run_program, Decoding, Outcome,
};
use crate::text::{decimal, digit_of, digit_value, distance_to, is_digit, is_whitespace};
use crate::writer::{written, TestWriter, Writer};
use vstd::prelude::*;

verus! {

/// Every character of `source` from `from` up to `to` is a blank.
pub open spec fn blanks(source: Seq<char>, from: int, to: int) -> bool {
    &&& 0 <= from <= to <= source.len()
    &&& forall|i: int| from <= i < to ==> is_whitespace(#[trigger] source[i])
}

/// A run of blanks that ends at the end of the source or before a
/// character that is no blank is skipped whole.
pub proof fn lemma_blank_run(source: Seq<char>, from: int, to: int)
    requires
        blanks(source, from, to),
        to == source.len() || !is_whitespace(source[to]),
    ensures
        blank_run(source, from) == to - from,
    decreases to - from,
{
    if from < to {
        lemma_blank_run(source, from + 1, to);
    }
}

/// A digit is a factor of its own: it is consumed with the blanks after
/// it, and the one line that loads it is emitted.
pub proof fn lemma_digit_factor(source: Seq<char>, at: int)
    requires
        sees_digit(source, at),
    ensures
        factor(source, at) == (Parsed {
            consumed: 1 + blank_run(source, at + 1),
            lines: seq![load_immediate(source[at])],
            failure: None,
        }),
{
    assert(factor(source, at).lines == seq![load_immediate(source[at])]);
}

/// A single digit compiles to exactly one instruction, the one that loads
/// it into D0.
pub proof fn lemma_single_digit(digit: char)
    requires
        is_digit(digit),
    ensures
        expression(seq![digit], 0) == (Parsed {
            consumed: 1,
            lines: seq![load_immediate(digit)],
            failure: None,
        }),
{
    let source = seq![digit];
    lemma_digit_factor(source, 0);
    lemma_blank_run(source, 1, 1);
    let first = factor(source, 0);
    assert(term_tail(source, 1) == Parsed::nothing());
    assert(term(source, 0) == first.and(term_tail(source, 0int + first.consumed)));
    assert(term(source, 0).lines == first.lines);
    assert(expression_tail(source, 1) == Parsed::nothing());
    assert(expression(source, 0).lines == first.lines);
}

/// One of the four binary operators.
pub open spec fn is_operator(c: char) -> bool {
    c == '+' || c == '-' || c == '*' || c == '/'
}

/// The lines that combine the pushed left operand with the right operand
/// in D0.
pub open spec fn combining(operator: char) -> Seq<Seq<char>> {
    if operator == '+' {
        seq![add_popped()]
    } else if operator == '-' {
        seq![subtract_popped(), negate_d0()]
    } else if operator == '*' {
        seq![multiply_popped()]
    } else {
        seq![pop_d1(), divide_d1()]
    }
}

/// The code for `left operator right` over two digits.
pub open spec fn binary_code(left: char, operator: char, right: char) -> Seq<Seq<char>> {
    seq![load_immediate(left), push_d0(), load_immediate(right)] + combining(operator)
}

/// `source` is a digit, an operator and a digit, with any blanks after
/// each of them: the operator stands at `operator_at`, the second digit
/// at `right_at`.
pub open spec fn binary_source(
    source: Seq<char>,
    left: char,
    operator: char,
    right: char,
    operator_at: int,
    right_at: int,
) -> bool {
    &&& 0 < operator_at < right_at < source.len()
    &&& is_digit(left) && is_operator(operator) && is_digit(right)
    &&& source[0] == left
    &&& blanks(source, 1, operator_at)
    &&& source[operator_at] == operator
    &&& blanks(source, operator_at + 1, right_at)
    &&& source[right_at] == right
    &&& blanks(source, right_at + 1, source.len() as int)
}

/// A factor that no `*` or `/` follows is a term of its own.
pub proof fn lemma_term_of_factor(source: Seq<char>, at: int)
    requires
        factor(source, at).failure is None,
        !sees(source, at + factor(source, at).consumed, '*'),
        !sees(source, at + factor(source, at).consumed, '/'),
    ensures
        term(source, at) == factor(source, at),
{
    let first = factor(source, at);
    assert(term_tail(source, at + first.consumed) == Parsed::nothing());
    Parsed::lemma_with_nothing(first);
}

/// A term that no `+` or `-` follows, and that starts with neither, is an
/// expression of its own.
pub proof fn lemma_expression_of_term(source: Seq<char>, at: int)
    requires
        term(source, at).failure is None,
        !sees(source, at, '+'),
        !sees(source, at, '-'),
        !sees(source, at + term(source, at).consumed, '+'),
        !sees(source, at + term(source, at).consumed, '-'),
    ensures
        expression(source, at) == term(source, at),
{
    let first = term(source, at);
    assert(expression_tail(source, at + first.consumed) == Parsed::nothing());
    Parsed::lemma_with_nothing(first);
}

/// The tail of a term at an operator: the value so far is pushed, the
/// factor after the operator is parsed, the two are combined, and the
/// rest of the tail follows.
pub proof fn lemma_term_tail_step(source: Seq<char>, at: int, operator: char)
    requires
        operator == '*' || operator == '/',
        sees(source, at, operator),
        factor(source, at + 1 + blank_run(source, at + 1)).failure is None,
    ensures
        ({
            let right_at = at + 1 + blank_run(source, at + 1);
            let right = factor(source, right_at);
            let rest = term_tail(source, right_at + right.consumed);
            term_tail(source, at) == (Parsed {
                consumed: 1 + blank_run(source, at + 1) + right.consumed + rest.consumed,
                lines: seq![push_d0()] + right.lines + combining(operator) + rest.lines,
                failure: rest.failure,
            })
        }),
{
    let right_at = at + 1 + blank_run(source, at + 1);
    let right = factor(source, right_at);
    let rest = term_tail(source, right_at + right.consumed);
    assert(term_tail(source, at).lines == seq![push_d0()] + right.lines + combining(operator)
        + rest.lines);
}

/// The tail of an expression at an operator: the value so far is pushed,
/// the term after the operator is parsed, the two are combined, and the
/// rest of the tail follows.
pub proof fn lemma_expression_tail_step(source: Seq<char>, at: int, operator: char)
    requires
        operator == '+' || operator == '-',
        sees(source, at, operator),
        term(source, at + 1 + blank_run(source, at + 1)).failure is None,
    ensures
        ({
            let right_at = at + 1 + blank_run(source, at + 1);
            let right = term(source, right_at);
            let rest = expression_tail(source, right_at + right.consumed);
            expression_tail(source, at) == (Parsed {
                consumed: 1 + blank_run(source, at + 1) + right.consumed + rest.consumed,
                lines: seq![push_d0()] + right.lines + combining(operator) + rest.lines,
                failure: rest.failure,
            })
        }),
{
    let right_at = at + 1 + blank_run(source, at + 1);
    let right = term(source, right_at);
    let rest = expression_tail(source, right_at + right.consumed);
    assert(expression_tail(source, at).lines == seq![push_d0()] + right.lines + combining(
        operator,
    ) + rest.lines);
}

/// A digit, an operator and a digit compile to the code that loads the
/// first, pushes it, loads the second and combines the two, whatever
/// blanks stand after the three.
pub proof fn lemma_binary_expression(
    source: Seq<char>,
    left: char,
    operator: char,
    right: char,
    operator_at: int,
    right_at: int,
)
    requires
        binary_source(source, left, operator, right, operator_at, right_at),
    ensures
        expression(source, 0) == (Parsed {
            consumed: source.len(),
            lines: binary_code(left, operator, right),
            failure: None,
        }),
{
    let end = source.len() as int;
    lemma_digit_factor(source, 0);
    lemma_blank_run(source, 1, operator_at);
    lemma_digit_factor(source, right_at);
    lemma_blank_run(source, operator_at + 1, right_at);
    lemma_blank_run(source, right_at + 1, end);
    let first = factor(source, 0);
    let second = factor(source, right_at);
    let code = seq![push_d0()] + second.lines + combining(operator);
    assert(term_tail(source, end) == Parsed::nothing());
    assert(expression_tail(source, end) == Parsed::nothing());
    assert(code + Seq::<Seq<char>>::empty() == code);
    assert(first.lines + code == binary_code(left, operator, right));
    if operator == '*' || operator == '/' {
        lemma_term_tail_step(source, operator_at, operator);
        assert(term(source, 0) == first.and(term_tail(source, operator_at)));
        lemma_expression_of_term(source, 0);
    } else {
        lemma_term_of_factor(source, 0);
        lemma_term_of_factor(source, right_at);
        lemma_expression_tail_step(source, operator_at, operator);
        assert(expression(source, 0) == first.and(expression_tail(source, operator_at)));
    }
}

/// The value of `left operator right`.
pub open spec fn binary_value(left: int, operator: char, right: int) -> int {
    if operator == '+' {
        left + right
    } else if operator == '-' {
        left - right
    } else if operator == '*' {
        left * right
    } else {
        quotient(left, right)
    }
}

/// The machine after the first three lines of the code for a binary
/// expression: the left operand is on the stack, the right one in D0.
proof fn lemma_operands_loaded(left: char, right: char, rest: Seq<Seq<char>>)
    requires
        is_digit(left),
        is_digit(right),
    ensures
        run_program(
            seq![load_immediate(left), push_d0(), load_immediate(right)] + rest,
            Machine::fresh(),
        ) == run_program(
            rest,
            Machine {
                d0: Some(digit_value(right) as isize),
                d1: None,
                stack: seq![digit_value(left) as isize],
            },
        ),
{
    let lines = seq![load_immediate(left), push_d0(), load_immediate(right)] + rest;
    let start = Machine::fresh();
    let loaded = start.write(Register::D0, digit_value(left) as isize);
    let pushed = loaded.push(digit_value(left) as isize);
    let ready = pushed.write(Register::D0, digit_value(right) as isize);
    lemma_run_load_immediate(left, start);
    lemma_run_push(loaded);
    lemma_run_load_immediate(right, pushed);
    assert(lines[0] == load_immediate(left));
    assert(lines.skip(1)[0] == push_d0());
    assert(lines.skip(1).skip(1)[0] == load_immediate(right));
    assert(lines.skip(1).skip(1).skip(1) == rest);
    assert(run_program(lines, start) == run_program(lines.skip(1), loaded));
    assert(run_program(lines.skip(1), loaded) == run_program(lines.skip(1).skip(1), pushed));
    assert(run_program(lines.skip(1).skip(1), pushed) == run_program(rest, ready));
    assert(ready.stack == seq![digit_value(left) as isize]);
}

/// Running the code for `left operator right` over two digits leaves the
/// value of the expression in D0 and the stack empty. A division by the
/// digit zero stops at the dividing line.
pub proof fn lemma_binary_runs(left: char, operator: char, right: char)
    requires
        is_digit(left),
        is_operator(operator),
        is_digit(right),
    ensures
        ({
            let run = run_program(binary_code(left, operator, right), Machine::fresh());
            let value = binary_value(digit_value(left), operator, digit_value(right));
            if operator == '/' && right == '0' {
                run.failure == Some(AssemblyInterpreterError::DivisionByZero)
            } else {
                &&& run.failure is None
                &&& run.machine.d0 == Some(value as isize)
                &&& run.machine.stack == Seq::<isize>::empty()
                &&& 0 - 9 <= value <= 81
            }
        }),
{
    let l = digit_value(left) as isize;
    let r = digit_value(right) as isize;
    let rest = combining(operator);
    let ready = Machine { d0: Some(r), d1: None, stack: seq![l] };
    lemma_operands_loaded(left, right, rest);
    assert(ready.stack.drop_last() == Seq::<isize>::empty());
    assert(ready.stack.last() == l);
    assert(rest.skip(1).len() == rest.len() - 1);
    if operator == '+' {
        lemma_run_add(ready);
        lemma_pop_into_d0(Opcode::Add, ready);
        assert(run_program(rest.skip(1), run_instruction(rest[0], ready).machine)
            == Outcome::finished(run_instruction(rest[0], ready).machine));
    } else if operator == '-' {
        lemma_run_subtract(ready);
        lemma_pop_into_d0(Opcode::Sub, ready);
        let subtracted = run_instruction(rest[0], ready).machine;
        lemma_run_negate(subtracted);
        assert(rest.skip(1)[0] == negate_d0());
        assert(run_program(rest.skip(1).skip(1), subtracted) == Outcome::finished(subtracted));
    } else if operator == '*' {
        lemma_run_multiply(ready);
        lemma_pop_into_d0(Opcode::Muls, ready);
        assert(0 <= l * r <= 81) by (nonlinear_arith)
            requires
                0 <= l <= 9,
                0 <= r <= 9,
        ;
        assert(run_program(rest.skip(1), run_instruction(rest[0], ready).machine)
            == Outcome::finished(run_instruction(rest[0], ready).machine));
    } else {
        lemma_run_pop_d1(ready);
        let popped = run_instruction(rest[0], ready).machine;
        lemma_run_divide(popped);
        assert(rest.skip(1)[0] == divide_d1());
        if r != 0 {
            assert(0 <= l / r <= 9) by (nonlinear_arith)
                requires
                    0 <= l <= 9,
                    1 <= r <= 9,
            ;
            let divided = run_instruction(rest.skip(1)[0], popped).machine;
            assert(run_program(rest.skip(1).skip(1), divided) == Outcome::finished(divided));
        }
    }
}

/// The sum of two digits: the code is the four lines that load the
/// first digit, push it, load the second and add, and running it leaves
/// the sum in D0.
pub proof fn lemma_sum_of_digits(a: char, b: char)
    requires
        is_digit(a),
        is_digit(b),
    ensures
        expression(seq![a, '+', b], 0) == (Parsed {
            consumed: 3,
            lines: seq![load_immediate(a), push_d0(), load_immediate(b), add_popped()],
            failure: None,
        }),
        run_program(
            seq![load_immediate(a), push_d0(), load_immediate(b), add_popped()],
            Machine::fresh(),
        ).failure is None,
        run_program(
            seq![load_immediate(a), push_d0(), load_immediate(b), add_popped()],
            Machine::fresh(),
        ).machine.d0 == Some((digit_value(a) + digit_value(b)) as isize),
{
    let source = seq![a, '+', b];
    assert(blanks(source, 1, 1) && blanks(source, 2, 2) && blanks(source, 3, 3));
    lemma_binary_expression(source, a, '+', b, 1, 2);
    lemma_binary_runs(a, '+', b);
    assert(binary_code(a, '+', b) == seq![
        load_immediate(a),
        push_d0(),
        load_immediate(b),
        add_popped(),
    ]);
}

/// The difference of two digits: the code ends with the line that
/// subtracts and the line that negates, and running it leaves the first
/// digit minus the second in D0.
pub proof fn lemma_difference_of_digits(a: char, b: char)
    requires
        is_digit(a),
        is_digit(b),
    ensures
        expression(seq![a, '-', b], 0) == (Parsed {
            consumed: 3,
            lines: seq![
                load_immediate(a),
                push_d0(),
                load_immediate(b),
                subtract_popped(),
                negate_d0(),
            ],
            failure: None,
        }),
        run_program(expression(seq![a, '-', b], 0).lines, Machine::fresh()).failure is None,
        run_program(expression(seq![a, '-', b], 0).lines, Machine::fresh()).machine.d0 == Some(
            (digit_value(a) - digit_value(b)) as isize,
        ),
{
    let source = seq![a, '-', b];
    assert(blanks(source, 1, 1) && blanks(source, 2, 2) && blanks(source, 3, 3));
    lemma_binary_expression(source, a, '-', b, 1, 2);
    lemma_binary_runs(a, '-', b);
    assert(binary_code(a, '-', b) == seq![
        load_immediate(a),
        push_d0(),
        load_immediate(b),
        subtract_popped(),
        negate_d0(),
    ]);
}

/// Blanks do not change the code: a digit, an operator and a digit
/// compile to the same lines with blanks after each of them as without
/// any.
pub proof fn lemma_blanks_do_not_matter(
    spaced: Seq<char>,
    left: char,
    operator: char,
    right: char,
    operator_at: int,
    right_at: int,
)
    requires
        binary_source(spaced, left, operator, right, operator_at, right_at),
    ensures
        expression(spaced, 0).lines == expression(seq![left, operator, right], 0).lines,
        expression(spaced, 0).failure == expression(seq![left, operator, right], 0).failure,
{
    let plain = seq![left, operator, right];
    assert(blanks(plain, 1, 1) && blanks(plain, 2, 2) && blanks(plain, 3, 3));
    lemma_binary_expression(spaced, left, operator, right, operator_at, right_at);
    lemma_binary_expression(plain, left, operator, right, 1, 2);
}

/// Popping the empty stack ends the instruction with `EmptyStackPop`,
/// and the machine stays as it was before the operand.
pub proof fn lemma_empty_pop_aborts(opcode: Opcode, text: Seq<char>, at: int, before: Decoding)
    requires
        0 <= at < text.len(),
        operand_at(text, at) is Ok,
        operand_at(text, at).unwrap().0 == Operand::Pop,
        before.machine.stack.len() == 0,
    ensures
        run_operands(opcode, text, at, before) == Outcome::aborted(
            before.machine,
            AssemblyInterpreterError::EmptyStackPop,
        ),
{
}

/// Reading an unset register ends the instruction with
/// `UnsetRegisterRead`, and the machine stays as it was before the
/// operand. A register is read as a source, and as a destination by
/// every opcode but `MOVE`.
pub proof fn lemma_unset_read_aborts(
    opcode: Opcode,
    text: Seq<char>,
    at: int,
    before: Decoding,
    register: Register,
)
    requires
        0 <= at < text.len(),
        operand_at(text, at) is Ok,
        operand_at(text, at).unwrap().0 == Operand::Register(register),
        before.argument == 0 || (before.argument == 1 && opcode != Opcode::Move),
        before.machine.register(register) is None,
    ensures
        run_operands(opcode, text, at, before) == Outcome::aborted(
            before.machine,
            AssemblyInterpreterError::UnsetRegisterRead,
        ),
{
}

/// A line whose first word is no opcode ends with `UnknownOpcode`, and
/// the machine stays as it was.
pub proof fn lemma_unknown_opcode_aborts(line: Seq<char>, machine: Machine)
    requires
        opcode_named(opcode_word(line)) is None,
    ensures
        run_instruction(line, machine) == Outcome::aborted(
            machine,
            AssemblyInterpreterError::UnknownOpcode,
        ),
{
}

/// The line that fails ends the program: the machine is left as that
/// line left it, and no later line runs.
pub proof fn lemma_abort_ends_program(
    before: Seq<Seq<char>>,
    line: Seq<char>,
    after: Seq<Seq<char>>,
    machine: Machine,
)
    requires
        run_program(before, machine).failure is None,
        run_instruction(line, run_program(before, machine).machine).failure is Some,
    ensures
        run_program(before + seq![line] + after, machine) == run_instruction(
            line,
            run_program(before, machine).machine,
        ),
    decreases before.len(),
{
    let lines = before + seq![line] + after;
    if before.len() == 0 {
        assert(lines[0] == line);
    } else {
        let first = run_instruction(before[0], machine);
        assert(lines[0] == before[0]);
        assert(lines.skip(1) == before.skip(1) + seq![line] + after);
        lemma_abort_ends_program(before.skip(1), line, after, first.machine);
    }
}

/// Appending a line terminator and a last line without one to a text
/// appends that line to the lines of the text.
proof fn lemma_lines_from_push(text: Seq<char>, start: int, last: Seq<char>)
    requires
        0 <= start <= text.len(),
        is_line(last),
    ensures
        lines_from(text + seq!['\n'] + last, start) == lines_from(text, start).push(last),
    decreases text.len() - start,
{
    let longer = text + seq!['\n'] + last;
    lemma_distance_to_stops(text, start, '\n');
    let end = start + distance_to(text, start, '\n');
    assert forall|i: int| start <= i < end implies longer[i] != '\n' by {
        assert(longer[i] == text[i]);
    }
    lemma_distance_to(longer, start, end, '\n');
    assert(longer.subrange(start, end) == text.subrange(start, end));
    if end < text.len() {
        lemma_lines_from_push(text, end + 1, last);
        assert(seq![text.subrange(start, end)] + lines_from(text, end + 1).push(last) == (
        seq![text.subrange(start, end)] + lines_from(text, end + 1)).push(last));
    } else {
        let begin = text.len() as int + 1;
        assert forall|i: int| begin <= i < longer.len() implies longer[i] != '\n' by {
            assert(longer[i] == last[i - begin]);
        }
        lemma_distance_to(longer, begin, longer.len() as int, '\n');
        assert(longer.subrange(begin, longer.len() as int) == last);
        assert(lines_from(longer, begin) == seq![last]);
        assert(seq![text.subrange(start, end)] + seq![last] == seq![
            text.subrange(start, end),
        ].push(last));
    }
}

/// The text that a sink in memory holds after some lines is read back as
/// those lines: what the compiler writes is what the interpreter runs.
pub proof fn lemma_written_lines_read_back(lines: Seq<Seq<char>>)
    requires
        lines.len() > 0,
        are_lines(lines),
    ensures
        program_lines(written::<TestWriter>(lines)) == lines,
    decreases lines.len(),
{
    let text = written::<TestWriter>(lines);
    let front = lines.drop_last();
    let last = lines.last();
    assert(text == written::<TestWriter>(front) + (seq!['\n'] + last));
    assert(is_line(lines[lines.len() - 1]));
    if front.len() == 0 {
        assert(written::<TestWriter>(front) == Seq::<char>::empty());
        assert(text == seq!['\n'] + last);
        assert forall|i: int| 1 <= i < text.len() implies text[i] != '\n' by {
            assert(text[i] == last[i - 1]);
        }
        lemma_distance_to(text, 1, text.len() as int, '\n');
        assert(text.subrange(1, text.len() as int) == last);
        assert(lines == seq![last]);
    } else {
        assert forall|k: int| 0 <= k < front.len() implies is_line(#[trigger] front[k]) by {
            assert(front[k] == lines[k]);
        }
        lemma_written_lines_read_back(front);
        let shorter = written::<TestWriter>(front);
        assert(shorter.len() > 0 && shorter[0] == '\n') by {
            lemma_written_starts_with_terminator(front);
        }
        assert(text == shorter + seq!['\n'] + last);
        lemma_lines_from_push(shorter, 1, last);
        assert(text[0] == shorter[0]);
        assert(front.push(last) == lines);
    }
}

/// The text that a sink in memory holds after at least one line starts
/// with the line terminator.
proof fn lemma_written_starts_with_terminator(lines: Seq<Seq<char>>)
    requires
        lines.len() > 0,
    ensures
        written::<TestWriter>(lines).len() > 0,
        written::<TestWriter>(lines)[0] == '\n',
    decreases lines.len(),
{
    let front = lines.drop_last();
    if front.len() > 0 {
        lemma_written_starts_with_terminator(front);
    } else {
        assert(written::<TestWriter>(front) == Seq::<char>::empty());
    }
}

/// Compiling is a function of the source. Two compilers that stand at
/// the same position of the same source with the same text in their
/// sinks, and that parse the same nonterminal, end at the same position
/// with the same text in their sinks, whatever their readers are.
pub proof fn lemma_same_source_same_output<First: Reader, Second: Reader, W: Writer>(
    first: Compiler<First, W>,
    first_after: Compiler<First, W>,
    second: Compiler<Second, W>,
    second_after: Compiler<Second, W>,
    nonterminal: spec_fn(Seq<char>, int) -> Parsed,
)
    requires
        first.source() == second.source(),
        first.position() == second.position(),
        first.output() == second.output(),
        first_after.advanced(first, nonterminal(first.source(), first.position())),
        second_after.advanced(second, nonterminal(second.source(), second.position())),
    ensures
        first_after.output() == second_after.output(),
        first_after.position() == second_after.position(),
{
}

/// A number in decimal starts with a digit other than zero, unless the
/// number is zero.
proof fn lemma_decimal_starts(n: nat)
    requires
        n >= 1,
    ensures
        decimal(n).len() >= 1,
        n >= 10 ==> decimal(n).len() >= 2,
        decimal(n)[0] != '0',
    decreases n,
{
    if n >= 10 {
        lemma_decimal_starts(n / 10);
    } else {
        assert(digit_of(n) as int == '0' as int + n);
    }
}

/// Two numbers with the same decimal text are the same number.
proof fn lemma_decimal_injective(m: nat, n: nat)
    requires
        decimal(m) == decimal(n),
    ensures
        m == n,
    decreases m,
{
    if m < 10 && n < 10 {
        assert(decimal(m)[0] == digit_of(m));
        assert(decimal(n)[0] == digit_of(n));
        assert(digit_of(m) as int == '0' as int + m);
        assert(digit_of(n) as int == '0' as int + n);
    } else if m < 10 {
        lemma_decimal_starts(n);
    } else if n < 10 {
        lemma_decimal_starts(m);
    } else {
        let front_m = decimal(m / 10);
        let front_n = decimal(n / 10);
        assert(decimal(m).drop_last() == front_m);
        assert(decimal(n).drop_last() == front_n);
        assert(decimal(m).last() == digit_of(m % 10));
        assert(decimal(n).last() == digit_of(n % 10));
        assert(digit_of(m % 10) as int == '0' as int + m % 10);
        assert(digit_of(n % 10) as int == '0' as int + n % 10);
        lemma_decimal_injective(m / 10, n / 10);
    }
}

/// No label is used twice: labels with different numbers have different
/// names.
pub proof fn lemma_labels_differ(m: nat, n: nat)
    requires
        m != n,
    ensures
        label(m) != label(n),
{
    if label(m) == label(n) {
        if m < 10 && n < 10 {
            assert(label(m).skip(2) == decimal(m));
            assert(label(n).skip(2) == decimal(n));
            lemma_decimal_injective(m, n);
        } else if m < 10 {
            lemma_decimal_starts(n);
            assert(label(m)[1] == '0');
            assert(label(n)[1] == decimal(n)[0]);
        } else if n < 10 {
            lemma_decimal_starts(m);
            assert(label(n)[1] == '0');
            assert(label(m)[1] == decimal(m)[0]);
        } else {
            assert(label(m).skip(1) == decimal(m));
            assert(label(n).skip(1) == decimal(n));
            lemma_decimal_injective(m, n);
        }
    }
}

/// The lines that the compiler emits for arithmetic hold no line
/// terminator.
pub proof fn lemma_arithmetic_lines()
    ensures
        is_line(push_d0()),
        is_line(add_popped()),
        is_line(subtract_popped()),
        is_line(negate_d0()),
        is_line(multiply_popped()),
        is_line(pop_d1()),
        is_line(divide_d1()),
        forall|digit: char| is_digit(digit) ==> is_line(#[trigger] load_immediate(digit)),
{
    reveal_strlit("MOVE #");
    reveal_strlit(",D0");
    reveal_strlit("MOVE D0,-(SP)");
    reveal_strlit("ADD (SP)+,D0");
    reveal_strlit("SUB (SP)+,D0");
    reveal_strlit("NEG D0");
    reveal_strlit("MULS (SP)+,D0");
    reveal_strlit("MOVE (SP)+,D1");
    reveal_strlit("DIVS D1,D0");
    assert forall|digit: char| is_digit(digit) implies is_line(
        #[trigger] load_immediate(digit),
    ) by {
        assert(load_immediate(digit) == seq![
            'M',
            'O',
            'V',
            'E',
            ' ',
            '#',
            digit,
            ',',
            'D',
            '0',
        ]);
    }
}

/// No line of the code for a binary expression holds a line terminator.
proof fn lemma_binary_code_is_lines(left: char, operator: char, right: char)
    requires
        is_digit(left),
        is_operator(operator),
        is_digit(right),
    ensures
        binary_code(left, operator, right).len() > 0,
        are_lines(binary_code(left, operator, right)),
{
    lemma_arithmetic_lines();
}

/// Compiled to a sink in memory and evaluated from its text, a digit, an
/// operator and a digit leave the value of the expression in D0, unless
/// the expression divides by the digit zero.
pub proof fn lemma_binary_text_runs(left: char, operator: char, right: char)
    requires
        is_digit(left),
        is_operator(operator),
        is_digit(right),
        !(operator == '/' && right == '0'),
    ensures
        ({
            let text = written::<TestWriter>(expression(seq![left, operator, right], 0).lines);
            let run = evaluate(text, Machine::fresh());
            &&& run.failure is None
            &&& run.machine.d0 == Some(
                binary_value(digit_value(left), operator, digit_value(right)) as isize,
            )
        }),
{
    let source = seq![left, operator, right];
    assert(blanks(source, 1, 1) && blanks(source, 2, 2) && blanks(source, 3, 3));
    lemma_binary_expression(source, left, operator, right, 1, 2);
    lemma_binary_code_is_lines(left, operator, right);
    lemma_written_text_runs(binary_code(left, operator, right), Machine::fresh());
    lemma_binary_runs(left, operator, right);
}

/// The text that a compiler writes to a sink in memory runs as the lines
/// that it emitted: evaluating the text is running those lines.
pub proof fn lemma_written_text_runs(lines: Seq<Seq<char>>, machine: Machine)
    requires
        lines.len() > 0,
        are_lines(lines),
    ensures
        evaluate(written::<TestWriter>(lines), machine) == run_program(lines, machine),
{
    lemma_written_lines_read_back(lines);
}

} // verus!
