//! What each line that the compiler emits does to the machine.
use crate::assembly::{
    add_popped, divide_d1, load_immediate, multiply_popped, negate_d0, pop_d1, push_d0,
    subtract_popped,
};
use crate::instruction::{opcode_word, operand_text, Opcode};
use crate::machine::{Machine, Register};
use crate::semantics::{
    combined, handle, run_instruction, run_operands, run_program, Outcome,
};
use crate::text::{digit_value, distance_to, is_digit};
use vstd::prelude::*;

verus! {

/// Where no `stop` stands from `from` up to `to`, the distance to the
/// first `stop` is at least `to - from`, and exactly that where `to` is
/// the end of the text or holds a `stop`.
pub proof fn lemma_distance_to(text: Seq<char>, from: int, to: int, stop: char)
    requires
        0 <= from <= to <= text.len(),
        forall|i: int| from <= i < to ==> text[i] != stop,
        to == text.len() || text[to] == stop,
    ensures
        distance_to(text, from, stop) == to - from,
    decreases to - from,
{
    if from < to {
        lemma_distance_to(text, from + 1, to, stop);
    }
}

/// The distance to the first `stop` ends at a `stop` or at the end of
/// the text, and passes no `stop` on its way.
pub proof fn lemma_distance_to_stops(text: Seq<char>, from: int, stop: char)
    requires
        0 <= from <= text.len(),
    ensures
        from + distance_to(text, from, stop) <= text.len(),
        forall|i: int|
            from <= i < from + distance_to(text, from, stop) ==> #[trigger] text[i] != stop,
        from + distance_to(text, from, stop) == text.len() || text[from + distance_to(
            text,
            from,
            stop,
        )] == stop,
    decreases text.len() - from,
{
    if from < text.len() && text[from] != stop {
        lemma_distance_to_stops(text, from + 1, stop);
    }
}

/// A line made of a word without a space, a space, and operand text
/// splits into that word and that operand text.
pub proof fn lemma_split(line: Seq<char>, word: Seq<char>, rands: Seq<char>)
    requires
        line == word + seq![' '] + rands,
        forall|i: int| 0 <= i < word.len() ==> word[i] != ' ',
    ensures
        opcode_word(line) == word,
        operand_text(line) == rands,
{
    lemma_distance_to(line, 0, word.len() as int, ' ');
    assert(line.subrange(0, word.len() as int) == word);
    assert(line.subrange(word.len() as int + 1, line.len() as int) == rands);
}

/// `#d,D0` under `MOVE` puts the value of the digit `d` in D0.
pub proof fn lemma_run_load_immediate(digit: char, machine: Machine)
    requires
        is_digit(digit),
    ensures
        run_instruction(load_immediate(digit), machine) == Outcome::finished(
            machine.write(Register::D0, digit_value(digit) as isize),
        ),
{
    reveal_strlit("MOVE #");
    reveal_strlit(",D0");
    let word = seq!['M', 'O', 'V', 'E'];
    let rands = seq!['#', digit, ',', 'D', '0'];
    assert(load_immediate(digit) == word + seq![' '] + rands);
    lemma_split(load_immediate(digit), word, rands);
    reveal_with_fuel(run_operands, 4);
}

/// `MOVE D0,-(SP)` pushes what D0 holds.
pub proof fn lemma_run_push(machine: Machine)
    requires
        machine.d0 is Some,
    ensures
        run_instruction(push_d0(), machine) == Outcome::finished(
            machine.push(machine.d0.unwrap()),
        ),
{
    reveal_strlit("MOVE D0,-(SP)");
    let word = seq!['M', 'O', 'V', 'E'];
    let rands = seq!['D', '0', ',', '-', '(', 'S', 'P', ')'];
    assert(push_d0() == word + seq![' '] + rands);
    lemma_split(push_d0(), word, rands);
    reveal_with_fuel(run_operands, 4);
}

/// What `(SP)+,D0` does under a combining opcode: the top of the stack is
/// popped and combined with what D0 holds.
pub proof fn lemma_pop_into_d0(opcode: Opcode, machine: Machine)
    requires
        opcode != Opcode::Move,
        machine.stack.len() > 0,
        machine.d0 is Some,
    ensures
        handle(opcode, seq!['(', 'S', 'P', ')', '+', ',', 'D', '0'], machine) == (match combined(
            opcode,
            machine.stack.last(),
            machine.d0.unwrap(),
        ) {
            Ok(value) => Outcome::finished(
                Machine { d0: Some(value), d1: machine.d1, stack: machine.stack.drop_last() },
            ),
            Err(failure) => Outcome::aborted(
                Machine { d0: machine.d0, d1: machine.d1, stack: machine.stack.drop_last() },
                failure,
            ),
        }),
{
    reveal_with_fuel(run_operands, 4);
}

/// `ADD (SP)+,D0` pops the top of the stack and adds it to D0.
pub proof fn lemma_run_add(machine: Machine)
    requires
        machine.stack.len() > 0,
        machine.d0 is Some,
    ensures
        run_instruction(add_popped(), machine) == handle(
            Opcode::Add,
            seq!['(', 'S', 'P', ')', '+', ',', 'D', '0'],
            machine,
        ),
{
    reveal_strlit("ADD (SP)+,D0");
    let word = seq!['A', 'D', 'D'];
    let rands = seq!['(', 'S', 'P', ')', '+', ',', 'D', '0'];
    assert(add_popped() == word + seq![' '] + rands);
    lemma_split(add_popped(), word, rands);
}

/// `SUB (SP)+,D0` pops the top of the stack and subtracts D0 from it.
pub proof fn lemma_run_subtract(machine: Machine)
    requires
        machine.stack.len() > 0,
        machine.d0 is Some,
    ensures
        run_instruction(subtract_popped(), machine) == handle(
            Opcode::Sub,
            seq!['(', 'S', 'P', ')', '+', ',', 'D', '0'],
            machine,
        ),
{
    reveal_strlit("SUB (SP)+,D0");
    let word = seq!['S', 'U', 'B'];
    let rands = seq!['(', 'S', 'P', ')', '+', ',', 'D', '0'];
    assert(subtract_popped() == word + seq![' '] + rands);
    lemma_split(subtract_popped(), word, rands);
}

/// `MULS (SP)+,D0` pops the top of the stack and multiplies it by D0.
pub proof fn lemma_run_multiply(machine: Machine)
    requires
        machine.stack.len() > 0,
        machine.d0 is Some,
    ensures
        run_instruction(multiply_popped(), machine) == handle(
            Opcode::Muls,
            seq!['(', 'S', 'P', ')', '+', ',', 'D', '0'],
            machine,
        ),
{
    reveal_strlit("MULS (SP)+,D0");
    let word = seq!['M', 'U', 'L', 'S'];
    let rands = seq!['(', 'S', 'P', ')', '+', ',', 'D', '0'];
    assert(multiply_popped() == word + seq![' '] + rands);
    lemma_split(multiply_popped(), word, rands);
}

/// `NEG D0` after a subtraction reads D0 and leaves the machine as it
/// is.
pub proof fn lemma_run_negate(machine: Machine)
    requires
        machine.d0 is Some,
    ensures
        run_instruction(negate_d0(), machine) == Outcome::finished(machine),
{
    reveal_strlit("NEG D0");
    let word = seq!['N', 'E', 'G'];
    let rands = seq!['D', '0'];
    assert(negate_d0() == word + seq![' '] + rands);
    lemma_split(negate_d0(), word, rands);
    reveal_with_fuel(run_operands, 2);
}

/// `MOVE (SP)+,D1` pops the top of the stack into D1.
pub proof fn lemma_run_pop_d1(machine: Machine)
    requires
        machine.stack.len() > 0,
    ensures
        run_instruction(pop_d1(), machine) == Outcome::finished(
            Machine {
                d0: machine.d0,
                d1: Some(machine.stack.last()),
                stack: machine.stack.drop_last(),
            },
        ),
{
    reveal_strlit("MOVE (SP)+,D1");
    let word = seq!['M', 'O', 'V', 'E'];
    let rands = seq!['(', 'S', 'P', ')', '+', ',', 'D', '1'];
    assert(pop_d1() == word + seq![' '] + rands);
    lemma_split(pop_d1(), word, rands);
    reveal_with_fuel(run_operands, 4);
}

/// `DIVS D1,D0` divides D1 by D0 and leaves the quotient in D0.
pub proof fn lemma_run_divide(machine: Machine)
    requires
        machine.d0 is Some,
        machine.d1 is Some,
    ensures
        run_instruction(divide_d1(), machine) == (match combined(
            Opcode::Divs,
            machine.d1.unwrap(),
            machine.d0.unwrap(),
        ) {
            Ok(value) => Outcome::finished(
                Machine { d0: Some(value), d1: machine.d1, stack: machine.stack },
            ),
            Err(failure) => Outcome::aborted(machine, failure),
        }),
{
    reveal_strlit("DIVS D1,D0");
    let word = seq!['D', 'I', 'V', 'S'];
    let rands = seq!['D', '1', ',', 'D', '0'];
    assert(divide_d1() == word + seq![' '] + rands);
    lemma_split(divide_d1(), word, rands);
    reveal_with_fuel(run_operands, 4);
}

/// A program of one line runs as that line.
pub proof fn lemma_run_single(line: Seq<char>, machine: Machine)
    ensures
        run_program(seq![line], machine) == run_instruction(line, machine),
{
    let lines = seq![line];
    let first = run_instruction(lines[0], machine);
    assert(lines.skip(1) == Seq::<Seq<char>>::empty());
    assert(run_program(lines.skip(1), first.machine) == Outcome::finished(first.machine));
}

/// Two programs one after the other: the second runs on the machine that
/// the first leaves, unless the first fails.
pub proof fn lemma_run_concat(first: Seq<Seq<char>>, second: Seq<Seq<char>>, machine: Machine)
    ensures
        run_program(first + second, machine) == if run_program(first, machine).failure is Some {
            run_program(first, machine)
        } else {
            run_program(second, run_program(first, machine).machine)
        },
    decreases first.len(),
{
    let all = first + second;
    if first.len() == 0 {
        assert(all == second);
    } else {
        assert(all[0] == first[0]);
        assert(all.skip(1) == first.skip(1) + second);
        let step = run_instruction(first[0], machine);
        if step.failure is None {
            lemma_run_concat(first.skip(1), second, step.machine);
        }
    }
}

} // verus!
