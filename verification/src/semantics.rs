//! What a program means: the machine that each instruction, line and
//! program text leaves behind, as mathematical functions.
use crate::error::AssemblyInterpreterError;
use crate::instruction::{opcode_named, opcode_word, operand_at, operand_text, Opcode, Operand};
use crate::machine::Machine;
use crate::text::distance_to;
use vstd::prelude::*;

verus! {

/// How a run ended: the machine as it was left, and the failure that
/// stopped the run, if one did. After a failure the machine is as it was
/// when the failure was found: nothing later has touched it.
pub struct Outcome {
    pub machine: Machine,
    pub failure: Option<AssemblyInterpreterError>,
}

impl Outcome {
    /// The run came to its end.
    pub open spec fn finished(machine: Machine) -> Outcome {
        Outcome { machine, failure: None }
    }

    /// The run stopped at a failure, with the machine as it then was.
    pub open spec fn aborted(machine: Machine, failure: AssemblyInterpreterError) -> Outcome {
        Outcome { machine, failure: Some(failure) }
    }

    /// The outcome as a function returns it.
    pub open spec fn result(self) -> Result<(), AssemblyInterpreterError> {
        match self.failure {
            None => Ok(()),
            Some(failure) => Err(failure),
        }
    }
}

/// The decoder's state between two operands of one instruction.
pub struct Decoding {
    pub machine: Machine,
    /// The value in flight: what the last source operand produced.
    pub carried: isize,
    /// The argument position: how many separators have been passed.
    pub argument: nat,
}

impl Decoding {
    /// The state at the start of an instruction.
    pub open spec fn start(machine: Machine) -> Decoding {
        Decoding { machine, carried: 0, argument: 0 }
    }
}

/// The absolute value of `a`.
pub open spec fn magnitude(a: int) -> int {
    if a < 0 {
        -a
    } else {
        a
    }
}

/// The quotient of `a` by `b`, rounded toward zero.
pub open spec fn quotient(a: int, b: int) -> int
    recommends
        b != 0,
{
    let q = magnitude(a) / magnitude(b);
    if (a < 0) != (b < 0) {
        -q
    } else {
        q
    }
}

/// A value that a register can hold.
pub open spec fn fits(value: int) -> bool {
    isize::MIN <= value <= isize::MAX
}

/// The exact result of combining the source value with the destination's
/// prior value.
pub open spec fn combination(opcode: Opcode, source: int, destination: int) -> int {
    match opcode {
        Opcode::Move => source,
        Opcode::Add => source + destination,
        Opcode::Sub => source - destination,
        Opcode::Neg => source - destination,
        Opcode::Muls => source * destination,
        Opcode::Divs => quotient(source, destination),
    }
}

/// What the destination holds after the instruction, or why it cannot be
/// computed.
pub open spec fn combined(opcode: Opcode, source: isize, destination: isize) -> Result<
    isize,
    AssemblyInterpreterError,
> {
    if opcode == Opcode::Divs && destination == 0 {
        Err(AssemblyInterpreterError::DivisionByZero)
    } else if !fits(combination(opcode, source as int, destination as int)) {
        Err(AssemblyInterpreterError::Overflow)
    } else {
        Ok(combination(opcode, source as int, destination as int) as isize)
    }
}

/// The decoder's state after one operand.
///
/// A register at the first argument position is a source: its value is
/// carried on (`NEG` negates it in place instead). At the second position
/// it is the destination: `MOVE` stores the carried value, every other
/// opcode combines the carried value with what the register held.
pub open spec fn apply(opcode: Opcode, operand: Operand, before: Decoding) -> Result<
    Decoding,
    AssemblyInterpreterError,
> {
    match operand {
        Operand::Immediate(value) => Ok(Decoding { carried: value, ..before }),
        Operand::Separator => Ok(Decoding { argument: before.argument + 1, ..before }),
        Operand::Push => Ok(
            Decoding { machine: before.machine.push(before.carried), ..before },
        ),
        Operand::Pop => match before.machine.pop() {
            Ok((top, rest)) => Ok(Decoding { machine: rest, carried: top, ..before }),
            Err(failure) => Err(failure),
        },
        Operand::Register(register) => if before.argument == 0 {
            match before.machine.read(register) {
                Ok(held) => if opcode != Opcode::Neg {
                    Ok(Decoding { carried: held, ..before })
                } else if fits(-held) {
                    Ok(
                        Decoding {
                            machine: before.machine.write(register, (-held) as isize),
                            ..before
                        },
                    )
                } else {
                    Err(AssemblyInterpreterError::Overflow)
                },
                Err(failure) => Err(failure),
            }
        } else if before.argument == 1 {
            if opcode == Opcode::Move {
                Ok(Decoding { machine: before.machine.write(register, before.carried), ..before })
            } else {
                match before.machine.read(register) {
                    Ok(held) => match combined(opcode, before.carried, held) {
                        Ok(value) => Ok(
                            Decoding { machine: before.machine.write(register, value), ..before },
                        ),
                        Err(failure) => Err(failure),
                    },
                    Err(failure) => Err(failure),
                }
            }
        } else {
            Err(AssemblyInterpreterError::UnknownOperand)
        },
    }
}

/// Decodes and applies the operands of `text` from index `at` on, one
/// after the other, and stops at the first that fails.
pub open spec fn run_operands(opcode: Opcode, text: Seq<char>, at: int, before: Decoding) -> Outcome
    decreases text.len() - at,
{
    if 0 <= at < text.len() {
        match operand_at(text, at) {
            Ok((operand, length)) => match apply(opcode, operand, before) {
                Ok(after) => run_operands(opcode, text, at + length, after),
                Err(failure) => Outcome::aborted(before.machine, failure),
            },
            Err(failure) => Outcome::aborted(before.machine, failure),
        }
    } else {
        Outcome::finished(before.machine)
    }
}

/// What one opcode handler does with operand text.
pub open spec fn handle(opcode: Opcode, text: Seq<char>, machine: Machine) -> Outcome {
    run_operands(opcode, text, 0, Decoding::start(machine))
}

/// The handler that runs a line with this opcode. `NEG` follows
/// `SUB (SP)+,D0`, which has already left source minus destination in the
/// register, so its operands are decoded as those of `SUB` are: a lone
/// register is read and keeps its value.
pub open spec fn handler_for(opcode: Opcode) -> Opcode {
    match opcode {
        Opcode::Neg => Opcode::Sub,
        other => other,
    }
}

/// One instruction line.
pub open spec fn run_instruction(line: Seq<char>, machine: Machine) -> Outcome {
    match opcode_named(opcode_word(line)) {
        Some(opcode) => handle(handler_for(opcode), operand_text(line), machine),
        None => Outcome::aborted(machine, AssemblyInterpreterError::UnknownOpcode),
    }
}

/// The lines in order; the first that fails ends the run.
pub open spec fn run_program(lines: Seq<Seq<char>>, machine: Machine) -> Outcome
    decreases lines.len(),
{
    if lines.len() == 0 {
        Outcome::finished(machine)
    } else {
        let first = run_instruction(lines[0], machine);
        if first.failure is Some {
            first
        } else {
            run_program(lines.skip(1), first.machine)
        }
    }
}

/// A line holds no line terminator.
pub open spec fn is_line(line: Seq<char>) -> bool {
    forall|i: int| 0 <= i < line.len() ==> line[i] != '\n'
}

/// Each of `lines` is a line.
pub open spec fn are_lines(lines: Seq<Seq<char>>) -> bool {
    forall|k: int| 0 <= k < lines.len() ==> is_line(#[trigger] lines[k])
}

/// The lines of `text` from index `start` on: a line ends before each
/// `'\n'`, and the last at the end of the text.
pub open spec fn lines_from(text: Seq<char>, start: int) -> Seq<Seq<char>>
    decreases text.len() - start,
{
    let end = start + distance_to(text, start, '\n');
    let line = text.subrange(start, end);
    if 0 <= start && end < text.len() {
        seq![line] + lines_from(text, end + 1)
    } else {
        seq![line]
    }
}

/// Where the first line of a program text starts: after one leading line
/// terminator, where there is one.
pub open spec fn program_start(text: Seq<char>) -> int {
    if text.len() > 0 && text[0] == '\n' {
        1
    } else {
        0
    }
}

/// The instruction lines of a program text.
pub open spec fn program_lines(text: Seq<char>) -> Seq<Seq<char>> {
    lines_from(text, program_start(text))
}

/// A whole program text.
pub open spec fn evaluate(text: Seq<char>, machine: Machine) -> Outcome {
    run_program(program_lines(text), machine)
}

} // verus!
