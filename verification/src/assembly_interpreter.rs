//! The interpreter: it decodes instruction lines and runs them on the
//! machine, one after the other, with no jumps.
pub use crate::error::AssemblyInterpreterError;
use crate::instruction::{decode_opcode, decode_operand, split_instruction, Opcode, Operand};
use crate::machine::{Machine, MachineState, Register};
use crate::semantics::{
    apply, combined, evaluate, handle, lines_from, magnitude, quotient, run_instruction,
    run_operands, run_program, Decoding,
};
use crate::text::{chars_of, find};
use vstd::prelude::*;
use vstd::slice::slice_subrange;

verus! {

/// Combines the carried source value with what the destination held.
pub fn combine(opcode: Opcode, source: isize, destination: isize) -> (value: Result<
    isize,
    AssemblyInterpreterError,
>)
    ensures
        value == combined(opcode, source, destination),
{
    let exact = match opcode {
        Opcode::Move => Some(source),
        Opcode::Add => source.checked_add(destination),
        Opcode::Sub => source.checked_sub(destination),
        Opcode::Neg => source.checked_sub(destination),
        Opcode::Muls => source.checked_mul(destination),
        Opcode::Divs => {
            if destination == 0 {
                return Err(AssemblyInterpreterError::DivisionByZero);
            }
            proof {
                lemma_quotient_by_cases(source as int, destination as int);
            }
            source.checked_div(destination)
        },
    };
    match exact {
        Some(value) => Ok(value),
        None => Err(AssemblyInterpreterError::Overflow),
    }
}

/// The quotient rounded toward zero, sign by sign.
proof fn lemma_quotient_by_cases(a: int, b: int)
    requires
        b != 0,
    ensures
        a == 0 ==> quotient(a, b) == 0,
        a > 0 && b > 0 ==> quotient(a, b) == a / b,
        a < 0 && b < 0 ==> quotient(a, b) == (a * -1) / (b * -1),
        a < 0 && b > 0 ==> quotient(a, b) == ((a * -1) / b) * -1,
        a > 0 && b < 0 ==> quotient(a, b) == (a / (b * -1)) * -1,
{
    if a == 0 {
        vstd::arithmetic::div_mod::lemma_div_basics(magnitude(b));
    }
}

/// The interpreter of the pseudo-assembly. It owns the machine, and
/// nothing else changes it.
#[derive(Debug)]
pub struct AssemblyInterpreter {
    machine: MachineState,
}

impl View for AssemblyInterpreter {
    type V = Machine;

    closed spec fn view(&self) -> Machine {
        self.machine@
    }
}

impl AssemblyInterpreter {
    /// An interpreter on a fresh machine.
    pub fn new() -> (interpreter: Self)
        ensures
            interpreter@ == Machine::fresh(),
    {
        AssemblyInterpreter { machine: MachineState::new() }
    }

    /// The machine as it stands.
    pub fn machine(&self) -> (machine: &MachineState)
        ensures
            machine@ == self@,
    {
        &self.machine
    }

    /// What register D0 holds.
    pub fn d0(&self) -> (held: Option<isize>)
        ensures
            held == self@.d0,
    {
        self.machine.register(Register::D0)
    }

    /// What register D1 holds.
    pub fn d1(&self) -> (held: Option<isize>)
        ensures
            held == self@.d1,
    {
        self.machine.register(Register::D1)
    }

    /// Runs a program text: one leading line terminator is dropped, the
    /// rest is split into lines at each `'\n'`, and the lines run in order
    /// until one fails.
    pub fn eval(&mut self, input: String) -> (run: Result<(), AssemblyInterpreterError>)
        ensures
            final(self)@ == evaluate(input@, old(self)@).machine,
            run == evaluate(input@, old(self)@).result(),
    {
        let text = chars_of(input.as_str());
        let mut start: usize = if text.len() > 0 && text[0] == '\n' {
            1
        } else {
            0
        };
        loop
            invariant
                text@ == input@,
                start <= text@.len(),
                run_program(lines_from(text@, start as int), self@) == evaluate(
                    input@,
                    old(self)@,
                ),
            decreases text@.len() - start,
        {
            let end = find(text.as_slice(), start, '\n');
            let line = slice_subrange(text.as_slice(), start, end);
            proof {
                let lines = lines_from(text@, start as int);
                assert(lines[0] == line@);
                if end < text@.len() {
                    assert(lines.skip(1) == lines_from(text@, end + 1));
                } else {
                    assert(lines.skip(1) == Seq::<Seq<char>>::empty());
                }
            }
            match self.run_line(line) {
                Ok(()) => {},
                Err(failure) => {
                    return Err(failure);
                },
            }
            if end >= text.len() {
                return Ok(());
            }
            start = end + 1;
        }
    }

    /// Runs one instruction line: the word before the first space names
    /// the opcode, the rest is the operand text.
    pub fn process_instruction(&mut self, instruction: String) -> (run: Result<
        (),
        AssemblyInterpreterError,
    >)
        ensures
            final(self)@ == run_instruction(instruction@, old(self)@).machine,
            run == run_instruction(instruction@, old(self)@).result(),
    {
        let line = chars_of(instruction.as_str());
        self.run_line(line.as_slice())
    }

    /// `process_instruction` on a line that is already split into
    /// characters.
    pub fn run_line(&mut self, line: &[char]) -> (run: Result<(), AssemblyInterpreterError>)
        ensures
            final(self)@ == run_instruction(line@, old(self)@).machine,
            run == run_instruction(line@, old(self)@).result(),
    {
        let (word, rands) = split_instruction(line);
        match decode_opcode(word) {
            Some(Opcode::Move) => self.move_op(rands),
            Some(Opcode::Add) => self.add_op(rands),
            Some(Opcode::Sub) => self.sub_op(rands),
            Some(Opcode::Neg) => self.sub_op(rands),
            Some(Opcode::Muls) => self.muls_op(rands),
            Some(Opcode::Divs) => self.divs_op(rands),
            None => Err(AssemblyInterpreterError::UnknownOpcode),
        }
    }

    /// `DIVS`: the destination becomes the source divided by what the
    /// destination held, rounded toward zero.
    pub fn divs_op(&mut self, rands: &[char]) -> (run: Result<(), AssemblyInterpreterError>)
        ensures
            final(self)@ == handle(Opcode::Divs, rands@, old(self)@).machine,
            run == handle(Opcode::Divs, rands@, old(self)@).result(),
    {
        self.execute(Opcode::Divs, rands)
    }

    /// `MULS`: the destination becomes the source times what the
    /// destination held.
    pub fn muls_op(&mut self, rands: &[char]) -> (run: Result<(), AssemblyInterpreterError>)
        ensures
            final(self)@ == handle(Opcode::Muls, rands@, old(self)@).machine,
            run == handle(Opcode::Muls, rands@, old(self)@).result(),
    {
        self.execute(Opcode::Muls, rands)
    }

    /// The negating handler: a register at the first argument position is
    /// negated in place; at the second it becomes the source minus what it
    /// held. It stands beside the dispatch: a `NEG` line is decoded by
    /// `sub_op`, because it follows a `SUB` that has already left source
    /// minus destination.
    pub fn neg_op(&mut self, rands: &[char]) -> (run: Result<(), AssemblyInterpreterError>)
        ensures
            final(self)@ == handle(Opcode::Neg, rands@, old(self)@).machine,
            run == handle(Opcode::Neg, rands@, old(self)@).result(),
    {
        self.execute(Opcode::Neg, rands)
    }

    /// `SUB`: the destination becomes the source minus what the
    /// destination held.
    pub fn sub_op(&mut self, rands: &[char]) -> (run: Result<(), AssemblyInterpreterError>)
        ensures
            final(self)@ == handle(Opcode::Sub, rands@, old(self)@).machine,
            run == handle(Opcode::Sub, rands@, old(self)@).result(),
    {
        self.execute(Opcode::Sub, rands)
    }

    /// `ADD`: the destination becomes the source plus what the
    /// destination held.
    pub fn add_op(&mut self, rands: &[char]) -> (run: Result<(), AssemblyInterpreterError>)
        ensures
            final(self)@ == handle(Opcode::Add, rands@, old(self)@).machine,
            run == handle(Opcode::Add, rands@, old(self)@).result(),
    {
        self.execute(Opcode::Add, rands)
    }

    /// `MOVE`: the destination becomes the source.
    pub fn move_op(&mut self, rands: &[char]) -> (run: Result<(), AssemblyInterpreterError>)
        ensures
            final(self)@ == handle(Opcode::Move, rands@, old(self)@).machine,
            run == handle(Opcode::Move, rands@, old(self)@).result(),
    {
        self.execute(Opcode::Move, rands)
    }

    /// Decodes the operand text from left to right and applies each
    /// operand as soon as it is decoded.
    fn execute(&mut self, opcode: Opcode, rands: &[char]) -> (run: Result<
        (),
        AssemblyInterpreterError,
    >)
        ensures
            final(self)@ == handle(opcode, rands@, old(self)@).machine,
            run == handle(opcode, rands@, old(self)@).result(),
    {
        let mut carried: isize = 0;
        let mut argument: usize = 0;
        let mut at: usize = 0;
        while at < rands.len()
            invariant
                at <= rands@.len(),
                argument <= at,
                run_operands(
                    opcode,
                    rands@,
                    at as int,
                    Decoding { machine: self@, carried, argument: argument as nat },
                ) == handle(opcode, rands@, old(self)@),
            decreases rands@.len() - at,
        {
            let (operand, length) = match decode_operand(rands, at) {
                Ok(decoded) => decoded,
                Err(failure) => {
                    return Err(failure);
                },
            };
            match self.step(opcode, operand, carried, argument) {
                Ok(after) => {
                    carried = after.0;
                    argument = after.1;
                },
                Err(failure) => {
                    return Err(failure);
                },
            }
            at += length;
        }
        Ok(())
    }

    /// Applies one decoded operand; returns the carried value and the
    /// argument position that follow it. A failure leaves the machine as
    /// it was.
    fn step(&mut self, opcode: Opcode, operand: Operand, carried: isize, argument: usize) -> (after:
        Result<(isize, usize), AssemblyInterpreterError>)
        requires
            argument < usize::MAX,
        ensures
            match apply(
                opcode,
                operand,
                Decoding { machine: old(self)@, carried, argument: argument as nat },
            ) {
                Ok(next) => after == Ok::<(isize, usize), AssemblyInterpreterError>(
                    (next.carried, next.argument as usize),
                ) && final(self)@ == next.machine && next.argument <= argument + 1 && (
                operand != Operand::Separator ==> next.argument == argument),
                Err(failure) => after == Err::<(isize, usize), AssemblyInterpreterError>(failure)
                    && final(self)@ == old(self)@,
            },
    {
        match operand {
            Operand::Immediate(value) => Ok((value, argument)),
            Operand::Separator => Ok((carried, argument + 1)),
            Operand::Push => {
                self.machine.push(carried);
                Ok((carried, argument))
            },
            Operand::Pop => {
                let top = self.machine.pop()?;
                Ok((top, argument))
            },
            Operand::Register(register) => {
                if argument == 0 {
                    let held = self.machine.read(register)?;
                    match opcode {
                        Opcode::Neg => match 0isize.checked_sub(held) {
                            Some(negated) => {
                                self.machine.write(register, negated);
                                Ok((carried, argument))
                            },
                            None => Err(AssemblyInterpreterError::Overflow),
                        },
                        _ => Ok((held, argument)),
                    }
                } else if argument == 1 {
                    match opcode {
                        Opcode::Move => {
                            self.machine.write(register, carried);
                            Ok((carried, argument))
                        },
                        _ => {
                            let held = self.machine.read(register)?;
                            let value = combine(opcode, carried, held)?;
                            self.machine.write(register, value);
                            Ok((carried, argument))
                        },
                    }
                } else {
                    Err(AssemblyInterpreterError::UnknownOperand)
                }
            },
        }
    }
}

} // verus!
