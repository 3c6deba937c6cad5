//! The instruction text: a line is an opcode word, a space, and operand
//! text that is decoded from left to right, one operand at a time.
use crate::error::AssemblyInterpreterError;
use crate::machine::Register;
use crate::text::{digit, digit_value, distance_to, find, is_digit, value_of_digit};
use vstd::prelude::*;
use vstd::slice::slice_subrange;

verus! {

/// The operations of the machine.
#[derive(Clone, Copy, Debug, PartialEq, Eq, Structural)]
pub enum Opcode {
    Move,
    Add,
    Sub,
    Neg,
    Muls,
    Divs,
}

/// One operand of an instruction.
#[derive(Clone, Copy, Debug, PartialEq, Eq, Structural)]
pub enum Operand {
    /// `#d`: the value of the digit `d`.
    Immediate(isize),
    /// `D0` or `D1`.
    Register(Register),
    /// `-(SP)`: push onto the stack.
    Push,
    /// `(SP)+`: pop from the stack.
    Pop,
    /// `,`: the next argument begins.
    Separator,
}

/// The opcode that `word` names, if any.
pub open spec fn opcode_named(word: Seq<char>) -> Option<Opcode> {
    if word == seq!['M', 'O', 'V', 'E'] {
        Some(Opcode::Move)
    } else if word == seq!['A', 'D', 'D'] {
        Some(Opcode::Add)
    } else if word == seq!['S', 'U', 'B'] {
        Some(Opcode::Sub)
    } else if word == seq!['N', 'E', 'G'] {
        Some(Opcode::Neg)
    } else if word == seq!['M', 'U', 'L', 'S'] {
        Some(Opcode::Muls)
    } else if word == seq!['D', 'I', 'V', 'S'] {
        Some(Opcode::Divs)
    } else {
        None
    }
}

/// The opcode word of `line`: what comes before its first space.
pub open spec fn opcode_word(line: Seq<char>) -> Seq<char> {
    line.subrange(0, distance_to(line, 0, ' ') as int)
}

/// The operand text of `line`: what follows its first space. A line
/// without a space is read again from its start.
pub open spec fn operand_text(line: Seq<char>) -> Seq<char> {
    let word = distance_to(line, 0, ' ') as int;
    if word < line.len() {
        line.subrange(word + 1, line.len() as int)
    } else {
        line
    }
}

/// Whether the four characters of `text` after index `at` are `a`, `b`,
/// `c`, `d`.
pub open spec fn followed_by(text: Seq<char>, at: int, a: char, b: char, c: char, d: char) -> bool {
    &&& at + 5 <= text.len()
    &&& text[at + 1] == a
    &&& text[at + 2] == b
    &&& text[at + 3] == c
    &&& text[at + 4] == d
}

/// The operand that starts at index `at` of `text`, and its length in
/// characters.
pub open spec fn operand_at(text: Seq<char>, at: int) -> Result<
    (Operand, nat),
    AssemblyInterpreterError,
>
    recommends
        0 <= at < text.len(),
{
    let c = text[at];
    if c == '(' {
        if followed_by(text, at, 'S', 'P', ')', '+') {
            Ok((Operand::Pop, 5))
        } else {
            Err(AssemblyInterpreterError::UnknownOperand)
        }
    } else if c == '-' {
        if followed_by(text, at, '(', 'S', 'P', ')') {
            Ok((Operand::Push, 5))
        } else {
            Err(AssemblyInterpreterError::UnknownOperand)
        }
    } else if c == '#' {
        if at + 1 < text.len() && is_digit(text[at + 1]) {
            Ok((Operand::Immediate(digit_value(text[at + 1]) as isize), 2))
        } else {
            Err(AssemblyInterpreterError::UnknownOperand)
        }
    } else if c == ',' {
        Ok((Operand::Separator, 1))
    } else if c == 'D' {
        if at + 1 < text.len() && text[at + 1] == '0' {
            Ok((Operand::Register(Register::D0), 2))
        } else if at + 1 < text.len() && text[at + 1] == '1' {
            Ok((Operand::Register(Register::D1), 2))
        } else {
            Err(AssemblyInterpreterError::UnknownRegister)
        }
    } else {
        Err(AssemblyInterpreterError::UnknownOperand)
    }
}

/// Decodes an opcode word.
pub fn decode_opcode(word: &[char]) -> (opcode: Option<Opcode>)
    ensures
        opcode == opcode_named(word@),
{
    let n = word.len();
    if n == 4 && word[0] == 'M' && word[1] == 'O' && word[2] == 'V' && word[3] == 'E' {
        assert(word@ =~= seq!['M', 'O', 'V', 'E']);
        Some(Opcode::Move)
    } else if n == 3 && word[0] == 'A' && word[1] == 'D' && word[2] == 'D' {
        assert(word@ =~= seq!['A', 'D', 'D']);
        Some(Opcode::Add)
    } else if n == 3 && word[0] == 'S' && word[1] == 'U' && word[2] == 'B' {
        assert(word@ =~= seq!['S', 'U', 'B']);
        Some(Opcode::Sub)
    } else if n == 3 && word[0] == 'N' && word[1] == 'E' && word[2] == 'G' {
        assert(word@ =~= seq!['N', 'E', 'G']);
        Some(Opcode::Neg)
    } else if n == 4 && word[0] == 'M' && word[1] == 'U' && word[2] == 'L' && word[3] == 'S' {
        assert(word@ =~= seq!['M', 'U', 'L', 'S']);
        Some(Opcode::Muls)
    } else if n == 4 && word[0] == 'D' && word[1] == 'I' && word[2] == 'V' && word[3] == 'S' {
        assert(word@ =~= seq!['D', 'I', 'V', 'S']);
        Some(Opcode::Divs)
    } else {
        assert(seq!['M', 'O', 'V', 'E'].len() == 4 && seq!['M', 'U', 'L', 'S'].len() == 4
            && seq!['D', 'I', 'V', 'S'].len() == 4);
        assert(seq!['A', 'D', 'D'].len() == 3 && seq!['S', 'U', 'B'].len() == 3
            && seq!['N', 'E', 'G'].len() == 3);
        None
    }
}

/// Splits a line at its first space into the opcode word and the operand
/// text.
pub fn split_instruction(line: &[char]) -> (parts: (&[char], &[char]))
    ensures
        parts.0@ == opcode_word(line@),
        parts.1@ == operand_text(line@),
{
    let space = find(line, 0, ' ');
    let word = slice_subrange(line, 0, space);
    if space < line.len() {
        (word, slice_subrange(line, space + 1, line.len()))
    } else {
        assert(line@.subrange(0, line@.len() as int) == line@);
        (word, line)
    }
}

fn follows(text: &[char], at: usize, a: char, b: char, c: char, d: char) -> (yes: bool)
    requires
        at < text@.len(),
    ensures
        yes == followed_by(text@, at as int, a, b, c, d),
{
    text.len() - at >= 5 && text[at + 1] == a && text[at + 2] == b && text[at + 3] == c && text[at
        + 4] == d
}

/// Decodes the operand that starts at index `at` of `text`.
pub fn decode_operand(text: &[char], at: usize) -> (decoded: Result<
    (Operand, usize),
    AssemblyInterpreterError,
>)
    requires
        at < text@.len(),
    ensures
        match operand_at(text@, at as int) {
            Ok((operand, length)) => decoded == Ok::<(Operand, usize), AssemblyInterpreterError>(
                (operand, length as usize),
            ) && at + length <= text@.len(),
            Err(failure) => decoded == Err::<(Operand, usize), AssemblyInterpreterError>(failure),
        },
{
    let c = text[at];
    if c == '(' {
        if follows(text, at, 'S', 'P', ')', '+') {
            Ok((Operand::Pop, 5))
        } else {
            Err(AssemblyInterpreterError::UnknownOperand)
        }
    } else if c == '-' {
        if follows(text, at, '(', 'S', 'P', ')') {
            Ok((Operand::Push, 5))
        } else {
            Err(AssemblyInterpreterError::UnknownOperand)
        }
    } else if c == '#' {
        if text.len() - at >= 2 && digit(text[at + 1]) {
            Ok((Operand::Immediate(value_of_digit(text[at + 1])), 2))
        } else {
            Err(AssemblyInterpreterError::UnknownOperand)
        }
    } else if c == ',' {
        Ok((Operand::Separator, 1))
    } else if c == 'D' {
        if text.len() - at >= 2 && text[at + 1] == '0' {
            Ok((Operand::Register(Register::D0), 2))
        } else if text.len() - at >= 2 && text[at + 1] == '1' {
            Ok((Operand::Register(Register::D1), 2))
        } else {
            Err(AssemblyInterpreterError::UnknownRegister)
        }
    } else {
        Err(AssemblyInterpreterError::UnknownOperand)
    }
}

} // verus!
