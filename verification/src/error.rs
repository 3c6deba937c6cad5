//! The typed failures of the compiler, the interpreter and the readers.
use vstd::prelude::*;

verus! {

/// Why the interpreter stopped. Every failure is fatal to the evaluation
/// that met it: the machine stays as it was when the failure was found.
#[derive(Clone, Copy, Debug, PartialEq, Eq, Structural)]
pub enum AssemblyInterpreterError {
    /// The line's first word is no opcode of the machine.
    UnknownOpcode,
    /// The operand text holds something that is no operand, or a register
    /// stands at an argument position other than the first two.
    UnknownOperand,
    /// `D` is followed by something other than `0` or `1`.
    UnknownRegister,
    /// A register was read before anything was written to it.
    UnsetRegisterRead,
    /// A value was popped from the empty stack.
    EmptyStackPop,
    /// `DIVS` met a zero divisor.
    DivisionByZero,
    /// The result of an operation does not fit in a register.
    Overflow,
}

/// What the parser required where the input held something else.
#[derive(Clone, Copy, Debug, PartialEq, Eq, Structural)]
pub enum Expected {
    /// A name: a letter, then letters and digits.
    Name,
    /// A single decimal digit.
    Integer,
    /// This very character.
    Char(char),
}

/// Why a compilation stopped. Every failure is fatal to the parse that
/// met it.
#[derive(Clone, Copy, Debug, PartialEq, Eq, Structural)]
pub enum CompilerError {
    /// A required token did not match the lookahead.
    ExpectedToken(Expected),
}

/// Why a reader took nothing in.
#[derive(Clone, Copy, Debug, PartialEq, Eq, Structural)]
pub enum ReaderError {
    /// The reader was asked for a kind of source that it does not serve.
    UnsupportedSource,
}

} // verus!
