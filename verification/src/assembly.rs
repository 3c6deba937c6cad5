//! The lines that the compiler emits, and the text of its diagnostics.
use crate::error::{CompilerError, Expected};
use crate::text::{decimal, push_decimal};
use vstd::prelude::*;

verus! {

/// `MOVE #d,D0`: load the digit `d` into D0.
pub open spec fn load_immediate(digit: char) -> Seq<char> {
    "MOVE #"@.push(digit) + ",D0"@
}

/// Push D0 onto the stack.
pub open spec fn push_d0() -> Seq<char> {
    "MOVE D0,-(SP)"@
}

/// Add the popped value to D0.
pub open spec fn add_popped() -> Seq<char> {
    "ADD (SP)+,D0"@
}

/// Subtract D0 from the popped value.
pub open spec fn subtract_popped() -> Seq<char> {
    "SUB (SP)+,D0"@
}

/// The line that closes a subtraction.
pub open spec fn negate_d0() -> Seq<char> {
    "NEG D0"@
}

/// Multiply the popped value by D0.
pub open spec fn multiply_popped() -> Seq<char> {
    "MULS (SP)+,D0"@
}

/// Pop the dividend into D1.
pub open spec fn pop_d1() -> Seq<char> {
    "MOVE (SP)+,D1"@
}

/// Divide D1 by D0.
pub open spec fn divide_d1() -> Seq<char> {
    "DIVS D1,D0"@
}

/// Clear D0, before a leading sign.
pub open spec fn clear_d0() -> Seq<char> {
    "CLR D0"@
}

/// Call the subroutine `name`.
pub open spec fn call(name: Seq<char>) -> Seq<char> {
    "BSR "@ + name
}

/// Load the variable `name` into D0.
pub open spec fn load_variable(name: Seq<char>) -> Seq<char> {
    "MOVE "@ + name + "(PC),D0"@
}

/// Load the address of the variable `name` into A0.
pub open spec fn load_address(name: Seq<char>) -> Seq<char> {
    "LEA "@ + name + "(PC),A0"@
}

/// Store D0 where A0 points.
pub open spec fn store_d0() -> Seq<char> {
    "MOVE D0,(A0)"@
}

/// The name of the branch target with this number: `L` and the number in
/// decimal, with at least two digits.
pub open spec fn label(number: nat) -> Seq<char> {
    if number < 10 {
        seq!['L', '0'] + decimal(number)
    } else {
        seq!['L'] + decimal(number)
    }
}

/// The description of a failure, such as `Name expected`.
pub open spec fn description(what: Expected) -> Seq<char> {
    match what {
        Expected::Name => "Name expected"@,
        Expected::Integer => "Integer expected"@,
        Expected::Char(c) => seq!['"', c, '"'] + " expected"@,
    }
}

/// The diagnostic line for a failure with this description.
pub open spec fn report(message: Seq<char>) -> Seq<char> {
    "\n\x1b[0;31mError: "@ + message + "\x1b[0m"@
}

/// The diagnostic line that reports a missing token.
pub open spec fn diagnostic(what: Expected) -> Seq<char> {
    report(description(what))
}

/// The line `MOVE #d,D0`.
pub fn load_immediate_line(digit: char) -> (line: String)
    ensures
        line@ == load_immediate(digit),
{
    let mut line = String::from_str("MOVE #");
    line.push(digit);
    line.append(",D0");
    line
}

/// The line `BSR name`.
pub fn call_line(name: &str) -> (line: String)
    ensures
        line@ == call(name@),
{
    let mut line = String::from_str("BSR ");
    line.append(name);
    line
}

/// The line `MOVE name(PC),D0`.
pub fn load_variable_line(name: &str) -> (line: String)
    ensures
        line@ == load_variable(name@),
{
    let mut line = String::from_str("MOVE ");
    line.append(name);
    line.append("(PC),D0");
    line
}

/// The line `LEA name(PC),A0`.
pub fn load_address_line(name: &str) -> (line: String)
    ensures
        line@ == load_address(name@),
{
    let mut line = String::from_str("LEA ");
    line.append(name);
    line.append("(PC),A0");
    line
}

/// The name of the branch target with this number.
pub fn label_text(number: usize) -> (text: String)
    ensures
        text@ == label(number as nat),
{
    let mut text = String::new();
    text.push('L');
    if number < 10 {
        text.push('0');
    }
    push_decimal(&mut text, number);
    text
}

/// The diagnostic line for a failure with this description.
pub fn diagnostic_line(message: &str) -> (line: String)
    ensures
        line@ == report(message@),
{
    let mut line = String::from_str("\n\x1b[0;31mError: ");
    line.append(message);
    line.append("\x1b[0m");
    line
}

impl Expected {
    /// The description of what was expected, such as `Name expected`.
    pub fn message(&self) -> (message: String)
        ensures
            message@ == description(*self),
    {
        match self {
            Expected::Name => String::from_str("Name expected"),
            Expected::Integer => String::from_str("Integer expected"),
            Expected::Char(c) => {
                let mut message = String::new();
                message.push('"');
                message.push(*c);
                message.push('"');
                message.append(" expected");
                assert(message@ == seq!['"', *c, '"'] + " expected"@);
                message
            },
        }
    }
}

impl CompilerError {
    /// The description of the failure.
    pub fn message(&self) -> (message: String)
        ensures
            message@ == match *self {
                CompilerError::ExpectedToken(what) => description(what),
            },
    {
        match self {
            CompilerError::ExpectedToken(what) => what.message(),
        }
    }
}

} // verus!
