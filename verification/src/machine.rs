//! The state of the virtual machine: two registers and an operand stack.
use crate::error::AssemblyInterpreterError;
use vstd::prelude::*;

verus! {

/// One of the machine's two data registers.
#[derive(Clone, Copy, Debug, PartialEq, Eq, Structural)]
pub enum Register {
    D0,
    D1,
}

/// The machine as a mathematical value: each register is unset or holds an
/// integer, and the stack grows at its end.
pub struct Machine {
    pub d0: Option<isize>,
    pub d1: Option<isize>,
    pub stack: Seq<isize>,
}

impl Machine {
    /// The machine before anything ran: both registers unset, the stack empty.
    pub open spec fn fresh() -> Machine {
        Machine { d0: None, d1: None, stack: Seq::empty() }
    }

    /// What `register` holds, if anything.
    pub open spec fn register(self, register: Register) -> Option<isize> {
        match register {
            Register::D0 => self.d0,
            Register::D1 => self.d1,
        }
    }

    /// Reading a register fails while it is unset.
    pub open spec fn read(self, register: Register) -> Result<isize, AssemblyInterpreterError> {
        match self.register(register) {
            Some(value) => Ok(value),
            None => Err(AssemblyInterpreterError::UnsetRegisterRead),
        }
    }

    /// The machine with `value` in `register`.
    pub open spec fn write(self, register: Register, value: isize) -> Machine {
        match register {
            Register::D0 => Machine { d0: Some(value), ..self },
            Register::D1 => Machine { d1: Some(value), ..self },
        }
    }

    /// The machine with `value` on top of the stack.
    pub open spec fn push(self, value: isize) -> Machine {
        Machine { stack: self.stack.push(value), ..self }
    }

    /// The top of the stack and the machine without it; popping fails on
    /// the empty stack.
    pub open spec fn pop(self) -> Result<(isize, Machine), AssemblyInterpreterError> {
        if self.stack.len() > 0 {
            Ok((self.stack.last(), Machine { stack: self.stack.drop_last(), ..self }))
        } else {
            Err(AssemblyInterpreterError::EmptyStackPop)
        }
    }
}

/// The machine that the interpreter runs on.
#[derive(Debug)]
pub struct MachineState {
    d0: Option<isize>,
    d1: Option<isize>,
    stack: Vec<isize>,
}

impl View for MachineState {
    type V = Machine;

    closed spec fn view(&self) -> Machine {
        Machine { d0: self.d0, d1: self.d1, stack: self.stack@ }
    }
}

impl MachineState {
    pub fn new() -> (state: Self)
        ensures
            state@ == Machine::fresh(),
    {
        MachineState { d0: None, d1: None, stack: Vec::new() }
    }

    /// What `register` holds, unset or not.
    pub fn register(&self, register: Register) -> (held: Option<isize>)
        ensures
            held == self@.register(register),
    {
        match register {
            Register::D0 => self.d0,
            Register::D1 => self.d1,
        }
    }

    /// The number of values on the stack.
    pub fn depth(&self) -> (depth: usize)
        ensures
            depth == self@.stack.len(),
    {
        self.stack.len()
    }

    pub fn read(&self, register: Register) -> (value: Result<isize, AssemblyInterpreterError>)
        ensures
            value == self@.read(register),
    {
        match self.register(register) {
            Some(value) => Ok(value),
            None => Err(AssemblyInterpreterError::UnsetRegisterRead),
        }
    }

    pub fn write(&mut self, register: Register, value: isize)
        ensures
            final(self)@ == old(self)@.write(register, value),
    {
        match register {
            Register::D0 => {
                self.d0 = Some(value);
            },
            Register::D1 => {
                self.d1 = Some(value);
            },
        }
    }

    pub fn push(&mut self, value: isize)
        ensures
            final(self)@ == old(self)@.push(value),
    {
        self.stack.push(value);
    }

    /// On the empty stack this fails and leaves the machine as it was.
    pub fn pop(&mut self) -> (value: Result<isize, AssemblyInterpreterError>)
        ensures
            match old(self)@.pop() {
                Ok((top, rest)) => value == Ok::<isize, AssemblyInterpreterError>(top) && final(self)@ == rest,
                Err(failure) => value == Err::<isize, AssemblyInterpreterError>(failure) && final(self)@ == old(self)@,
            },
    {
        match self.stack.pop() {
            Some(value) => Ok(value),
            None => Err(AssemblyInterpreterError::EmptyStackPop),
        }
    }
}

} // verus!
