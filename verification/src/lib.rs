//! A single-pass compiler from infix arithmetic and assignments to the
//! pseudo-assembly of a machine with two registers and a stack, and an
//! interpreter for that assembly.
//!
//! The compiler ([`compiler`]) reads characters from a source
//! ([`reader`]) and writes instruction lines to a sink ([`writer`]); what
//! it emits for which source is defined in [`grammar`], over the lines of
//! [`assembly`]. The interpreter ([`assembly_interpreter`]) decodes
//! instruction lines ([`instruction`]) and runs them on the machine
//! ([`machine`]); what they do is defined in [`semantics`].
//!
//! What holds of the two together is proved in [`laws`], [`execution`],
//! [`correctness`] and [`blanks`].
pub mod assembly;
pub mod assembly_interpreter;
pub mod blanks;
pub mod compiler;
pub mod correctness;
pub mod error;
pub mod execution;
pub mod grammar;
pub mod instruction;
pub mod laws;
pub mod machine;
pub mod reader;
pub mod semantics;
pub mod text;
pub mod writer;
