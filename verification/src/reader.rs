//! Sources: where the compiler's input comes from. A reader holds the
//! characters of one unit of input, without its line terminators.
pub use crate::error::ReaderError;
use crate::text::{strip_line_terminators, without_line_terminators};
use vstd::prelude::*;

verus! {

/// Which source a reader is asked to take its input from.
#[derive(Debug)]
pub enum ReaderArg {
    /// This text itself.
    Raw(String),
    /// The file at this path.
    FilePath(String),
    /// The next line of interactive input.
    Interactive,
}

/// A source of characters for the compiler.
pub trait Reader {
    /// The characters the reader holds.
    spec fn buffer(&self) -> Seq<char>;

    /// A copy of the characters the reader holds.
    fn get_buffer(&self) -> (buffer: Vec<char>)
        ensures
            buffer@ == self.buffer(),
    ;
}

fn copy_of(buffer: &Vec<char>) -> (copy: Vec<char>)
    ensures
        copy@ == buffer@,
{
    let mut copy: Vec<char> = Vec::new();
    let mut i: usize = 0;
    while i < buffer.len()
        invariant
            i <= buffer@.len(),
            copy@ == buffer@.take(i as int),
        decreases buffer@.len() - i,
    {
        copy.push(buffer[i]);
        i += 1;
    }
    copy
}

/// A reader for interactive input. The program reads a line and hands it
/// over; the reader keeps it without its line terminators.
pub struct StdinReader {
    buffer: Vec<char>,
}

/// A reader for text that is given directly.
pub struct TestReader {
    buffer: Vec<char>,
}

/// A reader for the contents of a file. The program reads the file and
/// hands its contents over; the reader keeps them without their line
/// terminators.
pub struct FileReader {
    buffer: Vec<char>,
}

impl FileReader {
    pub fn new() -> (reader: Self)
        ensures
            reader.buffer() == Seq::<char>::empty(),
    {
        Self { buffer: Vec::new() }
    }

    /// Takes in the contents of a file; they replace what the reader held.
    pub fn fill(&mut self, contents: &str)
        ensures
            final(self).buffer() == without_line_terminators(contents@),
    {
        self.buffer = strip_line_terminators(contents);
    }
}

impl Reader for FileReader {
    closed spec fn buffer(&self) -> Seq<char> {
        self.buffer@
    }

    fn get_buffer(&self) -> Vec<char> {
        copy_of(&self.buffer)
    }
}

impl StdinReader {
    pub fn new() -> (reader: Self)
        ensures
            reader.buffer() == Seq::<char>::empty(),
    {
        Self { buffer: Vec::new() }
    }

    /// Takes in one line of input; it replaces what the reader held.
    pub fn fill(&mut self, line: &str)
        ensures
            final(self).buffer() == without_line_terminators(line@),
    {
        self.buffer = strip_line_terminators(line);
    }
}

impl Reader for StdinReader {
    closed spec fn buffer(&self) -> Seq<char> {
        self.buffer@
    }

    fn get_buffer(&self) -> Vec<char> {
        copy_of(&self.buffer)
    }
}

impl TestReader {
    pub fn new() -> (reader: Self)
        ensures
            reader.buffer() == Seq::<char>::empty(),
    {
        Self { buffer: Vec::new() }
    }

    /// Takes in the text of a `Raw` argument, which replaces what the
    /// reader held. Any other argument is refused, and the reader keeps
    /// what it held.
    pub fn read(&mut self, arg: ReaderArg) -> (taken: Result<(), ReaderError>)
        ensures
            match arg {
                ReaderArg::Raw(text) => taken is Ok && final(self).buffer()
                    == without_line_terminators(text@),
                _ => taken == Err::<(), ReaderError>(ReaderError::UnsupportedSource)
                    && final(self).buffer() == old(self).buffer(),
            },
    {
        match arg {
            ReaderArg::Raw(text) => {
                self.buffer = strip_line_terminators(text.as_str());
                Ok(())
            },
            _ => Err(ReaderError::UnsupportedSource),
        }
    }
}

impl Reader for TestReader {
    closed spec fn buffer(&self) -> Seq<char> {
        self.buffer@
    }

    fn get_buffer(&self) -> Vec<char> {
        copy_of(&self.buffer)
    }
}

} // verus!
