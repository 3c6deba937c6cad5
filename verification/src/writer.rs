//! Sinks: where the compiler's text goes.
use vstd::prelude::*;

verus! {

/// A sink for emitted text. A sink only ever grows: each call adds text
/// to what was written before.
pub trait Writer {
    /// Everything written so far.
    spec fn text(&self) -> Seq<char>;

    /// The text that one `writeln` of `line` adds.
    spec fn line_text(line: Seq<char>) -> Seq<char>;

    /// Adds `output` as it is.
    fn write(&mut self, output: String)
        ensures
            final(self).text() == old(self).text() + output@,
    ;

    /// Adds `output` as a line of its own.
    fn writeln(&mut self, output: String)
        ensures
            final(self).text() == old(self).text() + Self::line_text(output@),
    ;
}

/// The text that a sequence of `writeln` calls adds to a sink of type `W`.
pub open spec fn written<W: Writer>(lines: Seq<Seq<char>>) -> Seq<char>
    decreases lines.len(),
{
    if lines.len() == 0 {
        Seq::empty()
    } else {
        written::<W>(lines.drop_last()) + W::line_text(lines.last())
    }
}

/// Writing one more line adds that line's text.
pub proof fn lemma_written_push<W: Writer>(lines: Seq<Seq<char>>, line: Seq<char>)
    ensures
        written::<W>(lines.push(line)) == written::<W>(lines) + W::line_text(line),
{
    assert(lines.push(line).drop_last() == lines);
}

/// Writing two runs of lines one after the other adds the text of the
/// first and then the text of the second.
pub proof fn lemma_written_concat<W: Writer>(first: Seq<Seq<char>>, second: Seq<Seq<char>>)
    ensures
        written::<W>(first + second) == written::<W>(first) + written::<W>(second),
    decreases second.len(),
{
    if second.len() == 0 {
        assert(first + second == first);
    } else {
        lemma_written_concat::<W>(first, second.drop_last());
        assert((first + second).drop_last() == first + second.drop_last());
        assert((first + second).last() == second.last());
    }
}

/// A sink in memory. Each line starts with the line terminator, so the
/// text of a program begins with one and does not end with one.
pub struct TestWriter {
    pub output: String,
}

impl TestWriter {
    pub fn new() -> (writer: Self)
        ensures
            writer.output@ == Seq::<char>::empty(),
    {
        TestWriter { output: String::new() }
    }
}

impl Writer for TestWriter {
    open spec fn text(&self) -> Seq<char> {
        self.output@
    }

    open spec fn line_text(line: Seq<char>) -> Seq<char> {
        seq!['\n'] + line
    }

    fn write(&mut self, output: String) {
        self.output.append(output.as_str());
    }

    fn writeln(&mut self, output: String) {
        self.output.push('\n');
        self.output.append(output.as_str());
        proof {
            assert(old(self).output@.push('\n') + output@ == old(self).output@ + (seq!['\n']
                + output@));
        }
    }
}

/// The sink for standard output. It renders text as printing does, each
/// line followed by the line terminator, and holds it until the program
/// takes it to print.
pub struct StdoutWriter {
    pending: String,
}

impl StdoutWriter {
    pub fn new() -> (writer: Self)
        ensures
            writer.text() == Seq::<char>::empty(),
    {
        StdoutWriter { pending: String::new() }
    }

    /// Hands over the text that waits to be printed and starts anew.
    pub fn take(&mut self) -> (printable: String)
        ensures
            printable@ == old(self).text(),
            final(self).text() == Seq::<char>::empty(),
    {
        let mut printable = String::new();
        std::mem::swap(&mut self.pending, &mut printable);
        printable
    }
}

impl Writer for StdoutWriter {
    closed spec fn text(&self) -> Seq<char> {
        self.pending@
    }

    open spec fn line_text(line: Seq<char>) -> Seq<char> {
        line + seq!['\n']
    }

    fn write(&mut self, output: String) {
        self.pending.append(output.as_str());
    }

    fn writeln(&mut self, output: String) {
        self.pending.append(output.as_str());
        self.pending.push('\n');
        proof {
            assert((old(self).pending@ + output@).push('\n') == old(self).pending@ + (output@
                + seq!['\n']));
        }
    }
}

} // verus!
