//! The compiler: a recursive-descent parser with one character of
//! lookahead that emits the code for each construct as soon as it has
//! parsed it.
use crate::assembly::{
    add_popped, call, call_line, clear_d0, diagnostic_line, divide_d1, label, label_text,
    load_address, load_address_line, load_immediate, load_immediate_line, load_variable,
    load_variable_line, multiply_popped, negate_d0, pop_d1, push_d0, report, store_d0,
    subtract_popped,
};
pub use crate::error::{CompilerError, Expected};
use crate::grammar;
use crate::grammar::Parsed;
use crate::reader::Reader;
use crate::text;
use crate::writer::{lemma_written_concat, lemma_written_push, written, Writer};
use vstd::prelude::*;

verus! {

/// A compiler over one reader and one sink. It owns both, its cursor into
/// the source and its label counter: two compilers share nothing.
pub struct Compiler<R: Reader, W: Writer> {
    lookahead: Option<char>,
    source: Vec<char>,
    counter: usize,
    reader: R,
    writer: W,
    l_count: usize,
}

impl<R: Reader, W: Writer> Compiler<R, W> {
    /// The source buffer.
    pub closed spec fn source(&self) -> Seq<char> {
        self.source@
    }

    /// The index of the lookahead in the source buffer; at the end of the
    /// input it is the buffer's length.
    pub closed spec fn position(&self) -> int {
        self.counter as int
    }

    /// Everything the sink has been given.
    pub closed spec fn output(&self) -> Seq<char> {
        self.writer.text()
    }

    /// What the reader holds.
    pub closed spec fn input(&self) -> Seq<char> {
        self.reader.buffer()
    }

    /// The number of labels handed out.
    pub closed spec fn labels(&self) -> nat {
        self.l_count as nat
    }

    /// The cursor is initialized: the source buffer holds the reader's
    /// input, and the lookahead is the character at the cursor, or none
    /// at the end of the input.
    pub closed spec fn wf(&self) -> bool {
        &&& self.source@ == self.reader.buffer()
        &&& self.lookahead == grammar::lookahead(self.source@, self.counter as int)
    }

    /// This compiler is `before` after parsing `parsed`: the cursor has
    /// moved past what was consumed, the sink has received the lines, and
    /// nothing else has changed.
    pub open spec fn advanced(self, before: Self, parsed: Parsed) -> bool {
        &&& self.wf()
        &&& self.source() == before.source()
        &&& self.input() == before.input()
        &&& self.labels() == before.labels()
        &&& self.position() == before.position() + parsed.consumed
        &&& self.output() == before.output() + written::<W>(parsed.lines)
    }

    /// Two pieces parsed one after the other are one piece.
    pub proof fn lemma_advanced_twice(
        before: Self,
        between: Self,
        after: Self,
        first: Parsed,
        second: Parsed,
    )
        requires
            between.advanced(before, first),
            after.advanced(between, second),
        ensures
            after.advanced(before, first.with(second)),
    {
        lemma_written_concat::<W>(first.lines, second.lines);
        assert(before.output() + (written::<W>(first.lines) + written::<W>(second.lines)) == (
        before.output() + written::<W>(first.lines)) + written::<W>(second.lines));
    }

    /// A compiler that has parsed nothing.
    pub proof fn lemma_advanced_nothing(self)
        requires
            self.wf(),
        ensures
            self.advanced(self, Parsed::nothing()),
    {
    }

    /// A compiler at the start of what `reader` holds, emitting to
    /// `writer`. Its cursor is not initialized yet.
    pub fn new(reader: R, writer: W) -> (compiler: Self)
        ensures
            compiler.input() == reader.buffer(),
            compiler.output() == writer.text(),
            compiler.position() == 0,
            compiler.labels() == 0,
    {
        Compiler { lookahead: None, source: Vec::new(), counter: 0, reader, writer, l_count: 0 }
    }

    /// Initializes the cursor: fills the source buffer from the reader
    /// and sets the lookahead.
    pub fn init(&mut self)
        ensures
            final(self).wf(),
            final(self).source() == old(self).input(),
            final(self).input() == old(self).input(),
            final(self).output() == old(self).output(),
            final(self).position() == old(self).position(),
            final(self).labels() == old(self).labels(),
    {
        self.read();
        self.lookahead = if self.counter < self.source.len() {
            Some(self.source[self.counter])
        } else {
            None
        };
    }

    /// The sink.
    pub fn writer(&self) -> (writer: &W)
        ensures
            writer.text() == self.output(),
    {
        &self.writer
    }

    /// Gives up the compiler for its sink.
    pub fn into_writer(self) -> (writer: W)
        ensures
            writer.text() == self.output(),
    {
        self.writer
    }

    /// The lookahead: the character under the cursor, or none at the end
    /// of the input.
    pub fn current_char(&self) -> (c: Option<char>)
        requires
            self.wf(),
        ensures
            c == grammar::lookahead(self.source(), self.position()),
    {
        self.lookahead
    }

    /// Refills the source buffer from the reader.
    fn read(&mut self)
        ensures
            final(self).source@ == old(self).reader.buffer(),
            final(self).reader.buffer() == old(self).reader.buffer(),
            final(self).writer.text() == old(self).writer.text(),
            final(self).counter == old(self).counter,
            final(self).l_count == old(self).l_count,
            final(self).lookahead == old(self).lookahead,
    {
        self.source = self.reader.get_buffer();
    }

    /// Moves the cursor forward by one character; at the end of the input
    /// it stays. An empty source buffer is refilled from the reader first.
    pub fn get_char(&mut self)
        requires
            old(self).wf(),
        ensures
            final(self).advanced(
                *old(self),
                Parsed::skipped(grammar::step(old(self).source(), old(self).position())),
            ),
    {
        if self.source.len() < 1 {
            self.read();
        }
        if self.counter < self.source.len() {
            self.counter += 1;
        }
        self.lookahead = if self.counter < self.source.len() {
            Some(self.source[self.counter])
        } else {
            None
        };
        proof {
            assert(written::<W>(Seq::empty()) == Seq::<char>::empty());
            assert(old(self).writer.text() + Seq::<char>::empty() == old(self).writer.text());
        }
    }

    /// Writes a diagnostic line for a failure with this description.
    fn error(&mut self, message: String)
        requires
            old(self).wf(),
        ensures
            final(self).advanced(*old(self), Parsed::emitted(report(message@))),
    {
        self.emit_line(diagnostic_line(message.as_str()));
    }

    /// Reports a failure to the sink and hands it back: the caller ends
    /// the parse with it.
    fn abort(&mut self, failure: CompilerError) -> (reported: CompilerError)
        requires
            old(self).wf(),
        ensures
            reported == failure,
            failure matches CompilerError::ExpectedToken(what) && final(self).advanced(
                *old(self),
                Parsed::rejected(what),
            ),
    {
        self.error(failure.message());
        failure
    }

    /// Reports that `what` was expected where the lookahead stands.
    fn expected(&mut self, what: Expected) -> (failure: CompilerError)
        requires
            old(self).wf(),
        ensures
            failure == CompilerError::ExpectedToken(what),
            final(self).advanced(*old(self), Parsed::rejected(what)),
    {
        self.abort(CompilerError::ExpectedToken(what))
    }

    /// Writes `s` to the sink as it is.
    fn emit(&mut self, s: String)
        requires
            old(self).wf(),
        ensures
            final(self).wf(),
            final(self).source() == old(self).source(),
            final(self).input() == old(self).input(),
            final(self).labels() == old(self).labels(),
            final(self).position() == old(self).position(),
            final(self).output() == old(self).output() + s@,
    {
        self.writer.write(s);
    }

    /// Writes `s` to the sink as a line.
    fn emit_line(&mut self, s: String)
        requires
            old(self).wf(),
        ensures
            final(self).advanced(*old(self), Parsed::emitted(s@)),
    {
        self.writer.writeln(s);
        proof {
            lemma_written_push::<W>(Seq::empty(), s@);
            assert(Seq::<Seq<char>>::empty().push(s@) == seq![s@]);
        }
    }

    /// Consumes the character `x` and the blanks after it, or fails where
    /// the lookahead is another character.
    pub fn match_char(&mut self, x: char) -> (matched: Result<(), CompilerError>)
        requires
            old(self).wf(),
        ensures
            final(self).advanced(
                *old(self),
                grammar::match_char(old(self).source(), old(self).position(), x),
            ),
            matched == grammar::match_char(old(self).source(), old(self).position(), x).result(),
    {
        if self.lookahead == Some(x) {
            let ghost before = *self;
            self.get_char();
            let ghost between = *self;
            self.whitespace();
            proof {
                Self::lemma_advanced_twice(
                    before,
                    between,
                    *self,
                    Parsed::skipped(1),
                    Parsed::skipped(grammar::blank_run(before.source(), before.position() + 1)),
                );
            }
            Ok(())
        } else {
            Err(self.expected(Expected::Char(x)))
        }
    }

    fn is_alpha(&self, x: char) -> (yes: bool)
        ensures
            yes == text::is_alpha(x),
    {
        text::alpha(x)
    }

    fn is_digit(&self, x: char) -> (yes: bool)
        ensures
            yes == text::is_digit(x),
    {
        text::digit(x)
    }

    fn is_alphanum(&self, x: char) -> (yes: bool)
        ensures
            yes == text::is_alphanum(x),
    {
        self.is_alpha(x) || self.is_digit(x)
    }

    fn is_addop(&self, c: char) -> (yes: bool)
        ensures
            yes == text::is_addop(c),
    {
        c == '+' || c == '-'
    }

    /// Whether the lookahead is a blank.
    fn is_whitespace(&self) -> (yes: bool)
        requires
            self.wf(),
        ensures
            yes == (grammar::blank_run(self.source(), self.position()) > 0),
    {
        match self.lookahead {
            Some(c) => c == ' ' || c == '\t',
            None => false,
        }
    }

    /// Skips the blanks under the cursor.
    pub fn whitespace(&mut self)
        requires
            old(self).wf(),
        ensures
            final(self).advanced(
                *old(self),
                Parsed::skipped(grammar::blank_run(old(self).source(), old(self).position())),
            ),
    {
        proof {
            self.lemma_advanced_nothing();
        }
        let ghost mut skipped: nat = 0;
        while self.is_whitespace()
            invariant
                self.advanced(*old(self), Parsed::skipped(skipped)),
                skipped + grammar::blank_run(self.source(), self.position()) == grammar::blank_run(
                    old(self).source(),
                    old(self).position(),
                ),
            decreases grammar::blank_run(self.source(), self.position()),
        {
            let ghost between = *self;
            self.get_char();
            proof {
                Self::lemma_advanced_twice(
                    *old(self),
                    between,
                    *self,
                    Parsed::skipped(skipped),
                    Parsed::skipped(1),
                );
                skipped = skipped + 1;
            }
        }
    }

    /// The lookahead, where it is a letter or a digit.
    fn name_char(&self) -> (c: Option<char>)
        requires
            self.wf(),
        ensures
            c is Some == (grammar::name_run(self.source(), self.position()) > 0),
            c is Some ==> grammar::lookahead(self.source(), self.position()) == c,
    {
        match self.lookahead {
            Some(c) => if self.is_alphanum(c) {
                Some(c)
            } else {
                None
            },
            None => None,
        }
    }

    /// Whether the lookahead is a letter.
    fn at_letter(&self) -> (yes: bool)
        requires
            self.wf(),
        ensures
            yes == grammar::sees_letter(self.source(), self.position()),
    {
        match self.lookahead {
            Some(c) => self.is_alpha(c),
            None => false,
        }
    }

    /// Whether the lookahead is the character `c`.
    fn at_char(&self, c: char) -> (yes: bool)
        requires
            self.wf(),
        ensures
            yes == grammar::sees(self.source(), self.position(), c),
    {
        self.lookahead == Some(c)
    }

    /// Parses a name: a letter and the letters and digits that follow it,
    /// then the blanks after them.
    pub fn get_name(&mut self) -> (name: Result<String, CompilerError>)
        requires
            old(self).wf(),
        ensures
            final(self).advanced(
                *old(self),
                grammar::name(old(self).source(), old(self).position()),
            ),
            match name {
                Ok(text) => grammar::sees_letter(old(self).source(), old(self).position())
                    && text@ == grammar::name_at(old(self).source(), old(self).position()),
                Err(failure) => !grammar::sees_letter(old(self).source(), old(self).position())
                    && failure == CompilerError::ExpectedToken(Expected::Name),
            },
    {
        if !self.at_letter() {
            return Err(self.expected(Expected::Name));
        }
        let ghost source = self.source();
        let ghost at = self.position();
        let ghost mut taken: nat = 0;
        let mut token = String::new();
        let mut next = self.name_char();
        proof {
            self.lemma_advanced_nothing();
        }
        while next.is_some()
            invariant
                self.advanced(*old(self), Parsed::skipped(taken)),
                source == old(self).source(),
                at == old(self).position(),
                0 <= at < source.len(),
                taken + grammar::name_run(source, at + taken) == grammar::name_run(source, at),
                token@ == source.subrange(at, at + taken),
                next is Some == (grammar::name_run(source, at + taken) > 0),
                next is Some ==> grammar::lookahead(source, at + taken) == next,
            decreases grammar::name_run(source, at + taken),
        {
            let ghost between = *self;
            token.push(next.unwrap());
            self.get_char();
            proof {
                Self::lemma_advanced_twice(
                    *old(self),
                    between,
                    *self,
                    Parsed::skipped(taken),
                    Parsed::skipped(1),
                );
                assert(source.subrange(at, at + taken).push(source[at + taken])
                    == source.subrange(at, at + taken + 1));
                taken = taken + 1;
            }
            next = self.name_char();
        }
        let ghost between = *self;
        self.whitespace();
        proof {
            Self::lemma_advanced_twice(
                *old(self),
                between,
                *self,
                Parsed::skipped(taken),
                Parsed::skipped(grammar::blank_run(source, at + taken)),
            );
        }
        Ok(token)
    }

    /// Parses a single digit and the blanks after it.
    pub fn get_num(&mut self) -> (digit: Result<char, CompilerError>)
        requires
            old(self).wf(),
        ensures
            final(self).advanced(
                *old(self),
                grammar::number(old(self).source(), old(self).position()),
            ),
            match digit {
                Ok(c) => grammar::sees_digit(old(self).source(), old(self).position()) && c
                    == old(self).source()[old(self).position()],
                Err(failure) => !grammar::sees_digit(old(self).source(), old(self).position())
                    && failure == CompilerError::ExpectedToken(Expected::Integer),
            },
    {
        let num = match self.lookahead {
            Some(c) => if self.is_digit(c) {
                c
            } else {
                return Err(self.expected(Expected::Integer));
            },
            None => {
                return Err(self.expected(Expected::Integer));
            },
        };
        let ghost between = *self;
        self.get_char();
        let ghost stepped = *self;
        self.whitespace();
        proof {
            Self::lemma_advanced_twice(
                between,
                stepped,
                *self,
                Parsed::skipped(1),
                Parsed::skipped(
                    grammar::blank_run(old(self).source(), old(self).position() + 1),
                ),
            );
        }
        Ok(num)
    }

    /// Parses `*` and a factor, and emits the line that multiplies.
    fn multiply(&mut self) -> (parsed: Result<(), CompilerError>)
        requires
            old(self).wf(),
        ensures
            final(self).advanced(
                *old(self),
                grammar::multiplication(old(self).source(), old(self).position()),
            ),
            parsed == grammar::multiplication(old(self).source(), old(self).position()).result(),
        decreases grammar::remaining(old(self).source(), old(self).position()), 0int,
    {
        let ghost source = self.source();
        let ghost at = self.position();
        let ghost operator = grammar::match_char(source, at, '*');
        let matched = self.match_char('*');
        if matched.is_err() {
            return matched;
        }
        let ghost between = *self;
        let right = self.factor();
        proof {
            Self::lemma_advanced_twice(
                *old(self),
                between,
                *self,
                operator,
                grammar::factor(source, at + operator.consumed),
            );
        }
        if right.is_err() {
            return right;
        }
        let ghost between = *self;
        self.emit_line(String::from_str("MULS (SP)+,D0"));
        proof {
            Self::lemma_advanced_twice(
                *old(self),
                between,
                *self,
                operator.with(grammar::factor(source, at + operator.consumed)),
                Parsed::emitted("MULS (SP)+,D0"@),
            );
        }
        Ok(())
    }

    /// Parses `/` and a factor, and emits the lines that divide.
    fn divide(&mut self) -> (parsed: Result<(), CompilerError>)
        requires
            old(self).wf(),
        ensures
            final(self).advanced(
                *old(self),
                grammar::division(old(self).source(), old(self).position()),
            ),
            parsed == grammar::division(old(self).source(), old(self).position()).result(),
        decreases grammar::remaining(old(self).source(), old(self).position()), 0int,
    {
        let ghost source = self.source();
        let ghost at = self.position();
        let ghost operator = grammar::match_char(source, at, '/');
        let matched = self.match_char('/');
        if matched.is_err() {
            return matched;
        }
        let ghost between = *self;
        let right = self.factor();
        proof {
            Self::lemma_advanced_twice(
                *old(self),
                between,
                *self,
                operator,
                grammar::factor(source, at + operator.consumed),
            );
        }
        if right.is_err() {
            return right;
        }
        let ghost parsed = operator.with(grammar::factor(source, at + operator.consumed));
        let ghost between = *self;
        self.emit_line(String::from_str("MOVE (SP)+,D1"));
        let ghost popped = *self;
        self.emit_line(String::from_str("DIVS D1,D0"));
        proof {
            Self::lemma_advanced_twice(
                between,
                popped,
                *self,
                Parsed::emitted("MOVE (SP)+,D1"@),
                Parsed::emitted("DIVS D1,D0"@),
            );
            Self::lemma_advanced_twice(
                *old(self),
                between,
                *self,
                parsed,
                Parsed::emitted("MOVE (SP)+,D1"@).with(Parsed::emitted("DIVS D1,D0"@)),
            );
        }
        Ok(())
    }

    /// Parses a term: one factor, and then each `*` or `/` with the
    /// factor that follows it.
    pub fn term(&mut self) -> (parsed: Result<(), CompilerError>)
        requires
            old(self).wf(),
        ensures
            final(self).advanced(
                *old(self),
                grammar::term(old(self).source(), old(self).position()),
            ),
            parsed == grammar::term(old(self).source(), old(self).position()).result(),
        decreases grammar::remaining(old(self).source(), old(self).position()), 2int,
    {
        let ghost source = self.source();
        let ghost at = self.position();
        let first = self.factor();
        if first.is_err() {
            return first;
        }
        let ghost mut done = grammar::factor(source, at);
        while self.at_char('*') || self.at_char('/')
            invariant
                self.advanced(*old(self), done),
                source == old(self).source(),
                at == old(self).position(),
                done.failure is None,
                grammar::term(source, at) == done.with(
                    grammar::term_tail(source, at + done.consumed),
                ),
            decreases grammar::remaining(source, at + done.consumed),
        {
            let ghost here = at + done.consumed;
            let ghost between = *self;
            self.emit_line(String::from_str("MOVE D0,-(SP)"));
            let ghost pushed = *self;
            let ghost step = if grammar::sees(source, here, '*') {
                grammar::multiplication(source, here)
            } else {
                grammar::division(source, here)
            };
            let next = if self.at_char('*') {
                self.multiply()
            } else {
                self.divide()
            };
            proof {
                let whole = Parsed::emitted(push_d0()).with(step);
                Self::lemma_advanced_twice(
                    between,
                    pushed,
                    *self,
                    Parsed::emitted(push_d0()),
                    step,
                );
                Self::lemma_advanced_twice(*old(self), between, *self, done, whole);
                lemma_term_round(source, here);
                Parsed::lemma_with_associative(
                    done,
                    whole,
                    grammar::term_tail(source, here + whole.consumed),
                );
            }
            if next.is_err() {
                return next;
            }
            proof {
                done = done.with(Parsed::emitted(push_d0()).with(step));
            }
        }
        proof {
            Parsed::lemma_with_nothing(done);
        }
        Ok(())
    }

    /// Parses an identifier: a name followed by `()` is a call, any other
    /// name loads the variable.
    pub fn ident(&mut self) -> (parsed: Result<(), CompilerError>)
        requires
            old(self).wf(),
        ensures
            final(self).advanced(
                *old(self),
                grammar::ident(old(self).source(), old(self).position()),
            ),
            parsed == grammar::ident(old(self).source(), old(self).position()).result(),
    {
        let ghost source = self.source();
        let ghost at = self.position();
        let ghost named = grammar::name(source, at);
        let name = match self.get_name() {
            Ok(name) => name,
            Err(failure) => {
                return Err(failure);
            },
        };
        if self.at_char('(') {
            let ghost between = *self;
            let opened = self.match_char('(');
            let ghost so_far = named.with(grammar::match_char(source, at + named.consumed, '('));
            proof {
                Self::lemma_advanced_twice(
                    *old(self),
                    between,
                    *self,
                    named,
                    grammar::match_char(source, at + named.consumed, '('),
                );
            }
            if opened.is_err() {
                return opened;
            }
            let ghost between = *self;
            let closed = self.match_char(')');
            proof {
                Self::lemma_advanced_twice(
                    *old(self),
                    between,
                    *self,
                    so_far,
                    grammar::match_char(source, at + so_far.consumed, ')'),
                );
            }
            if closed.is_err() {
                return closed;
            }
            let ghost so_far = so_far.with(grammar::match_char(source, at + so_far.consumed, ')'));
            let ghost between = *self;
            self.emit_line(call_line(name.as_str()));
            proof {
                Self::lemma_advanced_twice(
                    *old(self),
                    between,
                    *self,
                    so_far,
                    Parsed::emitted(call(name@)),
                );
            }
            Ok(())
        } else {
            let ghost between = *self;
            self.emit_line(load_variable_line(name.as_str()));
            proof {
                Self::lemma_advanced_twice(
                    *old(self),
                    between,
                    *self,
                    named,
                    Parsed::emitted(load_variable(name@)),
                );
            }
            Ok(())
        }
    }

    /// Parses a factor: a parenthesized expression, an identifier, or a
    /// single digit, which is loaded into D0.
    pub fn factor(&mut self) -> (parsed: Result<(), CompilerError>)
        requires
            old(self).wf(),
        ensures
            final(self).advanced(
                *old(self),
                grammar::factor(old(self).source(), old(self).position()),
            ),
            parsed == grammar::factor(old(self).source(), old(self).position()).result(),
        decreases grammar::remaining(old(self).source(), old(self).position()), 0int,
    {
        let ghost source = self.source();
        let ghost at = self.position();
        if self.at_char('(') {
            let ghost opened = grammar::match_char(source, at, '(');
            let matched = self.match_char('(');
            if matched.is_err() {
                return matched;
            }
            let ghost between = *self;
            let inner = self.expression();
            proof {
                Self::lemma_advanced_twice(
                    *old(self),
                    between,
                    *self,
                    opened,
                    grammar::expression(source, at + opened.consumed),
                );
            }
            if inner.is_err() {
                return inner;
            }
            let ghost so_far = opened.with(grammar::expression(source, at + opened.consumed));
            let ghost between = *self;
            let closed = self.match_char(')');
            proof {
                Self::lemma_advanced_twice(
                    *old(self),
                    between,
                    *self,
                    so_far,
                    grammar::match_char(source, at + so_far.consumed, ')'),
                );
            }
            closed
        } else if self.at_letter() {
            self.ident()
        } else {
            let digit = match self.get_num() {
                Ok(digit) => digit,
                Err(failure) => {
                    return Err(failure);
                },
            };
            let ghost between = *self;
            self.emit_line(load_immediate_line(digit));
            proof {
                Self::lemma_advanced_twice(
                    *old(self),
                    between,
                    *self,
                    grammar::number(source, at),
                    Parsed::emitted(load_immediate(digit)),
                );
            }
            Ok(())
        }
    }

    /// Parses `+` and a term, and emits the line that adds.
    fn add(&mut self) -> (parsed: Result<(), CompilerError>)
        requires
            old(self).wf(),
        ensures
            final(self).advanced(
                *old(self),
                grammar::addition(old(self).source(), old(self).position()),
            ),
            parsed == grammar::addition(old(self).source(), old(self).position()).result(),
        decreases grammar::remaining(old(self).source(), old(self).position()), 2int,
    {
        let ghost source = self.source();
        let ghost at = self.position();
        let ghost operator = grammar::match_char(source, at, '+');
        let matched = self.match_char('+');
        if matched.is_err() {
            return matched;
        }
        let ghost between = *self;
        let right = self.term();
        proof {
            Self::lemma_advanced_twice(
                *old(self),
                between,
                *self,
                operator,
                grammar::term(source, at + operator.consumed),
            );
        }
        if right.is_err() {
            return right;
        }
        let ghost between = *self;
        self.emit_line(String::from_str("ADD (SP)+,D0"));
        proof {
            Self::lemma_advanced_twice(
                *old(self),
                between,
                *self,
                operator.with(grammar::term(source, at + operator.consumed)),
                Parsed::emitted(add_popped()),
            );
        }
        Ok(())
    }

    /// Parses `-` and a term, and emits the lines that subtract.
    fn subtract(&mut self) -> (parsed: Result<(), CompilerError>)
        requires
            old(self).wf(),
        ensures
            final(self).advanced(
                *old(self),
                grammar::subtraction(old(self).source(), old(self).position()),
            ),
            parsed == grammar::subtraction(old(self).source(), old(self).position()).result(),
        decreases grammar::remaining(old(self).source(), old(self).position()), 2int,
    {
        let ghost source = self.source();
        let ghost at = self.position();
        let ghost operator = grammar::match_char(source, at, '-');
        let matched = self.match_char('-');
        if matched.is_err() {
            return matched;
        }
        let ghost between = *self;
        let right = self.term();
        proof {
            Self::lemma_advanced_twice(
                *old(self),
                between,
                *self,
                operator,
                grammar::term(source, at + operator.consumed),
            );
        }
        if right.is_err() {
            return right;
        }
        let ghost so_far = operator.with(grammar::term(source, at + operator.consumed));
        let ghost between = *self;
        self.emit_line(String::from_str("SUB (SP)+,D0"));
        let ghost subtracted = *self;
        self.emit_line(String::from_str("NEG D0"));
        proof {
            Self::lemma_advanced_twice(
                between,
                subtracted,
                *self,
                Parsed::emitted(subtract_popped()),
                Parsed::emitted(negate_d0()),
            );
            Self::lemma_advanced_twice(
                *old(self),
                between,
                *self,
                so_far,
                Parsed::emitted(subtract_popped()).with(Parsed::emitted(negate_d0())),
            );
        }
        Ok(())
    }

    /// Whether the lookahead is `+` or `-`.
    fn at_addop(&self) -> (yes: bool)
        requires
            self.wf(),
        ensures
            yes == (grammar::sees(self.source(), self.position(), '+') || grammar::sees(
                self.source(),
                self.position(),
                '-',
            )),
    {
        match self.lookahead {
            Some(c) => self.is_addop(c),
            None => false,
        }
    }

    /// Parses an expression: a term, or nothing before a leading sign,
    /// and then each `+` or `-` with the term that follows it.
    pub fn expression(&mut self) -> (parsed: Result<(), CompilerError>)
        requires
            old(self).wf(),
        ensures
            final(self).advanced(
                *old(self),
                grammar::expression(old(self).source(), old(self).position()),
            ),
            parsed == grammar::expression(old(self).source(), old(self).position()).result(),
        decreases grammar::remaining(old(self).source(), old(self).position()), 4int,
    {
        let ghost source = self.source();
        let ghost at = self.position();
        let ghost mut done;
        if self.at_addop() {
            self.emit_line(String::from_str("CLR D0"));
            proof {
                done = Parsed::emitted(clear_d0());
            }
        } else {
            let first = self.term();
            if first.is_err() {
                return first;
            }
            proof {
                done = grammar::term(source, at);
            }
        }
        while self.at_addop()
            invariant
                self.advanced(*old(self), done),
                source == old(self).source(),
                at == old(self).position(),
                done.failure is None,
                grammar::expression(source, at) == done.with(
                    grammar::expression_tail(source, at + done.consumed),
                ),
            decreases grammar::remaining(source, at + done.consumed),
        {
            let ghost here = at + done.consumed;
            let ghost between = *self;
            self.emit_line(String::from_str("MOVE D0,-(SP)"));
            let ghost pushed = *self;
            let ghost step = if grammar::sees(source, here, '+') {
                grammar::addition(source, here)
            } else {
                grammar::subtraction(source, here)
            };
            let next = if self.at_char('+') {
                self.add()
            } else {
                self.subtract()
            };
            proof {
                let whole = Parsed::emitted(push_d0()).with(step);
                Self::lemma_advanced_twice(
                    between,
                    pushed,
                    *self,
                    Parsed::emitted(push_d0()),
                    step,
                );
                Self::lemma_advanced_twice(*old(self), between, *self, done, whole);
                lemma_expression_round(source, here);
                Parsed::lemma_with_associative(
                    done,
                    whole,
                    grammar::expression_tail(source, here + whole.consumed),
                );
            }
            if next.is_err() {
                return next;
            }
            proof {
                done = done.with(Parsed::emitted(push_d0()).with(step));
            }
        }
        proof {
            Parsed::lemma_with_nothing(done);
        }
        Ok(())
    }

    /// Parses an assignment: leading blanks, a name, `=` and an
    /// expression; then emits the lines that store D0 under the name.
    pub fn assignment(&mut self) -> (parsed: Result<(), CompilerError>)
        requires
            old(self).wf(),
        ensures
            final(self).advanced(
                *old(self),
                grammar::assignment(old(self).source(), old(self).position()),
            ),
            parsed == grammar::assignment(old(self).source(), old(self).position()).result(),
    {
        let ghost source = self.source();
        let ghost at = self.position();
        let ghost blanks = Parsed::skipped(grammar::blank_run(source, at));
        self.whitespace();
        let ghost between = *self;
        let named = self.get_name();
        let ghost target = blanks.with(grammar::name(source, at + blanks.consumed));
        proof {
            Self::lemma_advanced_twice(
                *old(self),
                between,
                *self,
                blanks,
                grammar::name(source, at + blanks.consumed),
            );
        }
        let name = match named {
            Ok(name) => name,
            Err(failure) => {
                return Err(failure);
            },
        };
        let ghost between = *self;
        let matched = self.match_char('=');
        let ghost equals = target.with(grammar::match_char(source, at + target.consumed, '='));
        proof {
            Self::lemma_advanced_twice(
                *old(self),
                between,
                *self,
                target,
                grammar::match_char(source, at + target.consumed, '='),
            );
        }
        if matched.is_err() {
            return matched;
        }
        let ghost between = *self;
        let valued = self.expression();
        let ghost value = equals.with(grammar::expression(source, at + equals.consumed));
        proof {
            Self::lemma_advanced_twice(
                *old(self),
                between,
                *self,
                equals,
                grammar::expression(source, at + equals.consumed),
            );
        }
        if valued.is_err() {
            return valued;
        }
        let ghost between = *self;
        self.emit_line(load_address_line(name.as_str()));
        let ghost loaded = *self;
        self.emit_line(String::from_str("MOVE D0,(A0)"));
        proof {
            Self::lemma_advanced_twice(
                between,
                loaded,
                *self,
                Parsed::emitted(load_address(name@)),
                Parsed::emitted(store_d0()),
            );
            Self::lemma_advanced_twice(
                *old(self),
                between,
                *self,
                value,
                Parsed::emitted(load_address(name@)).with(Parsed::emitted(store_d0())),
            );
        }
        Ok(())
    }

    /// Parses a statement: an assignment and the `;` after it.
    pub fn statement(&mut self) -> (parsed: Result<(), CompilerError>)
        requires
            old(self).wf(),
        ensures
            final(self).advanced(
                *old(self),
                grammar::statement(old(self).source(), old(self).position()),
            ),
            parsed == grammar::statement(old(self).source(), old(self).position()).result(),
    {
        let ghost source = self.source();
        let ghost at = self.position();
        let assigned = self.assignment();
        if assigned.is_err() {
            return assigned;
        }
        let ghost between = *self;
        let ended = self.match_char(';');
        proof {
            let first = grammar::assignment(source, at);
            Self::lemma_advanced_twice(
                *old(self),
                between,
                *self,
                first,
                grammar::match_char(source, at + first.consumed, ';'),
            );
        }
        ended
    }

    /// Parses the statements of a block, up to the `}` that closes it.
    fn statements(&mut self) -> (parsed: Result<(), CompilerError>)
        requires
            old(self).wf(),
        ensures
            final(self).advanced(
                *old(self),
                grammar::statements(old(self).source(), old(self).position()),
            ),
            parsed == grammar::statements(old(self).source(), old(self).position()).result(),
    {
        let ghost source = self.source();
        let ghost start = self.position();
        let ghost mut body = Parsed::nothing();
        proof {
            self.lemma_advanced_nothing();
            lemma_statements_start(source, start);
        }
        while !self.at_char('}')
            invariant
                self.advanced(*old(self), body),
                source == old(self).source(),
                start == old(self).position(),
                body.failure is None,
                grammar::statements(source, start) == body.with(
                    grammar::statements(source, start + body.consumed),
                ),
            decreases grammar::remaining(source, start + body.consumed),
        {
            let ghost between = *self;
            let stated = self.statement();
            proof {
                let first = grammar::statement(source, start + body.consumed);
                Self::lemma_advanced_twice(*old(self), between, *self, body, first);
                lemma_statements_round(source, start, body);
            }
            if stated.is_err() {
                return stated;
            }
            proof {
                body = body.with(grammar::statement(source, start + body.consumed));
            }
        }
        proof {
            lemma_statements_end(source, start, body);
        }
        Ok(())
    }

    /// Parses a block: `{`, statements up to the closing `}`, and that
    /// `}`.
    pub fn block(&mut self) -> (parsed: Result<(), CompilerError>)
        requires
            old(self).wf(),
        ensures
            final(self).advanced(
                *old(self),
                grammar::block(old(self).source(), old(self).position()),
            ),
            parsed == grammar::block(old(self).source(), old(self).position()).result(),
    {
        let ghost source = self.source();
        let ghost at = self.position();
        let ghost opened = grammar::match_char(source, at, '{');
        let matched = self.match_char('{');
        if matched.is_err() {
            return matched;
        }
        let ghost between = *self;
        let stated = self.statements();
        let ghost body = opened.with(grammar::statements(source, at + opened.consumed));
        proof {
            Self::lemma_advanced_twice(
                *old(self),
                between,
                *self,
                opened,
                grammar::statements(source, at + opened.consumed),
            );
        }
        if stated.is_err() {
            return stated;
        }
        let ghost between = *self;
        let closed = self.match_char('}');
        proof {
            Self::lemma_advanced_twice(
                *old(self),
                between,
                *self,
                body,
                grammar::match_char(source, at + body.consumed, '}'),
            );
        }
        closed
    }

    /// Parses a program: leading blanks and a block.
    pub fn program(&mut self) -> (parsed: Result<(), CompilerError>)
        requires
            old(self).wf(),
        ensures
            final(self).advanced(
                *old(self),
                grammar::program(old(self).source(), old(self).position()),
            ),
            parsed == grammar::program(old(self).source(), old(self).position()).result(),
    {
        let ghost source = self.source();
        let ghost at = self.position();
        self.whitespace();
        let ghost between = *self;
        let parsed = self.block();
        proof {
            let blanks = grammar::blank_run(source, at);
            Self::lemma_advanced_twice(
                *old(self),
                between,
                *self,
                Parsed::skipped(blanks),
                grammar::block(source, at + blanks),
            );
        }
        parsed
    }

    /// Hands out the next label. No label is handed out twice: each call
    /// takes the next number.
    pub fn new_label(&mut self) -> (text: String)
        requires
            old(self).wf(),
            old(self).labels() < usize::MAX,
        ensures
            text@ == label(old(self).labels()),
            final(self).labels() == old(self).labels() + 1,
            final(self).wf(),
            final(self).source() == old(self).source(),
            final(self).input() == old(self).input(),
            final(self).position() == old(self).position(),
            final(self).output() == old(self).output(),
    {
        let text = label_text(self.l_count);
        self.l_count += 1;
        text
    }

    /// Hands out the next label and writes it to the sink.
    pub fn post_label(&mut self)
        requires
            old(self).wf(),
            old(self).labels() < usize::MAX,
        ensures
            final(self).labels() == old(self).labels() + 1,
            final(self).wf(),
            final(self).source() == old(self).source(),
            final(self).input() == old(self).input(),
            final(self).position() == old(self).position(),
            final(self).output() == old(self).output() + label(old(self).labels()),
    {
        let label = self.new_label();
        self.emit(label);
    }
}

/// One round of a term's tail is the push and then the multiplication or
/// the division.
proof fn lemma_term_round(source: Seq<char>, at: int)
    requires
        grammar::sees(source, at, '*') || grammar::sees(source, at, '/'),
    ensures
        ({
            let step = Parsed::emitted(push_d0()).with(
                if grammar::sees(source, at, '*') {
                    grammar::multiplication(source, at)
                } else {
                    grammar::division(source, at)
                },
            );
            &&& step.consumed >= 1
            &&& grammar::term_tail(source, at) == step.and(
                grammar::term_tail(source, at + step.consumed),
            )
        }),
{
    let push = Parsed::emitted(push_d0());
    if grammar::sees(source, at, '*') {
        let operator = grammar::match_char(source, at, '*');
        let factor = grammar::factor(source, at + operator.consumed);
        Parsed::lemma_with_associative(push, operator, factor);
        Parsed::lemma_with_associative(
            push,
            operator.with(factor),
            Parsed::emitted(multiply_popped()),
        );
    } else {
        let operator = grammar::match_char(source, at, '/');
        let factor = grammar::factor(source, at + operator.consumed);
        Parsed::lemma_with_associative(push, operator, factor);
        Parsed::lemma_with_associative(
            push,
            operator.with(factor),
            Parsed::emitted(pop_d1()).with(
                Parsed::emitted(divide_d1()),
            ),
        );
    }
}

/// Before any statement is parsed, all the statements are still to come.
proof fn lemma_statements_start(source: Seq<char>, start: int)
    ensures
        grammar::statements(source, start) == Parsed::nothing().with(
            grammar::statements(source, start + Parsed::nothing().consumed),
        ),
{
    let all = grammar::statements(source, start);
    assert(Parsed::nothing().with(all).lines == all.lines);
}

/// One round of a block's body: the statements from `start` on are those
/// parsed so far, the next statement, and the statements after it.
proof fn lemma_statements_round(source: Seq<char>, start: int, body: Parsed)
    requires
        body.failure is None,
        !grammar::sees(source, start + body.consumed, '}'),
        grammar::statements(source, start) == body.with(
            grammar::statements(source, start + body.consumed),
        ),
    ensures
        ({
            let first = grammar::statement(source, start + body.consumed);
            let next = body.with(first);
            &&& first.failure is Some ==> grammar::statements(source, start) == next
            &&& first.failure is None ==> first.consumed >= 1 && start + body.consumed
                < source.len() && grammar::statements(source, start) == next.with(
                grammar::statements(source, start + next.consumed),
            )
        }),
{
    let here = start + body.consumed;
    let first = grammar::statement(source, here);
    Parsed::lemma_with_associative(
        body,
        first,
        grammar::statements(source, here + first.consumed),
    );
}

/// At the closing `}` the statements parsed so far are all of them.
proof fn lemma_statements_end(source: Seq<char>, start: int, body: Parsed)
    requires
        body.failure is None,
        grammar::sees(source, start + body.consumed, '}'),
        grammar::statements(source, start) == body.with(
            grammar::statements(source, start + body.consumed),
        ),
    ensures
        grammar::statements(source, start) == body,
{
    Parsed::lemma_with_nothing(body);
}

/// One round of an expression's tail is the push and then the addition
/// or the subtraction.
proof fn lemma_expression_round(source: Seq<char>, at: int)
    requires
        grammar::sees(source, at, '+') || grammar::sees(source, at, '-'),
    ensures
        ({
            let step = Parsed::emitted(push_d0()).with(
                if grammar::sees(source, at, '+') {
                    grammar::addition(source, at)
                } else {
                    grammar::subtraction(source, at)
                },
            );
            &&& step.consumed >= 1
            &&& grammar::expression_tail(source, at) == step.and(
                grammar::expression_tail(source, at + step.consumed),
            )
        }),
{
    let push = Parsed::emitted(push_d0());
    if grammar::sees(source, at, '+') {
        let operator = grammar::match_char(source, at, '+');
        let term = grammar::term(source, at + operator.consumed);
        Parsed::lemma_with_associative(push, operator, term);
        Parsed::lemma_with_associative(push, operator.with(term), Parsed::emitted(add_popped()));
    } else {
        let operator = grammar::match_char(source, at, '-');
        let term = grammar::term(source, at + operator.consumed);
        Parsed::lemma_with_associative(push, operator, term);
        Parsed::lemma_with_associative(
            push,
            operator.with(term),
            Parsed::emitted(subtract_popped()).with(Parsed::emitted(negate_d0())),
        );
    }
}

} // verus!
