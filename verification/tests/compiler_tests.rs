use cradle::compiler::{Compiler, CompilerError, Expected};
use cradle::reader::{ReaderArg, TestReader};
use cradle::writer::TestWriter;

fn compiler_for(input: &str) -> Compiler<TestReader, TestWriter> {
    let mut reader = TestReader::new();
    reader.read(ReaderArg::Raw(String::from(input))).unwrap();
    let writer = TestWriter::new();
    let mut compiler = Compiler::new(reader, writer);
    compiler.init();
    compiler
}

fn lines(expected: &[&str]) -> String {
    let mut text = String::new();
    for line in expected {
        text.push('\n');
        text.push_str(line);
    }
    text
}

fn diagnostic(message: &str) -> String {
    format!("\n\n\x1b[0;31mError: {}\x1b[0m", message)
}

#[test]
fn given_single_term_expression_output_move_instruction() {
    let mut reader = TestReader::new();
    reader.read(ReaderArg::Raw(String::from("1"))).unwrap();
    let writer = TestWriter::new();
    let mut compiler = Compiler::new(reader, writer);
    compiler.init();

    compiler.expression().unwrap();

    assert_eq!(String::from("\nMOVE #1,D0"), compiler.writer().output);
}

#[test]
fn given_add_operation_output_add_instructions() {
    let mut reader = TestReader::new();
    reader.read(ReaderArg::Raw(String::from("1 + 2"))).unwrap();
    let writer = TestWriter::new();
    let mut compiler = Compiler::new(reader, writer);
    compiler.init();

    compiler.expression().unwrap();

    assert_eq!(
        String::from("\nMOVE #1,D0\nMOVE D0,-(SP)\nMOVE #2,D0\nADD (SP)+,D0"),
        compiler.writer().output
    );
}

#[test]
fn given_subtract_operation_output_subtract_instructions() {
    let mut reader = TestReader::new();
    reader.read(ReaderArg::Raw(String::from("1-2"))).unwrap();
    let writer = TestWriter::new();
    let mut compiler = Compiler::new(reader, writer);
    compiler.init();

    compiler.expression().unwrap();

    assert_eq!(
        String::from("\nMOVE #1,D0\nMOVE D0,-(SP)\nMOVE #2,D0\nSUB (SP)+,D0\nNEG D0"),
        compiler.writer().output
    );
}

#[test]
fn given_multiple_operators_output_correct_assembly() {
    let mut reader = TestReader::new();
    reader
        .read(ReaderArg::Raw(String::from("1-2+3-4+7")))
        .unwrap();
    let writer = TestWriter::new();
    let mut compiler = Compiler::new(reader, writer);
    compiler.init();

    compiler.expression().unwrap();

    let expected = lines(&[
        "MOVE #1,D0",
        "MOVE D0,-(SP)",
        "MOVE #2,D0",
        "SUB (SP)+,D0",
        "NEG D0",
        "MOVE D0,-(SP)",
        "MOVE #3,D0",
        "ADD (SP)+,D0",
        "MOVE D0,-(SP)",
        "MOVE #4,D0",
        "SUB (SP)+,D0",
        "NEG D0",
        "MOVE D0,-(SP)",
        "MOVE #7,D0",
        "ADD (SP)+,D0",
    ]);
    assert_eq!(expected, compiler.writer().output);
}

#[test]
fn given_multiply_output_multiply_assembly() {
    let mut reader = TestReader::new();
    reader.read(ReaderArg::Raw(String::from("2*3"))).unwrap();
    let writer = TestWriter::new();
    let mut compiler = Compiler::new(reader, writer);
    compiler.init();

    compiler.expression().unwrap();

    assert_eq!(
        String::from("\nMOVE #2,D0\nMOVE D0,-(SP)\nMOVE #3,D0\nMULS (SP)+,D0"),
        compiler.writer().output
    );
}

#[test]
fn given_divide_output_divide_assembly() {
    let mut reader = TestReader::new();
    reader.read(ReaderArg::Raw(String::from("2/3"))).unwrap();
    let writer = TestWriter::new();
    let mut compiler = Compiler::new(reader, writer);
    compiler.init();

    compiler.expression().unwrap();

    assert_eq!(
        String::from("\nMOVE #2,D0\nMOVE D0,-(SP)\nMOVE #3,D0\nMOVE (SP)+,D1\nDIVS D1,D0"),
        compiler.writer().output
    );
}

#[test]
fn given_parentheses_output_correct_assembly() {
    let mut reader = TestReader::new();
    reader
        .read(ReaderArg::Raw(String::from("( 1+2 )")))
        .unwrap();
    let writer = TestWriter::new();
    let mut compiler = Compiler::new(reader, writer);
    compiler.init();

    compiler.expression().unwrap();

    assert_eq!(
        String::from("\nMOVE #1,D0\nMOVE D0,-(SP)\nMOVE #2,D0\nADD (SP)+,D0"),
        compiler.writer().output
    );
}

#[test]
fn given_complex_arithmetic_output_correct_assembly() {
    let mut reader = TestReader::new();
    reader
        .read(ReaderArg::Raw(String::from("( 1 + 2)/((3 + 4)+(5 - 6))")))
        .unwrap();
    let writer = TestWriter::new();
    let mut compiler = Compiler::new(reader, writer);
    compiler.init();

    compiler.expression().unwrap();

    let expected = lines(&[
        "MOVE #1,D0",
        "MOVE D0,-(SP)",
        "MOVE #2,D0",
        "ADD (SP)+,D0",
        "MOVE D0,-(SP)",
        "MOVE #3,D0",
        "MOVE D0,-(SP)",
        "MOVE #4,D0",
        "ADD (SP)+,D0",
        "MOVE D0,-(SP)",
        "MOVE #5,D0",
        "MOVE D0,-(SP)",
        "MOVE #6,D0",
        "SUB (SP)+,D0",
        "NEG D0",
        "ADD (SP)+,D0",
        "MOVE (SP)+,D1",
        "DIVS D1,D0",
    ]);
    assert_eq!(expected, compiler.writer().output);
}

#[test]
fn given_multi_char_identifier() {
    let mut reader = TestReader::new();
    reader
        .read(ReaderArg::Raw(String::from("jake = 10")))
        .unwrap();
    let writer = TestWriter::new();
    let mut compiler = Compiler::new(reader, writer);
    compiler.init();

    compiler.assignment().unwrap();

    assert_eq!(
        String::from("\nMOVE #1,D0\nLEA jake(PC),A0\nMOVE D0,(A0)"),
        compiler.writer().output
    );
}

#[test]
fn given_arbitray_whitespace_should_output_correctly() {
    let mut reader = TestReader::new();
    reader
        .read(ReaderArg::Raw(String::from("  b =   1 +   3    / 2")))
        .unwrap();
    let writer = TestWriter::new();
    let mut compiler = Compiler::new(reader, writer);
    compiler.init();

    compiler.assignment().unwrap();

    let expected = lines(&[
        "MOVE #1,D0",
        "MOVE D0,-(SP)",
        "MOVE #3,D0",
        "MOVE D0,-(SP)",
        "MOVE #2,D0",
        "MOVE (SP)+,D1",
        "DIVS D1,D0",
        "ADD (SP)+,D0",
        "LEA b(PC),A0",
        "MOVE D0,(A0)",
    ]);
    assert_eq!(expected, compiler.writer().output);
}

#[test]
fn every_single_digit_compiles_to_one_move() {
    for digit in "0123456789".chars() {
        let mut compiler = compiler_for(&digit.to_string());
        assert_eq!(compiler.expression(), Ok(()));
        assert_eq!(format!("\nMOVE #{},D0", digit), compiler.writer().output);
    }
}

#[test]
fn blanks_between_tokens_do_not_change_the_code() {
    let mut plain = compiler_for("1+2");
    plain.expression().unwrap();
    let mut spaced = compiler_for("1 + 2");
    spaced.expression().unwrap();
    let mut tabbed = compiler_for("1\t \t+\t2  \t");
    tabbed.expression().unwrap();
    assert_eq!(plain.writer().output, spaced.writer().output);
    assert_eq!(plain.writer().output, tabbed.writer().output);
}

#[test]
fn compiling_twice_gives_the_same_text() {
    let input = "{ total = (1+8)/((3+7)+(5-6)); other = total * 2 - f(); }";
    let mut first = compiler_for(input);
    let first_result = first.program();
    let mut second = compiler_for(input);
    let second_result = second.program();
    assert_eq!(first_result, Ok(()));
    assert_eq!(first_result, second_result);
    assert_eq!(first.into_writer().output, second.into_writer().output);
}

#[test]
fn a_leading_blank_is_no_factor() {
    let mut compiler = compiler_for(" 1");
    assert_eq!(
        compiler.expression(),
        Err(CompilerError::ExpectedToken(Expected::Integer))
    );
    assert_eq!(diagnostic("Integer expected"), compiler.writer().output);
}

#[test]
fn a_leading_sign_clears_d0_first() {
    let mut compiler = compiler_for("-3");
    compiler.expression().unwrap();
    assert_eq!(
        lines(&["CLR D0", "MOVE D0,-(SP)", "MOVE #3,D0", "SUB (SP)+,D0", "NEG D0"]),
        compiler.writer().output
    );
    let mut compiler = compiler_for("+3");
    compiler.expression().unwrap();
    assert_eq!(
        lines(&["CLR D0", "MOVE D0,-(SP)", "MOVE #3,D0", "ADD (SP)+,D0"]),
        compiler.writer().output
    );
}

#[test]
fn multiplicative_operators_chain_from_left_to_right() {
    let mut compiler = compiler_for("2*3/4*5");
    compiler.term().unwrap();
    let expected = lines(&[
        "MOVE #2,D0",
        "MOVE D0,-(SP)",
        "MOVE #3,D0",
        "MULS (SP)+,D0",
        "MOVE D0,-(SP)",
        "MOVE #4,D0",
        "MOVE (SP)+,D1",
        "DIVS D1,D0",
        "MOVE D0,-(SP)",
        "MOVE #5,D0",
        "MULS (SP)+,D0",
    ]);
    assert_eq!(expected, compiler.writer().output);
}

#[test]
fn multiplication_binds_tighter_than_addition() {
    let mut compiler = compiler_for("1+2*3");
    compiler.expression().unwrap();
    let expected = lines(&[
        "MOVE #1,D0",
        "MOVE D0,-(SP)",
        "MOVE #2,D0",
        "MOVE D0,-(SP)",
        "MOVE #3,D0",
        "MULS (SP)+,D0",
        "ADD (SP)+,D0",
    ]);
    assert_eq!(expected, compiler.writer().output);
}

#[test]
fn a_name_loads_a_variable_and_a_name_with_parentheses_calls() {
    let mut compiler = compiler_for("x1");
    compiler.factor().unwrap();
    assert_eq!("\nMOVE x1(PC),D0", compiler.writer().output);

    let mut compiler = compiler_for("total ( ) ");
    compiler.ident().unwrap();
    assert_eq!("\nBSR total", compiler.writer().output);
    assert_eq!(compiler.current_char(), None);

    let mut compiler = compiler_for("f(1)");
    assert_eq!(
        compiler.ident(),
        Err(CompilerError::ExpectedToken(Expected::Char(')')))
    );
    assert_eq!(diagnostic("\")\" expected"), compiler.writer().output);
}

#[test]
fn letters_beyond_ascii_make_names() {
    let mut compiler = compiler_for("\u{e9}t\u{e9}+\u{4eac}");
    compiler.expression().unwrap();
    assert_eq!(
        lines(&[
            "MOVE \u{e9}t\u{e9}(PC),D0",
            "MOVE D0,-(SP)",
            "MOVE \u{4eac}(PC),D0",
            "ADD (SP)+,D0"
        ]),
        compiler.writer().output
    );

    let mut compiler = compiler_for("\u{20ac}");
    assert_eq!(
        compiler.factor(),
        Err(CompilerError::ExpectedToken(Expected::Integer))
    );
    let mut compiler = compiler_for("_a");
    assert_eq!(
        compiler.get_name(),
        Err(CompilerError::ExpectedToken(Expected::Name))
    );
}

#[test]
fn get_name_takes_letters_and_digits_and_the_blanks_after() {
    let mut compiler = compiler_for("ab12  +c");
    assert_eq!(compiler.get_name(), Ok(String::from("ab12")));
    assert_eq!(compiler.current_char(), Some('+'));
    assert_eq!("", compiler.writer().output);

    let mut compiler = compiler_for("1a");
    assert_eq!(
        compiler.get_name(),
        Err(CompilerError::ExpectedToken(Expected::Name))
    );
    assert_eq!(compiler.current_char(), Some('1'));
    assert_eq!(diagnostic("Name expected"), compiler.writer().output);
}

#[test]
fn get_num_takes_one_digit() {
    let mut compiler = compiler_for("42");
    assert_eq!(compiler.get_num(), Ok('4'));
    assert_eq!(compiler.current_char(), Some('2'));
    let mut compiler = compiler_for("x");
    assert_eq!(
        compiler.get_num(),
        Err(CompilerError::ExpectedToken(Expected::Integer))
    );
}

#[test]
fn match_char_skips_blanks_but_no_newline() {
    let mut compiler = compiler_for("( \t x");
    assert_eq!(compiler.match_char('('), Ok(()));
    assert_eq!(compiler.current_char(), Some('x'));
    assert_eq!(
        compiler.match_char('y'),
        Err(CompilerError::ExpectedToken(Expected::Char('y')))
    );
    assert_eq!(compiler.current_char(), Some('x'));
    assert_eq!(diagnostic("\"y\" expected"), compiler.writer().output);
}

#[test]
fn the_cursor_stops_at_the_end_of_the_input() {
    let mut compiler = compiler_for("ab");
    assert_eq!(compiler.current_char(), Some('a'));
    compiler.get_char();
    assert_eq!(compiler.current_char(), Some('b'));
    compiler.get_char();
    assert_eq!(compiler.current_char(), None);
    compiler.get_char();
    assert_eq!(compiler.current_char(), None);
}

#[test]
fn empty_input_has_no_lookahead() {
    let mut compiler = compiler_for("");
    assert_eq!(compiler.current_char(), None);
    assert_eq!(
        compiler.expression(),
        Err(CompilerError::ExpectedToken(Expected::Integer))
    );
    assert_eq!(diagnostic("Integer expected"), compiler.writer().output);
    let mut compiler = compiler_for("");
    assert_eq!(
        compiler.program(),
        Err(CompilerError::ExpectedToken(Expected::Char('{')))
    );
    assert_eq!(diagnostic("\"{\" expected"), compiler.writer().output);
}

#[test]
fn a_failure_ends_the_parse_after_what_was_emitted() {
    let mut compiler = compiler_for("(1+2");
    assert_eq!(
        compiler.expression(),
        Err(CompilerError::ExpectedToken(Expected::Char(')')))
    );
    let mut expected = lines(&["MOVE #1,D0", "MOVE D0,-(SP)", "MOVE #2,D0", "ADD (SP)+,D0"]);
    expected.push_str(&diagnostic("\")\" expected"));
    assert_eq!(expected, compiler.writer().output);

    let mut compiler = compiler_for("1+*");
    assert_eq!(
        compiler.expression(),
        Err(CompilerError::ExpectedToken(Expected::Integer))
    );
    let mut expected = lines(&["MOVE #1,D0", "MOVE D0,-(SP)"]);
    expected.push_str(&diagnostic("Integer expected"));
    assert_eq!(expected, compiler.writer().output);
    assert_eq!(compiler.current_char(), Some('*'));
}

#[test]
fn statements_and_blocks() {
    let mut compiler = compiler_for("a=1;");
    assert_eq!(compiler.statement(), Ok(()));
    assert_eq!(
        lines(&["MOVE #1,D0", "LEA a(PC),A0", "MOVE D0,(A0)"]),
        compiler.writer().output
    );

    let mut compiler = compiler_for("a=1");
    assert_eq!(
        compiler.statement(),
        Err(CompilerError::ExpectedToken(Expected::Char(';')))
    );

    let mut compiler = compiler_for("a 1");
    assert_eq!(
        compiler.assignment(),
        Err(CompilerError::ExpectedToken(Expected::Char('=')))
    );

    let mut compiler = compiler_for("{ }");
    assert_eq!(compiler.block(), Ok(()));
    assert_eq!("", compiler.writer().output);

    let mut compiler = compiler_for("{ a = 1; b = a + g(); }");
    assert_eq!(compiler.block(), Ok(()));
    let expected = lines(&[
        "MOVE #1,D0",
        "LEA a(PC),A0",
        "MOVE D0,(A0)",
        "MOVE a(PC),D0",
        "MOVE D0,-(SP)",
        "BSR g",
        "ADD (SP)+,D0",
        "LEA b(PC),A0",
        "MOVE D0,(A0)",
    ]);
    assert_eq!(expected, compiler.writer().output);
    assert_eq!(compiler.current_char(), None);

    let mut compiler = compiler_for("{ a = 1; ");
    assert_eq!(
        compiler.block(),
        Err(CompilerError::ExpectedToken(Expected::Name))
    );
    let mut compiler = compiler_for("a = 1; }");
    assert_eq!(
        compiler.block(),
        Err(CompilerError::ExpectedToken(Expected::Char('{')))
    );
}

#[test]
fn a_program_may_start_with_blanks() {
    let mut compiler = compiler_for("  \t{x=2*y;}");
    assert_eq!(compiler.program(), Ok(()));
    let expected = lines(&[
        "MOVE #2,D0",
        "MOVE D0,-(SP)",
        "MOVE y(PC),D0",
        "MULS (SP)+,D0",
        "LEA x(PC),A0",
        "MOVE D0,(A0)",
    ]);
    assert_eq!(expected, compiler.writer().output);
}

#[test]
fn labels_count_up_and_are_never_reused() {
    let mut compiler = compiler_for("");
    let mut seen: Vec<String> = Vec::new();
    for number in 0..120 {
        let label = compiler.new_label();
        let expected = if number < 10 {
            format!("L0{}", number)
        } else {
            format!("L{}", number)
        };
        assert_eq!(expected, label);
        assert!(!seen.contains(&label));
        seen.push(label);
    }
    assert_eq!("", compiler.writer().output);
    compiler.post_label();
    compiler.post_label();
    assert_eq!("L120L121", compiler.writer().output);
}

#[test]
fn failures_describe_themselves() {
    assert_eq!(Expected::Name.message(), "Name expected");
    assert_eq!(Expected::Integer.message(), "Integer expected");
    assert_eq!(Expected::Char('=').message(), "\"=\" expected");
    assert_eq!(
        CompilerError::ExpectedToken(Expected::Char(';')).message(),
        "\";\" expected"
    );
}

#[test]
fn line_terminators_in_the_input_are_dropped() {
    let mut compiler = compiler_for("{\r\n a = 1;\n}\n");
    assert_eq!(compiler.program(), Ok(()));
    assert_eq!(
        lines(&["MOVE #1,D0", "LEA a(PC),A0", "MOVE D0,(A0)"]),
        compiler.into_writer().output
    );
}

fn compile_program(input: &str) -> (Result<(), CompilerError>, String) {
    let mut compiler = compiler_for(input);
    let result = compiler.program();
    (result, compiler.into_writer().output)
}

#[test]
fn a_blank_after_any_token_changes_no_line() {
    for source in [
        "{ab=(1+x2)*3/f();c=ab-7;}",
        "{a=1;b=2",
        "{a=(1+;}",
        "{=1;}",
        "{a=1}",
    ] {
        let plain = compile_program(source);
        let chars: Vec<char> = source.chars().collect();
        for k in 1..=chars.len() {
            let inside_a_name = k < chars.len()
                && chars[k - 1].is_alphanumeric()
                && chars[k].is_alphanumeric();
            if inside_a_name {
                continue;
            }
            for blank in [' ', '\t'] {
                let mut spaced: String = chars[..k].iter().collect();
                spaced.push(blank);
                spaced.extend(chars[k..].iter());
                assert_eq!(plain, compile_program(&spaced), "{:?}", spaced);
            }
        }
    }
}

#[test]
fn a_blank_inside_a_name_makes_two_names() {
    let (result, output) = compile_program("{ab=1;}");
    assert_eq!(result, Ok(()));
    assert_eq!(output, lines(&["MOVE #1,D0", "LEA ab(PC),A0", "MOVE D0,(A0)"]));
    let (result, _) = compile_program("{a b=1;}");
    assert_eq!(
        result,
        Err(CompilerError::ExpectedToken(Expected::Char('=')))
    );
}
