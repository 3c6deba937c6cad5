use cradle::assembly_interpreter::{AssemblyInterpreter, AssemblyInterpreterError};
use cradle::compiler::Compiler;
use cradle::instruction::{decode_opcode, decode_operand, split_instruction, Opcode, Operand};
use cradle::machine::{MachineState, Register};
use cradle::reader::{ReaderArg, TestReader};
use cradle::writer::TestWriter;

fn chars(text: &str) -> Vec<char> {
    text.chars().collect()
}

fn run(program: &str) -> (AssemblyInterpreter, Result<(), AssemblyInterpreterError>) {
    let mut interpreter = AssemblyInterpreter::new();
    let result = interpreter.eval(String::from(program));
    (interpreter, result)
}

fn compile_and_run(expression: &str) -> Option<isize> {
    let mut reader = TestReader::new();
    reader.read(ReaderArg::Raw(String::from(expression))).unwrap();
    let mut compiler = Compiler::new(reader, TestWriter::new());
    compiler.init();
    compiler.expression().unwrap();
    let mut interpreter = AssemblyInterpreter::new();
    interpreter.eval(compiler.into_writer().output).unwrap();
    interpreter.d0()
}

#[test]
fn given_add_expression_output_correct_answer_register_d0() {
    let mut asm_interp = AssemblyInterpreter::new();
    let mut reader = TestReader::new();
    reader.read(ReaderArg::Raw(String::from("1+2"))).unwrap();
    let writer = TestWriter::new();
    let mut cradle = Compiler::new(reader, writer);
    cradle.init();

    cradle.expression().unwrap();

    asm_interp.eval(cradle.into_writer().output).unwrap();
    println!("{:?}", asm_interp.d0());
    assert_eq!(asm_interp.d0(), Some(3));
}

#[test]
fn given_subtract_expression_output_correct_answer_register_d0() {
    let mut asm_interp = AssemblyInterpreter::new();
    let mut reader = TestReader::new();
    reader.read(ReaderArg::Raw(String::from("1-2"))).unwrap();
    let writer = TestWriter::new();
    let mut cradle = Compiler::new(reader, writer);
    cradle.init();

    cradle.expression().unwrap();

    asm_interp.eval(cradle.into_writer().output).unwrap();
    println!("{:?}", asm_interp.d0());
    assert_eq!(asm_interp.d0(), Some(-1));
}

#[test]
fn given_multiply_expression_output_correct_answer_register_d0() {
    let mut asm_interp = AssemblyInterpreter::new();
    let mut reader = TestReader::new();
    reader.read(ReaderArg::Raw(String::from("2*2"))).unwrap();
    let writer = TestWriter::new();
    let mut cradle = Compiler::new(reader, writer);
    cradle.init();

    cradle.expression().unwrap();

    asm_interp.eval(cradle.into_writer().output).unwrap();
    println!("{:?}", asm_interp.d0());
    assert_eq!(asm_interp.d0(), Some(4));
}

#[test]
fn given_divide_expression_output_correct_answer_register_d0() {
    let mut asm_interp = AssemblyInterpreter::new();
    let mut reader = TestReader::new();
    reader.read(ReaderArg::Raw(String::from("9/3"))).unwrap();
    let writer = TestWriter::new();
    let mut cradle = Compiler::new(reader, writer);
    cradle.init();

    cradle.expression().unwrap();

    asm_interp.eval(cradle.into_writer().output).unwrap();
    println!("{:?}", asm_interp.d0());
    assert_eq!(asm_interp.d0(), Some(3));
}

#[test]
fn given_multiple_operator_expression_output_correct_answer_register_d0() {
    let mut asm_interp = AssemblyInterpreter::new();
    let mut reader = TestReader::new();
    reader.read(ReaderArg::Raw(String::from("2*2+5"))).unwrap();
    let writer = TestWriter::new();
    let mut cradle = Compiler::new(reader, writer);
    cradle.init();

    cradle.expression().unwrap();

    asm_interp.eval(cradle.into_writer().output).unwrap();
    println!("{:?}", asm_interp.d0());
    assert_eq!(asm_interp.d0(), Some(9));
}

#[test]
fn given_multiple_operator_expression_with_precedence_output_correct_answer_register_d0() {
    let mut asm_interp = AssemblyInterpreter::new();
    let mut reader = TestReader::new();
    reader
        .read(ReaderArg::Raw(String::from("2*(2+5)")))
        .unwrap();
    let writer = TestWriter::new();
    let mut cradle = Compiler::new(reader, writer);
    cradle.init();

    cradle.expression().unwrap();

    asm_interp.eval(cradle.into_writer().output).unwrap();
    println!("{:?}", asm_interp.d0());
    assert_eq!(asm_interp.d0(), Some(14));
}

#[test]
fn given_complex_multiple_operator_expression_with_precedence_output_correct_answer_register_d0()
{
    let mut asm_interp = AssemblyInterpreter::new();
    let mut reader = TestReader::new();
    reader
        .read(ReaderArg::Raw(String::from("(1+8)/((3+7)+(5-6))")))
        .unwrap();
    let writer = TestWriter::new();
    let mut cradle = Compiler::new(reader, writer);
    cradle.init();

    cradle.expression().unwrap();

    asm_interp.eval(cradle.into_writer().output).unwrap();
    println!("{:?}", asm_interp.d0());
    assert_eq!(asm_interp.d0(), Some(1));
}

#[test]
fn sums_and_differences_of_all_digit_pairs() {
    for a in 0..10isize {
        for b in 0..10isize {
            assert_eq!(compile_and_run(&format!("{}+{}", a, b)), Some(a + b));
            assert_eq!(compile_and_run(&format!("{}-{}", a, b)), Some(a - b));
            assert_eq!(compile_and_run(&format!("{}*{}", a, b)), Some(a * b));
            if b != 0 {
                assert_eq!(compile_and_run(&format!("{} / {}", a, b)), Some(a / b));
            }
        }
    }
}

#[test]
fn operators_of_one_level_associate_to_the_left() {
    assert_eq!(compile_and_run("9-3-2"), Some(4));
    assert_eq!(compile_and_run("8/4/2"), Some(1));
    assert_eq!(compile_and_run("2*3*4"), Some(24));
    assert_eq!(compile_and_run("1-2+3-4+7"), Some(5));
    assert_eq!(compile_and_run("(2+3)*(4-6)/3"), Some(-3));
}

#[test]
fn a_fresh_machine_is_empty() {
    let interpreter = AssemblyInterpreter::new();
    assert_eq!(interpreter.d0(), None);
    assert_eq!(interpreter.d1(), None);
    assert_eq!(interpreter.machine().depth(), 0);
}

#[test]
fn machine_state_operations() {
    let mut machine = MachineState::new();
    assert_eq!(
        machine.read(Register::D0),
        Err(AssemblyInterpreterError::UnsetRegisterRead)
    );
    assert_eq!(
        machine.read(Register::D1),
        Err(AssemblyInterpreterError::UnsetRegisterRead)
    );
    assert_eq!(machine.pop(), Err(AssemblyInterpreterError::EmptyStackPop));
    assert_eq!(machine.depth(), 0);
    assert_eq!(machine.register(Register::D0), None);

    machine.write(Register::D1, -7);
    assert_eq!(machine.read(Register::D1), Ok(-7));
    assert_eq!(machine.register(Register::D0), None);
    machine.write(Register::D0, 4);
    machine.write(Register::D0, 5);
    assert_eq!(machine.read(Register::D0), Ok(5));

    machine.push(1);
    machine.push(2);
    assert_eq!(machine.depth(), 2);
    assert_eq!(machine.pop(), Ok(2));
    assert_eq!(machine.pop(), Ok(1));
    assert_eq!(machine.pop(), Err(AssemblyInterpreterError::EmptyStackPop));
    assert_eq!(machine.read(Register::D0), Ok(5));
    assert_eq!(machine.read(Register::D1), Ok(-7));
}

#[test]
fn opcodes_are_decoded_by_their_exact_word() {
    assert_eq!(decode_opcode(&chars("MOVE")), Some(Opcode::Move));
    assert_eq!(decode_opcode(&chars("ADD")), Some(Opcode::Add));
    assert_eq!(decode_opcode(&chars("SUB")), Some(Opcode::Sub));
    assert_eq!(decode_opcode(&chars("NEG")), Some(Opcode::Neg));
    assert_eq!(decode_opcode(&chars("MULS")), Some(Opcode::Muls));
    assert_eq!(decode_opcode(&chars("DIVS")), Some(Opcode::Divs));
    assert_eq!(decode_opcode(&chars("CLR")), None);
    assert_eq!(decode_opcode(&chars("move")), None);
    assert_eq!(decode_opcode(&chars("MOVES")), None);
    assert_eq!(decode_opcode(&chars("")), None);
}

#[test]
fn a_line_splits_at_its_first_space() {
    let line = chars("MOVE D0,-(SP) x");
    let (word, rands) = split_instruction(&line);
    assert_eq!(word, &chars("MOVE")[..]);
    assert_eq!(rands, &chars("D0,-(SP) x")[..]);

    let line = chars("NEG");
    let (word, rands) = split_instruction(&line);
    assert_eq!(word, &chars("NEG")[..]);
    assert_eq!(rands, &chars("NEG")[..]);

    let line = chars(" D0");
    let (word, rands) = split_instruction(&line);
    assert_eq!(word, &chars("")[..]);
    assert_eq!(rands, &chars("D0")[..]);
}

#[test]
fn operands_are_decoded_one_at_a_time() {
    let text = chars("#7,D0,D1,-(SP),(SP)+");
    assert_eq!(decode_operand(&text, 0), Ok((Operand::Immediate(7), 2)));
    assert_eq!(decode_operand(&text, 2), Ok((Operand::Separator, 1)));
    assert_eq!(
        decode_operand(&text, 3),
        Ok((Operand::Register(Register::D0), 2))
    );
    assert_eq!(
        decode_operand(&text, 6),
        Ok((Operand::Register(Register::D1), 2))
    );
    assert_eq!(decode_operand(&text, 9), Ok((Operand::Push, 5)));
    assert_eq!(decode_operand(&text, 15), Ok((Operand::Pop, 5)));

    assert_eq!(
        decode_operand(&chars("D2"), 0),
        Err(AssemblyInterpreterError::UnknownRegister)
    );
    assert_eq!(
        decode_operand(&chars("D"), 0),
        Err(AssemblyInterpreterError::UnknownRegister)
    );
    for malformed in ["#", "#a", "-(SP", "-1", "(SP)", "(SP)-", "(", "-", "x", " ", "0"] {
        assert_eq!(
            decode_operand(&chars(malformed), 0),
            Err(AssemblyInterpreterError::UnknownOperand),
            "{:?}",
            malformed
        );
    }
}

#[test]
fn each_opcode_handler_combines_source_and_destination() {
    let mut interpreter = AssemblyInterpreter::new();
    assert_eq!(interpreter.move_op(&chars("#7,D0")), Ok(()));
    assert_eq!(interpreter.d0(), Some(7));
    assert_eq!(interpreter.move_op(&chars("#2,D1")), Ok(()));
    assert_eq!(interpreter.d1(), Some(2));

    assert_eq!(interpreter.add_op(&chars("D1,D0")), Ok(()));
    assert_eq!(interpreter.d0(), Some(9));
    assert_eq!(interpreter.sub_op(&chars("D1,D0")), Ok(()));
    assert_eq!(interpreter.d0(), Some(-7));
    assert_eq!(interpreter.muls_op(&chars("D1,D0")), Ok(()));
    assert_eq!(interpreter.d0(), Some(-14));
    assert_eq!(interpreter.move_op(&chars("#3,D1")), Ok(()));
    assert_eq!(interpreter.divs_op(&chars("D0,D1")), Ok(()));
    assert_eq!(interpreter.d1(), Some(-4));
    assert_eq!(interpreter.d0(), Some(-14));
}

#[test]
fn the_destination_d1_is_combined_with_its_own_value() {
    let (interpreter, result) = run("MOVE #6,D1\nMOVE #2,D0\nADD D0,D1");
    assert_eq!(result, Ok(()));
    assert_eq!(interpreter.d1(), Some(8));
    assert_eq!(interpreter.d0(), Some(2));

    let (interpreter, result) = run("MOVE #6,D1\nMOVE #2,D0\nSUB D0,D1\nMULS D1,D1\nDIVS D0,D1");
    assert_eq!(result, Ok(()));
    assert_eq!(interpreter.d1(), Some(0));

    let (interpreter, result) = run("MOVE #2,D1\nMOVE #7,D0\nDIVS D0,D1");
    assert_eq!(result, Ok(()));
    assert_eq!(interpreter.d1(), Some(3));
}

#[test]
fn division_rounds_toward_zero() {
    let mut interpreter = AssemblyInterpreter::new();
    interpreter.eval(String::from("MOVE #7,D0\nMOVE #0,D1\nSUB D0,D1")).unwrap();
    assert_eq!(interpreter.d1(), Some(7));
    let (interpreter, result) = run("MOVE #0,D0\nMOVE #7,D1\nSUB D0,D1\nMOVE #2,D0\nDIVS D1,D0");
    assert_eq!(result, Ok(()));
    assert_eq!(interpreter.d1(), Some(-7));
    assert_eq!(interpreter.d0(), Some(-3));
    let (interpreter, result) =
        run("MOVE #0,D0\nMOVE #2,D1\nSUB D0,D1\nMOVE #7,D0\nDIVS D0,D1");
    assert_eq!(result, Ok(()));
    assert_eq!(interpreter.d1(), Some(-3));
    let (interpreter, result) = run(
        "MOVE #0,D0\nMOVE #2,D1\nSUB D0,D1\nMOVE #7,D0\nMOVE #0,-(SP)\nSUB (SP)+,D0\nDIVS D0,D1",
    );
    assert_eq!(result, Ok(()));
    assert_eq!(interpreter.d0(), Some(-7));
    assert_eq!(interpreter.d1(), Some(3));
}

#[test]
fn neg_after_sub_leaves_the_difference() {
    let (interpreter, result) = run("MOVE #5,D0\nNEG D0");
    assert_eq!(result, Ok(()));
    assert_eq!(interpreter.d0(), Some(5));

    let (_, result) = run("NEG D0");
    assert_eq!(result, Err(AssemblyInterpreterError::UnsetRegisterRead));
}

#[test]
fn the_negating_handler_negates_in_place() {
    let mut interpreter = AssemblyInterpreter::new();
    interpreter.move_op(&chars("#5,D0")).unwrap();
    assert_eq!(interpreter.neg_op(&chars("D0")), Ok(()));
    assert_eq!(interpreter.d0(), Some(-5));
    assert_eq!(interpreter.neg_op(&chars("D0")), Ok(()));
    assert_eq!(interpreter.d0(), Some(5));
    assert_eq!(interpreter.neg_op(&chars("#8,D0")), Ok(()));
    assert_eq!(interpreter.d0(), Some(3));
    assert_eq!(
        interpreter.neg_op(&chars("D1")),
        Err(AssemblyInterpreterError::UnsetRegisterRead)
    );
}

#[test]
fn the_carried_value_starts_at_zero_for_each_line() {
    let (interpreter, result) = run("MOVE #5,D0\nMOVE ,D0");
    assert_eq!(result, Ok(()));
    assert_eq!(interpreter.d0(), Some(0));
    let (interpreter, result) = run("MOVE -(SP)\nMOVE (SP)+,D1");
    assert_eq!(result, Ok(()));
    assert_eq!(interpreter.d1(), Some(0));
    assert_eq!(interpreter.machine().depth(), 0);
}

#[test]
fn an_unknown_opcode_aborts_and_leaves_the_machine() {
    let (interpreter, result) = run("MOVE #1,D0\nMOVE D0,-(SP)\nCLR D0\nMOVE #2,D0");
    assert_eq!(result, Err(AssemblyInterpreterError::UnknownOpcode));
    assert_eq!(interpreter.d0(), Some(1));
    assert_eq!(interpreter.d1(), None);
    assert_eq!(interpreter.machine().depth(), 1);

    let mut interpreter = AssemblyInterpreter::new();
    assert_eq!(
        interpreter.process_instruction(String::from("BSR f")),
        Err(AssemblyInterpreterError::UnknownOpcode)
    );
    assert_eq!(
        interpreter.process_instruction(String::from("")),
        Err(AssemblyInterpreterError::UnknownOpcode)
    );
    assert_eq!(interpreter.d0(), None);
    assert_eq!(interpreter.machine().depth(), 0);
}

#[test]
fn an_empty_pop_aborts_and_leaves_the_machine() {
    let (interpreter, result) = run("MOVE #4,D0\nADD (SP)+,D0\nMOVE #5,D0");
    assert_eq!(result, Err(AssemblyInterpreterError::EmptyStackPop));
    assert_eq!(interpreter.d0(), Some(4));
    assert_eq!(interpreter.machine().depth(), 0);
}

#[test]
fn an_unset_register_read_aborts_and_leaves_the_machine() {
    let (interpreter, result) = run("MOVE #4,-(SP)\nMOVE D1,D0\nMOVE #5,D0");
    assert_eq!(result, Err(AssemblyInterpreterError::UnsetRegisterRead));
    assert_eq!(interpreter.d0(), None);
    assert_eq!(interpreter.d1(), None);
    let mut machine = interpreter;
    assert_eq!(machine.move_op(&chars("(SP)+,D0")), Ok(()));
    assert_eq!(machine.d0(), Some(4));

    let (interpreter, result) = run("MOVE #4,D1\nADD D1,D0");
    assert_eq!(result, Err(AssemblyInterpreterError::UnsetRegisterRead));
    assert_eq!(interpreter.d1(), Some(4));
    assert_eq!(interpreter.d0(), None);
}

#[test]
fn what_ran_before_a_failure_stays() {
    let (interpreter, result) = run("MOVE #3,D0,D7");
    assert_eq!(result, Err(AssemblyInterpreterError::UnknownRegister));
    assert_eq!(interpreter.d0(), Some(3));

    let (interpreter, result) = run("MOVE #3,-(SP),-(SP),?");
    assert_eq!(result, Err(AssemblyInterpreterError::UnknownOperand));
    assert_eq!(interpreter.machine().depth(), 2);
}

#[test]
fn a_register_at_a_third_position_is_no_operand() {
    let (interpreter, result) = run("MOVE #3,D0,,D1");
    assert_eq!(result, Err(AssemblyInterpreterError::UnknownOperand));
    assert_eq!(interpreter.d0(), Some(3));
    assert_eq!(interpreter.d1(), None);
}

#[test]
fn division_by_zero_is_a_failure() {
    assert_eq!(
        {
            let mut reader = TestReader::new();
            reader.read(ReaderArg::Raw(String::from("7/0"))).unwrap();
            let mut compiler = Compiler::new(reader, TestWriter::new());
            compiler.init();
            compiler.expression().unwrap();
            let mut interpreter = AssemblyInterpreter::new();
            let result = interpreter.eval(compiler.into_writer().output);
            (result, interpreter.d0(), interpreter.d1())
        },
        (
            Err(AssemblyInterpreterError::DivisionByZero),
            Some(0),
            Some(7)
        )
    );
}

#[test]
fn a_result_too_large_for_a_register_is_a_failure() {
    let mut interpreter = AssemblyInterpreter::new();
    interpreter.move_op(&chars("#9,D0")).unwrap();
    let mut last = Ok(());
    let mut held = interpreter.d0();
    for _ in 0..64 {
        last = interpreter.process_instruction(String::from("MULS D0,D0"));
        if last.is_err() {
            break;
        }
        held = interpreter.d0();
    }
    assert_eq!(last, Err(AssemblyInterpreterError::Overflow));
    assert_eq!(interpreter.d0(), held);
    let value = held.unwrap();
    assert!(value.checked_mul(value).is_none());

    let mut interpreter = AssemblyInterpreter::new();
    interpreter
        .eval(String::from("MOVE #0,D1\nMOVE #1,D0\nSUB D1,D0"))
        .unwrap();
    assert_eq!(interpreter.d0(), Some(-1));
    let mut doubled = Ok(());
    for _ in 0..200 {
        doubled = interpreter.process_instruction(String::from("ADD D0,D0"));
        if doubled.is_err() {
            break;
        }
    }
    assert_eq!(doubled, Err(AssemblyInterpreterError::Overflow));
    assert_eq!(interpreter.d0(), Some(isize::MIN));
    assert_eq!(
        interpreter.neg_op(&chars("D0")),
        Err(AssemblyInterpreterError::Overflow)
    );
    interpreter.move_op(&chars("D0,D1")).unwrap();
    interpreter
        .eval(String::from("MOVE #0,-(SP)\nMOVE #1,D0\nSUB (SP)+,D0"))
        .unwrap();
    assert_eq!(interpreter.d0(), Some(-1));
    assert_eq!(
        interpreter.divs_op(&chars("D1,D0")),
        Err(AssemblyInterpreterError::Overflow)
    );
    assert_eq!(interpreter.d0(), Some(-1));
}

#[test]
fn one_leading_line_terminator_is_dropped() {
    let (interpreter, result) = run("\nMOVE #1,D0");
    assert_eq!(result, Ok(()));
    assert_eq!(interpreter.d0(), Some(1));

    let (interpreter, result) = run("MOVE #1,D0");
    assert_eq!(result, Ok(()));
    assert_eq!(interpreter.d0(), Some(1));

    let (interpreter, result) = run("\n\nMOVE #1,D0");
    assert_eq!(result, Err(AssemblyInterpreterError::UnknownOpcode));
    assert_eq!(interpreter.d0(), None);

    let (interpreter, result) = run("MOVE #1,D0\n");
    assert_eq!(result, Err(AssemblyInterpreterError::UnknownOpcode));
    assert_eq!(interpreter.d0(), Some(1));

    let (_, result) = run("");
    assert_eq!(result, Err(AssemblyInterpreterError::UnknownOpcode));
    let (_, result) = run("\n");
    assert_eq!(result, Err(AssemblyInterpreterError::UnknownOpcode));
}

#[test]
fn the_machine_carries_over_between_evaluations() {
    let mut interpreter = AssemblyInterpreter::new();
    interpreter.eval(String::from("\nMOVE #4,D0\nMOVE D0,-(SP)")).unwrap();
    interpreter.eval(String::from("\nMOVE #5,D0\nADD (SP)+,D0")).unwrap();
    assert_eq!(interpreter.d0(), Some(9));
    assert_eq!(interpreter.machine().depth(), 0);
}

fn value(text: &[u8], at: &mut usize, level: u8) -> isize {
    if level == 2 {
        if text[*at] == b'(' {
            *at += 1;
            let inner = value(text, at, 0);
            *at += 1;
            return inner;
        }
        let digit = (text[*at] - b'0') as isize;
        *at += 1;
        return digit;
    }
    let mut left = value(text, at, level + 1);
    while *at < text.len() {
        let operator = text[*at];
        let here = if level == 0 {
            operator == b'+' || operator == b'-'
        } else {
            operator == b'*' || operator == b'/'
        };
        if !here {
            break;
        }
        *at += 1;
        let right = value(text, at, level + 1);
        left = match operator {
            b'+' => left + right,
            b'-' => left - right,
            b'*' => left * right,
            _ => left / right,
        };
    }
    left
}

#[test]
fn compiled_expressions_leave_their_value_in_d0() {
    for source in [
        "7",
        "(7)",
        "((3))*2",
        "1+2*3-4/2",
        "(1+2)*(3-4)/2",
        "9*9*9*9-8*8*8/(2+1)",
        "2*(3+4*(5-6/(1+1)))-7",
        "0-9/2",
        "(0-9)/2*2",
        "8/(0-3)",
        "1-(2-(3-(4-(5-6))))",
        "9/3/3",
        "2*2+5",
        "2*(2+5)",
        "(1+8)/((3+7)+(5-6))",
    ] {
        let mut at = 0;
        let expected = value(source.as_bytes(), &mut at, 0);
        assert_eq!(at, source.len());
        assert_eq!(compile_and_run(source), Some(expected), "{}", source);
    }
}

#[test]
fn compiled_expressions_leave_the_stack_as_it_was() {
    let mut reader = TestReader::new();
    reader.read(ReaderArg::Raw(String::from("(1+2)*(3-4)/5"))).unwrap();
    let mut compiler = Compiler::new(reader, TestWriter::new());
    compiler.init();
    compiler.expression().unwrap();
    let mut interpreter = AssemblyInterpreter::new();
    interpreter.eval(String::from("MOVE #4,-(SP)\nMOVE #6,-(SP)")).unwrap();
    interpreter.eval(compiler.into_writer().output).unwrap();
    assert_eq!(interpreter.d0(), Some(0));
    assert_eq!(interpreter.machine().depth(), 2);
    interpreter.eval(String::from("MOVE (SP)+,D0\nMOVE (SP)+,D1")).unwrap();
    assert_eq!(interpreter.d0(), Some(6));
    assert_eq!(interpreter.d1(), Some(4));
}
