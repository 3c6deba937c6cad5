use cradle::reader::{FileReader, Reader, ReaderArg, ReaderError, StdinReader, TestReader};
use cradle::text::{alpha, chars_of, digit, find, push_decimal, strip_line_terminators};
use cradle::writer::{StdoutWriter, TestWriter, Writer};

#[test]
fn a_new_reader_holds_nothing() {
    assert_eq!(TestReader::new().get_buffer(), Vec::<char>::new());
    assert_eq!(StdinReader::new().get_buffer(), Vec::<char>::new());
    assert_eq!(FileReader::new().get_buffer(), Vec::<char>::new());
}

#[test]
fn a_test_reader_takes_raw_text_without_line_terminators() {
    let mut reader = TestReader::new();
    assert_eq!(reader.read(ReaderArg::Raw(String::from("a\r\nb\n\nc\r"))), Ok(()));
    assert_eq!(reader.get_buffer(), vec!['a', 'b', 'c']);
    assert_eq!(reader.read(ReaderArg::Raw(String::from("1 + 2"))), Ok(()));
    assert_eq!(reader.get_buffer(), vec!['1', ' ', '+', ' ', '2']);
}

#[test]
fn a_test_reader_refuses_other_sources() {
    let mut reader = TestReader::new();
    reader.read(ReaderArg::Raw(String::from("kept"))).unwrap();
    assert_eq!(
        reader.read(ReaderArg::FilePath(String::from("input.xx"))),
        Err(ReaderError::UnsupportedSource)
    );
    assert_eq!(
        reader.read(ReaderArg::Interactive),
        Err(ReaderError::UnsupportedSource)
    );
    assert_eq!(reader.get_buffer(), vec!['k', 'e', 'p', 't']);
}

#[test]
fn file_and_stdin_readers_drop_line_terminators() {
    let mut reader = FileReader::new();
    reader.fill("{\n  a = 1;\r\n}\n");
    assert_eq!(
        reader.get_buffer().into_iter().collect::<String>(),
        "{  a = 1;}"
    );
    reader.fill("x");
    assert_eq!(reader.get_buffer(), vec!['x']);

    let mut reader = StdinReader::new();
    reader.fill("1+2\n");
    assert_eq!(reader.get_buffer(), vec!['1', '+', '2']);
}

#[test]
fn a_test_writer_starts_each_line_with_a_terminator() {
    let mut writer = TestWriter::new();
    assert_eq!(writer.output, "");
    writer.writeln(String::from("MOVE #1,D0"));
    writer.writeln(String::from("NEG D0"));
    writer.write(String::from("L00"));
    writer.write(String::from(""));
    assert_eq!(writer.output, "\nMOVE #1,D0\nNEG D0L00");
}

#[test]
fn a_stdout_writer_ends_each_line_with_a_terminator() {
    let mut writer = StdoutWriter::new();
    assert_eq!(writer.take(), "");
    writer.writeln(String::from("MOVE #1,D0"));
    writer.write(String::from("L00"));
    writer.writeln(String::from("NEG D0"));
    assert_eq!(writer.take(), "MOVE #1,D0\nL00NEG D0\n");
    assert_eq!(writer.take(), "");
    writer.write(String::from("x"));
    assert_eq!(writer.take(), "x");
}

#[test]
fn letters_and_digits() {
    for c in "azAZ\u{e9}\u{4eac}\u{3b1}".chars() {
        assert!(alpha(c), "{:?}", c);
        assert!(!digit(c), "{:?}", c);
    }
    for c in "0123456789".chars() {
        assert!(digit(c), "{:?}", c);
        assert!(!alpha(c), "{:?}", c);
    }
    for c in " \t\n_+-*/(){}=;@[`{\u{20ac}\u{661}\u{1f49d}".chars() {
        assert!(!alpha(c), "{:?}", c);
        assert!(!digit(c), "{:?}", c);
    }
}

#[test]
fn text_helpers() {
    assert_eq!(chars_of("a\u{e9}\n"), vec!['a', '\u{e9}', '\n']);
    assert_eq!(strip_line_terminators("\r\n"), Vec::<char>::new());
    let text: Vec<char> = "ab cd e".chars().collect();
    assert_eq!(find(&text, 0, ' '), 2);
    assert_eq!(find(&text, 2, ' '), 2);
    assert_eq!(find(&text, 3, ' '), 5);
    assert_eq!(find(&text, 6, ' '), 7);
    assert_eq!(find(&text, 7, ' '), 7);
    assert_eq!(find(&text, 0, 'x'), 7);

    let mut number = String::from("n=");
    push_decimal(&mut number, 0);
    push_decimal(&mut number, 7);
    push_decimal(&mut number, 10);
    push_decimal(&mut number, 9087);
    assert_eq!(number, "n=07109087");
    let mut largest = String::new();
    push_decimal(&mut largest, usize::MAX);
    assert_eq!(largest, usize::MAX.to_string());
}
