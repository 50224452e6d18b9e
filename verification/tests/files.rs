use std::str::FromStr;

use rust_xyz_chem::{Atom, File, ParseError, ParseErrorKind, ParseState, Parser, Position, Record};

fn atom(label: &str, x: &str, y: &str, z: &str) -> Atom {
    Atom {
        label: String::from(label),
        position: Position { x: String::from(x), y: String::from(y), z: String::from(z) },
    }
}

fn error(kind: ParseErrorKind, line: usize) -> Result<File, ParseError> {
    Err(ParseError { kind, line })
}

const TWO_FRAMES: &str = "2
first frame
H\t0.0\t0.0\t0.0
H\t0.0\t0.0\t0.74

2
second frame
H\t0.0\t0.0\t0.0
H\t0.0\t0.0\t0.80
";

#[test]
fn multi_record_file() {
    let file: File = TWO_FRAMES.parse().unwrap();
    assert_eq!(file.records.len(), 2);
    assert_eq!(file.records[0].count, 2);
    assert_eq!(file.records[1].count, 2);
    assert_eq!(file.records[0].atoms.len(), 2);
    assert_eq!(file.records[1].atoms.len(), 2);
    assert_eq!(file.records[0].comment, "first frame");
    assert_eq!(file.records[1].comment, "second frame");
    assert_eq!(file.records[0].atoms[1], atom("H", "0.0", "0.0", "0.74"));
    assert_eq!(file.records[1].atoms[1], atom("H", "0.0", "0.0", "0.80"));
    assert_eq!(file.records[1].atoms[1].position.z.parse::<f64>().unwrap(), 0.80);
}

#[test]
fn empty_input_is_an_empty_file() {
    assert_eq!(File::from_str(""), Ok(File::new()));
    assert_eq!(File::from_str("\n"), Ok(File::new()));
    assert_eq!(File::from_str("  \n\t\n\n"), Ok(File::new()));
    assert_eq!(File::from_lines(&[], 0), Ok(File::new()));
}

#[test]
fn zero_atom_record() {
    let file = File::from_str("0\nnothing here\n").unwrap();
    assert_eq!(file.records.len(), 1);
    assert_eq!(file.records[0].count, 0);
    assert_eq!(file.records[0].comment, "nothing here");
    assert!(file.records[0].atoms.is_empty());
}

#[test]
fn zero_atom_record_is_followed_by_a_count_line() {
    let file = File::from_str("0\nempty\n1\nfull\nHe 0 0 0\n0\n\n").unwrap();
    assert_eq!(file.records.len(), 3);
    assert_eq!(file.records[0], Record::new("empty", &[]));
    assert_eq!(file.records[1], Record::new("full", &[atom("He", "0", "0", "0")]));
    assert_eq!(file.records[2], Record::new("", &[]));
}

#[test]
fn zero_atom_record_does_not_take_an_atom_line() {
    assert_eq!(File::from_str("0\nempty\nHe 0 0 0\n"), error(ParseErrorKind::ParseIntError, 2));
}

#[test]
fn truncated_file() {
    let text = "3\nwater\nO 0 0 0\nH 0 0 1\n";
    assert_eq!(File::from_str(text), error(ParseErrorKind::UnexpectedEndOfInput, 4));
}

#[test]
fn truncated_after_the_count_or_the_comment() {
    assert_eq!(File::from_str("3"), error(ParseErrorKind::UnexpectedEndOfInput, 1));
    assert_eq!(File::from_str("3\n"), error(ParseErrorKind::UnexpectedEndOfInput, 1));
    assert_eq!(File::from_str("3\nwater"), error(ParseErrorKind::UnexpectedEndOfInput, 2));
    assert_eq!(File::from_str("0"), error(ParseErrorKind::UnexpectedEndOfInput, 1));
    let text = "1\nfirst\nH 0 0 0\n2\nsecond\nH 0 0 0\n";
    assert_eq!(File::from_str(text), error(ParseErrorKind::UnexpectedEndOfInput, 6));
}

#[test]
fn blank_lines_before_a_count_line_are_skipped() {
    let plain = File::from_str("1\na\nH 0 0 0\n1\nb\nH 0 0 1\n").unwrap();
    let texts = [
        "\n1\na\nH 0 0 0\n1\nb\nH 0 0 1\n",
        "\n\n\n1\na\nH 0 0 0\n\n\n\n\n1\nb\nH 0 0 1\n\n\n",
        " \n\t\t\n1\na\nH 0 0 0\n \r\n1\nb\nH 0 0 1\n\u{a0}",
    ];
    for text in texts {
        assert_eq!(File::from_str(text).unwrap(), plain);
    }
}

#[test]
fn blank_lines_count_as_lines() {
    assert_eq!(File::from_str("\n\n\nx\n"), error(ParseErrorKind::ParseIntError, 3));
    assert_eq!(File::from_str("\n1\nc\n\n"), error(ParseErrorKind::MissingValue, 3));
}

#[test]
fn blank_comment_is_kept() {
    let file = File::from_str("1\n\nH 0 0 0\n1\n \t \nH 0 0 0\n").unwrap();
    assert_eq!(file.records[0].comment, "");
    assert_eq!(file.records[1].comment, " \t ");
}

#[test]
fn comment_is_kept_as_it_is() {
    let file = File::from_str("1\n  3  energy = -1.5\t \nH 0 0 0\n").unwrap();
    assert_eq!(file.records[0].comment, "  3  energy = -1.5\t ");
}

#[test]
fn count_line_may_be_surrounded_by_whitespace() {
    let file = File::from_str("  1\t\nc\nH 0 0 0\n+1\nd\nH 0 0 0\n001\ne\nH 0 0 0\n").unwrap();
    assert_eq!(file.records.len(), 3);
    assert_eq!(file.records[2].count, 1);
}

#[test]
fn count_line_that_is_no_count_is_refused() {
    for line in ["abc", "-1", "1.5", "2 3", "1e3", "0x10", "+", "1_000", "٣"] {
        let text = format!("{line}\ncomment\n");
        assert_eq!(File::from_str(&text), error(ParseErrorKind::ParseIntError, 0), "{line}");
    }
}

#[test]
fn count_that_does_not_fit_is_refused() {
    let text = format!("{}0\ncomment\n", usize::MAX);
    assert_eq!(File::from_str(&text), error(ParseErrorKind::ParseIntError, 0));
}

#[test]
fn data_after_a_record_must_be_a_count_line() {
    let text = "1\nc\nH 0 0 0\nH 0 0 1\n";
    assert_eq!(File::from_str(text), error(ParseErrorKind::ParseIntError, 3));
}

#[test]
fn atom_errors_carry_their_line() {
    let text = "2\nc\nH 0 0 0\nH 0 0\n";
    assert_eq!(File::from_str(text), error(ParseErrorKind::MissingValue, 3));
    let text = "\n2\nc\nH 0 0 0\nH 0 zero 0\n";
    assert_eq!(File::from_str(text), error(ParseErrorKind::ParseFloatError, 4));
    let text = "1\nc\n\n";
    assert_eq!(File::from_str(text), error(ParseErrorKind::MissingValue, 2));
}

#[test]
fn first_error_is_reported() {
    let text = "1\nc\nH 0 0\nnot a count\n3\n";
    assert_eq!(File::from_str(text), error(ParseErrorKind::MissingValue, 2));
}

#[test]
fn carriage_return_is_whitespace() {
    let file = File::from_str("1\r\nc\r\nH 0 0 0\r\n").unwrap();
    assert_eq!(file.records[0].count, 1);
    assert_eq!(file.records[0].comment, "c\r");
    assert_eq!(file.records[0].atoms[0], atom("H", "0", "0", "0"));
}

#[test]
fn last_line_needs_no_line_feed() {
    let with = File::from_str("1\nc\nH 0 0 0\n").unwrap();
    let without = File::from_str("1\nc\nH 0 0 0").unwrap();
    assert_eq!(with, without);
}

#[test]
fn from_lines_reads_what_from_str_reads() {
    let lines: Vec<String> = TWO_FRAMES.split('\n').map(String::from).collect();
    assert_eq!(File::from_lines(&lines, 0), File::from_str(TWO_FRAMES));
}

#[test]
fn from_lines_counts_from_the_first_line() {
    let lines = vec![String::from("1"), String::from("c"), String::from("H 0 0")];
    assert_eq!(File::from_lines(&lines, 0), error(ParseErrorKind::MissingValue, 2));
    assert_eq!(File::from_lines(&lines, 1), error(ParseErrorKind::MissingValue, 3));
    assert_eq!(File::from_lines(&lines, 100), error(ParseErrorKind::MissingValue, 102));
    assert_eq!(File::from_lines(&lines[..2], 7), error(ParseErrorKind::UnexpectedEndOfInput, 9));
}

#[test]
fn from_lines_counts_no_further_than_the_greatest_number() {
    let lines = vec![String::from("1"), String::from("c"), String::from("H 0 0")];
    let last = usize::MAX;
    assert_eq!(File::from_lines(&lines, last - 2), error(ParseErrorKind::MissingValue, last));
    assert_eq!(File::from_lines(&lines, last - 1), error(ParseErrorKind::MissingValue, last));
    assert_eq!(File::from_lines(&lines, last), error(ParseErrorKind::MissingValue, last));
    let ended = error(ParseErrorKind::UnexpectedEndOfInput, last);
    assert_eq!(File::from_lines(&lines[..1], last), ended);
    assert_eq!(File::from_lines(&lines[..0], last), Ok(File::new()));
}

#[test]
fn from_lines_takes_each_line_as_it_is() {
    let lines = vec![String::from("0"), String::from("two\nlines")];
    let file = File::from_lines(&lines, 0).unwrap();
    assert_eq!(file.records[0].comment, "two\nlines");
}

#[test]
fn file_is_written_as_its_records() {
    let mut file = File::new();
    let hydrogen = [atom("H", "0", "0", "0"), atom("H", "0", "0", "0.74")];
    file.push(Record::new("first frame", &hydrogen));
    file.push(Record::new("", &[]));
    file.push(Record::new("second frame", &[atom("He", "1.5", "-2", "1e-3")]));
    assert_eq!(
        file.to_string(),
        "2\nfirst frame\nH\t0\t0\t0\nH\t0\t0\t0.74\n0\n\n1\nsecond frame\nHe\t1.5\t-2\t1e-3\n"
    );
    assert_eq!(file.records[2].to_string(), "1\nsecond frame\nHe\t1.5\t-2\t1e-3\n");
    assert_eq!(File::new().to_string(), "");
}

#[test]
fn file_is_appended_to_what_is_there() {
    let mut file = File::new();
    file.push(Record::new("c", &[atom("H", "0", "0", "0")]));
    let mut out = String::from("# ");
    file.write_to(&mut out);
    file.records[0].write_to(&mut out);
    assert_eq!(out, "# 1\nc\nH\t0\t0\t0\n1\nc\nH\t0\t0\t0\n");
}

#[test]
fn written_count_is_the_number_of_atoms() {
    let mut record = Record::new("c", &[atom("H", "0", "0", "0"), atom("H", "0", "0", "1")]);
    record.count = 7;
    assert_eq!(record.to_string(), "2\nc\nH\t0\t0\t0\nH\t0\t0\t1\n");
    record.atoms.pop();
    assert_eq!(record.to_string(), "1\nc\nH\t0\t0\t0\n");
}

#[test]
fn count_that_is_off_is_read_back_as_the_number_of_atoms() {
    let mut file = File::new();
    file.push(Record::new("a", &[atom("H", "0", "0", "0"), atom("H", "0", "0", "1")]));
    file.push(Record::new("b", &[]));
    file.records[0].count = 0;
    file.records[1].count = 3;
    let read = File::from_str(&file.to_string()).unwrap();
    assert_ne!(read, file);
    file.records[0].count = 2;
    file.records[1].count = 0;
    assert_eq!(read, file);
}

#[test]
fn written_count_of_many_atoms() {
    let atoms: Vec<Atom> = (0..1203).map(|_| atom("H", "0", "0", "0")).collect();
    let text = Record::new("many", &atoms).to_string();
    assert!(text.starts_with("1203\nmany\nH\t0\t0\t0\n"));
    assert_eq!(File::from_str(&text).unwrap().records[0].atoms.len(), 1203);
}

#[test]
fn round_trip() {
    let texts = [
        TWO_FRAMES,
        "",
        "0\n\n",
        "\n\n 3 \n comment with\ttabs \nC 1 2 3 extra\n  O\t-1.5e3 +.5 7. \nH inf NaN -0\n\n0\nlast",
        "1\r\nc\r\nH 0 0 0\r\n",
    ];
    for text in texts {
        let file = File::from_str(text).unwrap();
        let written = file.to_string();
        assert_eq!(File::from_str(&written).unwrap(), file);
        assert_eq!(File::from_str(&written).unwrap().to_string(), written);
    }
}

#[test]
fn record_new_counts_its_atoms() {
    let atoms = [atom("H", "0", "0", "0"), atom("H", "0", "0", "0.74")];
    let record = Record::new("hydrogen", &atoms);
    assert_eq!(record.count, 2);
    assert_eq!(record.comment, "hydrogen");
    assert_eq!(record.atoms, atoms.to_vec());
    let none = Record::new("", &[]);
    assert_eq!(none.count, 0);
    assert_eq!(none, Record::empty());
}

#[test]
fn file_push_adds_at_the_end() {
    let mut file = File::new();
    assert!(file.records.is_empty());
    file.push(Record::new("a", &[]));
    file.push(Record::new("b", &[atom("H", "0", "0", "0")]));
    assert_eq!(file.records.len(), 2);
    assert_eq!(file.records[0].comment, "a");
    assert_eq!(file.records[1].comment, "b");
    assert_eq!(file.clone(), file);
    assert_eq!(file.records[1].clone(), file.records[1]);
}

#[test]
fn parser_goes_through_its_states() {
    let mut parser = Parser::new();
    assert_eq!(parser.state(), ParseState::Count);
    assert_eq!(parser.feed(""), Ok(()));
    assert_eq!(parser.state(), ParseState::Count);
    assert_eq!(parser.feed("2"), Ok(()));
    assert_eq!(parser.state(), ParseState::Comment);
    assert_eq!(parser.feed(""), Ok(()));
    assert_eq!(parser.state(), ParseState::Atoms(2));
    assert_eq!(parser.feed("H 0 0 0"), Ok(()));
    assert_eq!(parser.state(), ParseState::Atoms(1));
    assert!(parser.file().records.is_empty());
    assert_eq!(parser.feed("H 0 0 1"), Ok(()));
    assert_eq!(parser.state(), ParseState::Count);
    assert_eq!(parser.file().records.len(), 1);
    assert_eq!(parser.feed("0"), Ok(()));
    assert_eq!(parser.state(), ParseState::Comment);
    assert_eq!(parser.feed("0"), Ok(()));
    assert_eq!(parser.state(), ParseState::Count);
    let file = parser.finish().unwrap();
    assert_eq!(file.records.len(), 2);
    assert_eq!(file.records[0].atoms[1], atom("H", "0", "0", "1"));
    assert_eq!(file.records[1], Record::new("0", &[]));
}

#[test]
fn parser_is_unchanged_by_a_line_it_refuses() {
    let mut parser = Parser::new();
    assert_eq!(parser.feed("x"), Err(ParseErrorKind::ParseIntError));
    assert_eq!(parser.state(), ParseState::Count);
    assert_eq!(parser.feed("2"), Ok(()));
    assert_eq!(parser.feed("c"), Ok(()));
    assert_eq!(parser.feed("H 0 0 0"), Ok(()));
    assert_eq!(parser.feed("H 0 0"), Err(ParseErrorKind::MissingValue));
    assert_eq!(parser.feed("H 0 0 x"), Err(ParseErrorKind::ParseFloatError));
    assert_eq!(parser.state(), ParseState::Atoms(1));
    assert_eq!(parser.feed("H 0 0 1"), Ok(()));
    let file = parser.finish().unwrap();
    assert_eq!(file.records[0].atoms.len(), 2);
}

#[test]
fn parser_refuses_to_finish_inside_a_record() {
    let mut parser = Parser::new();
    assert_eq!(parser.feed("1"), Ok(()));
    let chars: Vec<char> = "c".chars().collect();
    let mut other = Parser::new();
    assert_eq!(other.feed("1"), Ok(()));
    assert_eq!(other.feed_chars(&chars), Ok(()));
    assert_eq!(parser.finish(), Err(ParseErrorKind::UnexpectedEndOfInput));
    assert_eq!(other.finish(), Err(ParseErrorKind::UnexpectedEndOfInput));
    assert_eq!(Parser::new().finish(), Ok(File::new()));
}
