use std::str::FromStr;

use rust_xyz_chem::{Atom, ParseErrorKind, Position};

fn atom(label: &str, x: &str, y: &str, z: &str) -> Atom {
    Atom {
        label: String::from(label),
        position: Position { x: String::from(x), y: String::from(y), z: String::from(z) },
    }
}

#[test]
fn it_works() {
    let result: i32 = 2 + 2;
    assert_eq!(result, 4);
}

#[test]
fn test_atom_parser1() {
    let parsed = "C\t2.2453\t4.56\t5".parse::<Atom>().unwrap();
    assert_eq!(parsed.label, String::from("C"));
    assert_eq!(parsed.position.x.parse::<f64>().unwrap(), 2.2453);
    assert_eq!(parsed.position.y.parse::<f64>().unwrap(), 4.56);
    assert_eq!(parsed.position.z.parse::<f64>().unwrap(), 5.);
}

#[test]
#[should_panic]
fn test_atom_parser2() {
    "\t2.2453\t4.56\t5".parse::<Atom>().unwrap();
}

#[test]
#[should_panic]
fn test_atom_parser3() {
    "C\t2,2453\t4.56\t5".parse::<Atom>().unwrap();
}

#[test]
fn atom_keeps_each_coordinate_as_written() {
    assert_eq!(Atom::from_str("C\t2.2453\t4.56\t5"), Ok(atom("C", "2.2453", "4.56", "5")));
}

#[test]
fn atom_without_label_is_a_missing_value() {
    assert_eq!(Atom::from_str("\t2.2453\t4.56\t5"), Err(ParseErrorKind::MissingValue));
}

#[test]
fn atom_with_a_comma_is_a_float_error() {
    assert_eq!(Atom::from_str("C\t2,2453\t4.56\t5"), Err(ParseErrorKind::ParseFloatError));
}

#[test]
fn atom_line_that_is_empty_or_blank_is_a_missing_value() {
    assert_eq!(Atom::from_str(""), Err(ParseErrorKind::MissingValue));
    assert_eq!(Atom::from_str(" \t  "), Err(ParseErrorKind::MissingValue));
}

#[test]
fn atom_with_too_few_coordinates_is_a_missing_value() {
    assert_eq!(Atom::from_str("C"), Err(ParseErrorKind::MissingValue));
    assert_eq!(Atom::from_str("C 1.0"), Err(ParseErrorKind::MissingValue));
    assert_eq!(Atom::from_str("C 1.0 2.0"), Err(ParseErrorKind::MissingValue));
}

#[test]
fn atom_errors_come_in_the_order_of_the_tokens() {
    assert_eq!(Atom::from_str("C abc"), Err(ParseErrorKind::ParseFloatError));
    assert_eq!(Atom::from_str("C 1.0 abc"), Err(ParseErrorKind::ParseFloatError));
    assert_eq!(Atom::from_str("C 1.0 2.0 abc"), Err(ParseErrorKind::ParseFloatError));
    assert_eq!(Atom::from_str("C abc 2.0 3.0"), Err(ParseErrorKind::ParseFloatError));
    assert_eq!(Atom::from_str("C 1.0 2.0 3.0 abc"), Ok(atom("C", "1.0", "2.0", "3.0")));
}

#[test]
fn atom_ignores_further_tokens() {
    assert_eq!(
        Atom::from_str("O 0.1 0.2 0.3 charge=-2 # water"),
        Ok(atom("O", "0.1", "0.2", "0.3"))
    );
}

#[test]
fn atom_accepts_any_run_of_whitespace() {
    assert_eq!(
        Atom::from_str("  Ne \t\t 1e3   -2.5E-1\u{a0}+.5 \r"),
        Ok(atom("Ne", "1e3", "-2.5E-1", "+.5"))
    );
    assert_eq!(Atom::from_str("H\u{3000}0\u{2003}0\u{85}0"), Ok(atom("H", "0", "0", "0")));
}

#[test]
fn atom_label_is_any_word() {
    assert_eq!(Atom::from_str("12 1 2 3"), Ok(atom("12", "1", "2", "3")));
    assert_eq!(Atom::from_str("Å→é 1 2 3"), Ok(atom("Å→é", "1", "2", "3")));
}

#[test]
fn atom_accepts_infinities_and_nan() {
    let parsed = Atom::from_str("X inf -Infinity NaN").unwrap();
    assert_eq!(parsed, atom("X", "inf", "-Infinity", "NaN"));
    assert_eq!(parsed.position.x.parse::<f64>().unwrap(), f64::INFINITY);
    assert_eq!(parsed.position.y.parse::<f64>().unwrap(), f64::NEG_INFINITY);
    assert!(parsed.position.z.parse::<f64>().unwrap().is_nan());
}

#[test]
fn atom_is_written_with_tabs() {
    assert_eq!(atom("C", "2.2453", "4.56", "5").to_string(), "C\t2.2453\t4.56\t5");
    assert_eq!(atom("C", "2.2453", "4.56", "5").position.to_string(), "2.2453\t4.56\t5");
}

#[test]
fn atom_is_appended_to_what_is_there() {
    let mut out = String::from("> ");
    atom("H", "0", "0", "0.74").write_to(&mut out);
    assert_eq!(out, "> H\t0\t0\t0.74");
    atom("H", "0", "0", "0.74").position.write_to(&mut out);
    assert_eq!(out, "> H\t0\t0\t0.740\t0\t0.74");
}

#[test]
fn atom_is_read_back_from_its_line() {
    let lines = ["C 1 2 3", "  Xx\t-1.5e-3  +7.   .25  rest", "H inf nan -0"];
    for line in lines {
        let first = Atom::from_str(line).unwrap();
        let second = Atom::from_str(&first.to_string()).unwrap();
        assert_eq!(first, second);
    }
}

#[test]
fn atom_from_chars_reads_what_from_str_reads() {
    let lines = ["C\t2.2453\t4.56\t5", "", "C 1", "C x 2 3", " a 1 2 3 4 "];
    for line in lines {
        let chars: Vec<char> = line.chars().collect();
        assert_eq!(Atom::from_chars(&chars), Atom::from_str(line));
    }
}

#[test]
fn atom_clone_is_equal() {
    let a = atom("C", "2.2453", "4.56", "5");
    assert_eq!(a.clone(), a);
    assert_eq!(a.position.clone(), a.position);
}
