use rust_xyz_chem::{ParseError, ParseErrorKind};

#[test]
fn error_new_keeps_kind_and_line() {
    let error = ParseError::new(ParseErrorKind::MissingValue, 12);
    assert_eq!(error.kind, ParseErrorKind::MissingValue);
    assert_eq!(error.line, 12);
    assert_eq!(error, ParseError { kind: ParseErrorKind::MissingValue, line: 12 });
    assert_ne!(error, ParseError::new(ParseErrorKind::MissingValue, 13));
    assert_ne!(error, ParseError::new(ParseErrorKind::ParseIntError, 12));
}

#[test]
fn error_kinds_have_messages() {
    assert_eq!(ParseErrorKind::MissingValue.message(), "Missing label and/or value");
    assert_eq!(ParseErrorKind::ParseIntError.message(), "Could not parse data as atom count");
    assert_eq!(ParseErrorKind::ParseFloatError.message(), "Could not parse data as atom position");
    assert_eq!(ParseErrorKind::UnexpectedEndOfInput.message(), "Unexpected end of input");
}

#[test]
fn error_names_its_line() {
    assert_eq!(
        ParseError::new(ParseErrorKind::MissingValue, 0).to_string(),
        "Missing label and/or value at line 0"
    );
    assert_eq!(
        ParseError::new(ParseErrorKind::ParseIntError, 7).to_string(),
        "Could not parse data as atom count at line 7"
    );
    assert_eq!(
        ParseError::new(ParseErrorKind::ParseFloatError, 1203).to_string(),
        "Could not parse data as atom position at line 1203"
    );
    assert_eq!(
        ParseError::new(ParseErrorKind::UnexpectedEndOfInput, usize::MAX).to_string(),
        format!("Unexpected end of input at line {}", usize::MAX)
    );
}
