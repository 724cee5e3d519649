use nanolog::fmt::{find_format_specifiers, FormatError, NanologType};
use nanolog::Nanolog;

#[test]
fn parse_empty() {
    Nanolog::parse("??".to_string(), 0).unwrap();
}

#[test]
fn parse_single() {
    Nanolog::parse("??%d".to_string(), 1).unwrap();
}

#[test]
fn parse_fail_no_args() {
    assert!(Nanolog::parse("??%d".to_string(), 0).is_err());
}

#[test]
fn parse_fail_too_many_args() {
    assert!(Nanolog::parse("??%d".to_string(), 2).is_err());
}

#[test]
fn parse_success_2_args() {
    assert!(Nanolog::parse("%d %d".to_string(), 2).is_ok());
}

#[test]
fn specifiers_in_order() {
    let specs = find_format_specifiers("a=%d b=%f c=%d").unwrap();
    assert_eq!(specs, vec![NanologType::Int, NanologType::Float, NanologType::Int]);
}

#[test]
fn no_specifiers() {
    let specs = find_format_specifiers("[T1] Hello, world!").unwrap();
    assert!(specs.is_empty());
}

#[test]
fn unknown_specifier_is_an_error() {
    assert_eq!(find_format_specifiers("%s"), Err(FormatError::UnknownSpecifier));
    assert_eq!(find_format_specifiers("ok %d bad %x"), Err(FormatError::UnknownSpecifier));
}

#[test]
fn trailing_percent_is_an_error() {
    assert_eq!(find_format_specifiers("50%"), Err(FormatError::UnknownSpecifier));
}

#[test]
fn arity_error_reports_both_counts() {
    match Nanolog::parse("%d %f".to_string(), 3) {
        Err(FormatError::ArityMismatch { expected, supplied }) => {
            assert_eq!(expected, 2);
            assert_eq!(supplied, 3);
        }
        other => panic!("expected an arity mismatch, got {:?}", other.is_ok()),
    }
}

#[test]
fn type_suffix_names_the_shape() {
    let nl = Nanolog::parse("a=%d b=%f".to_string(), 2).unwrap();
    assert_eq!(nl.get_log_type_suffix(), "DF");
    assert_eq!(nl.fmt_literal, "a=%d b=%f");

    let nl = Nanolog::parse("plain".to_string(), 0).unwrap();
    assert_eq!(nl.get_log_type_suffix(), "");
}

#[test]
fn type_strings() {
    assert_eq!(NanologType::Int.to_type_string(), "D");
    assert_eq!(NanologType::Float.to_type_string(), "F");
}
