//! Tests for the textual front-end: one line of source text maps to at
//! most one element, and an element renders back to its canonical line.

use tinyscript::{Element, Error};

#[test]
fn element_nop() {
    assert_eq!(Ok(Element::Nop), Element::try_from("nop"));
    assert_eq!(Element::Nop.to_string(), "nop");
}

#[test]
fn element_end() {
    assert_eq!(Ok(Element::End), Element::try_from("end"));
    assert_eq!(Element::End.to_string(), "end");
}

#[test]
fn element_function() {
    assert_eq!(Ok(Element::Function("test123")), Element::try_from("fn test123"));
    assert_eq!(Err::<Element, Error>(Error::InvalidName), Element::try_from("fn test123!"));
    assert_eq!(Err::<Element, Error>(Error::InvalidName), Element::try_from("fn test 123"));
    assert_eq!(Err::<Element, Error>(Error::InvalidName), Element::try_from("fn test-123"));
    assert_eq!(Err::<Element, Error>(Error::InvalidName), Element::try_from("fn 123test"));
    assert_eq!(Element::Function("test123").to_string(), "fn test123");
}

#[test]
fn element_return() {
    assert_eq!(Ok(Element::Return), Element::try_from("return"));
    assert_eq!(Element::Return.to_string(), "return");
}

#[test]
fn element_integer() {
    assert_eq!(Ok(Element::Integer(1234)), Element::try_from("1234"));
    assert_eq!(Element::Integer(1234).to_string(), "1234");
}

#[test]
fn keywords_match_case_insensitively() {
    assert_eq!(Ok(Element::Return), Element::try_from("RETURN"));
    assert_eq!(Ok(Element::End), Element::try_from("End"));
    assert_eq!(Ok(Element::Nop), Element::try_from("nOp"));
}

#[test]
fn signed_integer_lines() {
    assert_eq!(Ok(Element::Integer(7)), Element::try_from("+7"));
    assert_eq!(Ok(Element::Integer(-45)), Element::try_from("-45"));
    assert_eq!(Ok(Element::Integer(i32::MIN)), Element::try_from("-2147483648"));
    assert_eq!(Ok(Element::Integer(i32::MAX)), Element::try_from("2147483647"));
    assert_eq!(Err::<Element, Error>(Error::SyntaxError), Element::try_from("2147483648"));
    assert_eq!(Err::<Element, Error>(Error::SyntaxError), Element::try_from("-2147483649"));
}

#[test]
fn unparseable_lines_are_syntax_errors() {
    assert_eq!(Err::<Element, Error>(Error::SyntaxError), Element::try_from(""));
    assert_eq!(Err::<Element, Error>(Error::SyntaxError), Element::try_from("hello world"));
    assert_eq!(Err::<Element, Error>(Error::SyntaxError), Element::try_from("+"));
    assert_eq!(Err::<Element, Error>(Error::SyntaxError), Element::try_from("12a"));
}

#[test]
fn empty_function_name_is_invalid() {
    assert_eq!(Err::<Element, Error>(Error::InvalidName), Element::try_from("fn "));
}

#[test]
fn underscore_names_are_valid() {
    assert_eq!(Ok(Element::Function("_private")), Element::try_from("fn _private"));
    assert_eq!(Ok(Element::Function("a_b_1")), Element::try_from("fn a_b_1"));
}

#[test]
fn multibyte_function_name_round_trips_through_text() {
    assert_eq!(Element::Function("caf\u{e9}").to_string(), "fn caf\u{e9}");
    assert_eq!(Ok(Element::Function("caf\u{e9}")), Element::try_from("fn caf\u{e9}"));
}

#[test]
fn negative_integer_rendering() {
    assert_eq!(Element::Integer(-45).to_string(), "-45");
    assert_eq!(Element::Integer(0).to_string(), "0");
    assert_eq!(Element::Integer(i32::MIN).to_string(), "-2147483648");
    assert_eq!(Element::Integer(i32::MAX).to_string(), "2147483647");
}
