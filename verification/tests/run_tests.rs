//! Tests for the execution engine: function lookup, body evaluation,
//! fallthrough semantics, and structural violations.

use tinyscript::{Element, Error, Program, ProgramBuilder, Value};
use tinyscript::{END_ID, FUNCTION_ID, INTEGER1_ID, INTEGER2_ID, NOP_ID, RETURN_ID};

#[test]
fn create_program() {
    let data = [
        FUNCTION_ID,
        0x05, // 5 byte string
        b'f', // string bytes
        b'o',
        b'o',
        0xc2, // including a UTF-8 encoded £
        0xa3,
        RETURN_ID,
        INTEGER1_ID,
        0x01,
        END_ID,
    ];
    let p = Program::new(&data);
    assert_eq!(p.run("bar"), Err(Error::FunctionNotFound));
    assert_eq!(p.run("foo£"), Ok(Value::Integer(0x01)));
}

#[test]
fn return_integer_literal() {
    let data = [
        FUNCTION_ID,
        0x03,
        b'f',
        b'o',
        b'o',
        RETURN_ID,
        INTEGER1_ID,
        0x0F,
        END_ID,
    ];
    let p = Program::new(&data);
    assert_eq!(p.run("foo"), Ok(Value::Integer(15)));
}

#[test]
fn built_program_runs() {
    let mut builder = ProgramBuilder::new(vec![0u8; 64]);
    builder.insert(&Element::Function("foo")).unwrap();
    builder.insert(&Element::Return).unwrap();
    builder.insert(&Element::Integer(15)).unwrap();
    builder.insert(&Element::End).unwrap();
    let used = builder.used();
    let space = builder.into_inner();
    let p = Program::new(&space[0..used]);
    assert_eq!(p.run("foo"), Ok(Value::Integer(15)));
    assert_eq!(p.run("bar"), Err(Error::FunctionNotFound));
}

#[test]
fn fallthrough_yields_nil() {
    let data = [FUNCTION_ID, 0x03, b'f', b'o', b'o', NOP_ID, END_ID];
    let p = Program::new(&data);
    assert_eq!(p.run("foo"), Ok(Value::Nil));
}

#[test]
fn exhausted_body_yields_nil() {
    // No explicit End either: the stream simply stops.
    let data = [FUNCTION_ID, 0x03, b'f', b'o', b'o', NOP_ID];
    let p = Program::new(&data);
    assert_eq!(p.run("foo"), Ok(Value::Nil));
}

#[test]
fn integer_statement_is_a_sequence_error() {
    let data = [
        FUNCTION_ID,
        0x03,
        b'f',
        b'o',
        b'o',
        NOP_ID,
        INTEGER2_ID,
        0x01,
        0x02,
        END_ID,
    ];
    let p = Program::new(&data);
    // The integer literal stands at statement position, at byte offset 6.
    assert_eq!(p.run("foo"), Err(Error::SequenceError(6)));
}

#[test]
fn nested_declaration_is_a_sequence_error() {
    let data = [
        FUNCTION_ID,
        0x03,
        b'f',
        b'o',
        b'o',
        FUNCTION_ID,
        0x03,
        b'b',
        b'a',
        b'r',
        END_ID,
    ];
    let p = Program::new(&data);
    assert_eq!(p.run("foo"), Err(Error::SequenceError(5)));
}

#[test]
fn return_without_expression_is_a_sequence_error() {
    let data = [FUNCTION_ID, 0x03, b'f', b'o', b'o', RETURN_ID];
    let p = Program::new(&data);
    assert_eq!(p.run("foo"), Err(Error::SequenceError(6)));
}

#[test]
fn lookup_is_case_sensitive_and_exact() {
    let data = [FUNCTION_ID, 0x03, b'f', b'o', b'o', END_ID];
    let p = Program::new(&data);
    assert_eq!(p.run("Foo"), Err(Error::FunctionNotFound));
    assert_eq!(p.run("fo"), Err(Error::FunctionNotFound));
    assert_eq!(p.run("foo"), Ok(Value::Nil));
}

#[test]
fn lookup_on_empty_buffer_fails() {
    let data: [u8; 0] = [];
    let p = Program::new(&data);
    assert_eq!(p.run("foo"), Err(Error::FunctionNotFound));
}

#[test]
fn leading_elements_are_skipped_during_lookup() {
    // Non-declaration elements before the declaration are not an error.
    let data = [
        NOP_ID,
        INTEGER1_ID,
        0x07,
        FUNCTION_ID,
        0x03,
        b'f',
        b'o',
        b'o',
        RETURN_ID,
        INTEGER1_ID,
        0x2A,
        END_ID,
    ];
    let p = Program::new(&data);
    assert_eq!(p.run("foo"), Ok(Value::Integer(42)));
}

#[test]
fn run_from_index_evaluates_a_body() {
    let data = [
        FUNCTION_ID,
        0x03,
        b'f',
        b'o',
        b'o',
        RETURN_ID,
        INTEGER2_ID,
        0x01,
        0x00,
        END_ID,
    ];
    let p = Program::new(&data);
    // The body of `foo` starts right after its declaration, at offset 5.
    assert_eq!(p.run_from_index(5), Ok(Value::Integer(256)));
    assert_eq!(p.run_from_index(9), Ok(Value::Nil));
}

#[test]
fn second_declaration_of_same_name_is_shadowed() {
    let mut builder = ProgramBuilder::new(vec![0u8; 64]);
    builder.insert(&Element::Function("foo")).unwrap();
    builder.insert(&Element::Return).unwrap();
    builder.insert(&Element::Integer(1)).unwrap();
    builder.insert(&Element::End).unwrap();
    builder.insert(&Element::Function("foo")).unwrap();
    builder.insert(&Element::Return).unwrap();
    builder.insert(&Element::Integer(2)).unwrap();
    builder.insert(&Element::End).unwrap();
    let used = builder.used();
    let space = builder.into_inner();
    let p = Program::new(&space[0..used]);
    // The first declaration wins.
    assert_eq!(p.run("foo"), Ok(Value::Integer(1)));
}
