//! Tests for the statement iterator: element decoding, sign extension
//! across the four integer widths, and clean termination on malformed or
//! truncated data.

use tinyscript::{Element, Program};
use tinyscript::{END_ID, FUNCTION_ID, INTEGER1_ID, INTEGER2_ID, INTEGER3_ID, INTEGER4_ID, NOP_ID};

#[test]
fn num_statements() {
    let data = [
        FUNCTION_ID,
        0x03,
        b'f',
        b'o',
        b'o',
        NOP_ID,
        INTEGER2_ID,
        0x01,
        0x02,
        END_ID,
    ];
    let p = Program::new(&data);
    assert_eq!(p.iter_statements(0).count(), 4);
}

#[test]
fn get_integer1() {
    let data = [INTEGER1_ID, 0x03];
    let p = Program::new(&data);
    assert_eq!(p.iter_statements(0).next(), Some((0, Element::Integer(0x03))));
}

#[test]
fn get_integer2() {
    let data = [INTEGER2_ID, 0x03, 0x04];
    let p = Program::new(&data);
    assert_eq!(p.iter_statements(0).next(), Some((0, Element::Integer(0x0304))));
}

#[test]
fn get_integer3() {
    let data = [INTEGER3_ID, 0x03, 0x04, 0x05];
    let p = Program::new(&data);
    assert_eq!(p.iter_statements(0).next(), Some((0, Element::Integer(0x030405))));
}

#[test]
fn get_integer4() {
    let data = [INTEGER4_ID, 0x03, 0x04, 0x05, 0x06];
    let p = Program::new(&data);
    assert_eq!(p.iter_statements(0).next(), Some((0, Element::Integer(0x03040506))));
}

#[test]
fn get_negative_ntegeri8() {
    let data = [INTEGER1_ID, 0xFF];
    let p = Program::new(&data);
    assert_eq!(p.iter_statements(0).next(), Some((0, Element::Integer(-1))));
}

#[test]
fn get_negative_integer16() {
    let data = [INTEGER2_ID, 0xFF, 0xFE];
    let p = Program::new(&data);
    assert_eq!(p.iter_statements(0).next(), Some((0, Element::Integer(-2))));
}

#[test]
fn get_negative_integer24() {
    let data = [INTEGER3_ID, 0xFF, 0xFF, 0xFD];
    let p = Program::new(&data);
    assert_eq!(p.iter_statements(0).next(), Some((0, Element::Integer(-3))));
}

#[test]
fn get_negative_integer32() {
    let data = [INTEGER4_ID, 0xFF, 0xFF, 0xFF, 0xFC];
    let p = Program::new(&data);
    assert_eq!(p.iter_statements(0).next(), Some((0, Element::Integer(-4))));
}

#[test]
fn unknown_tag_stops_iteration() {
    let data = [NOP_ID, 0x7F, NOP_ID];
    let p = Program::new(&data);
    let mut iter = p.iter_statements(0);
    assert_eq!(iter.next(), Some((0, Element::Nop)));
    assert_eq!(iter.next(), None);
    // The cursor does not move past malformed data.
    assert_eq!(iter.next(), None);
}

#[test]
fn truncated_integer_stops_iteration() {
    let data = [INTEGER4_ID, 0x01, 0x02, 0x03];
    let p = Program::new(&data);
    assert_eq!(p.iter_statements(0).next(), None);
    let short = [INTEGER2_ID, 0x01];
    let q = Program::new(&short);
    assert_eq!(q.iter_statements(0).next(), None);
}

#[test]
fn truncated_name_stops_iteration() {
    let data = [FUNCTION_ID, 0x05, b'a', b'b'];
    let p = Program::new(&data);
    assert_eq!(p.iter_statements(0).next(), None);
}

#[test]
fn invalid_utf8_name_stops_iteration() {
    let data = [FUNCTION_ID, 0x02, 0xFF, 0xFE, END_ID];
    let p = Program::new(&data);
    assert_eq!(p.iter_statements(0).next(), None);
}

#[test]
fn empty_buffer_yields_nothing() {
    let data: [u8; 0] = [];
    let p = Program::new(&data);
    assert_eq!(p.iter_statements(0).next(), None);
    assert_eq!(p.iter_statements(0).count(), 0);
}

#[test]
fn iteration_can_start_at_any_offset() {
    let data = [NOP_ID, INTEGER1_ID, 0x2A, END_ID];
    let p = Program::new(&data);
    let mut iter = p.iter_statements(1);
    assert_eq!(iter.next(), Some((1, Element::Integer(42))));
    assert_eq!(iter.next(), Some((3, Element::End)));
    assert_eq!(iter.next(), None);
}
