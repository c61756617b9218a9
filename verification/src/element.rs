//! The data model: instructions, runtime values, and failure outcomes.

use vstd::prelude::*;

verus! {

/// Errors raised while building or running a program.
#[derive(Debug, Clone, PartialEq, Eq)]
pub enum Error {
    /// An unspecified or incomplete evaluation path.
    Unknown,
    /// No top-level `Function` element carries the requested name.
    FunctionNotFound,
    /// A statement appeared where it is not permitted; carries the byte
    /// offset of the offending element.
    SequenceError(usize),
    /// The builder's buffer cannot hold the encoded instruction.
    InsufficientSpace,
    /// A function name is longer than 255 bytes.
    NameTooLong,
    /// A textual function declaration carries a malformed name.
    InvalidName,
    /// A line of text maps to no element at all.
    SyntaxError,
}

/// The elements that comprise a program: one decoded instruction each.
#[derive(Debug, Clone, PartialEq)]
pub enum Element<'a> {
    /// Does nothing.
    Nop,
    /// Marks the end of a block.
    End,
    /// Declares a function; the name is a borrowed view into the buffer.
    Function(&'a str),
    /// Followed in the stream by an expression to evaluate and return.
    Return,
    /// A literal 32-bit signed integer.
    Integer(i32),
}

/// An instruction as specifications see it: the function name appears as
/// its sequence of characters.
pub ghost enum ElemModel {
    Nop,
    End,
    Function(Seq<char>),
    Return,
    Integer(i32),
}

impl<'a> View for Element<'a> {
    type V = ElemModel;

    open spec fn view(&self) -> ElemModel {
        match self {
            Element::Nop => ElemModel::Nop,
            Element::End => ElemModel::End,
            Element::Function(name) => ElemModel::Function(name@),
            Element::Return => ElemModel::Return,
            Element::Integer(i) => ElemModel::Integer(*i),
        }
    }
}

/// Values calculated from expressions. Only the integer and nil forms are
/// currently producible by the execution engine; the rest are part of the
/// target value space for future expression support.
#[derive(Debug, PartialEq)]
pub enum Value<'a> {
    /// A string borrowed from the program buffer.
    StringLiteral(&'a str),
    /// An owned string.
    String(String),
    /// An ordered sequence of values.
    Vector(Vec<Value<'a>>),
    /// A 32-bit signed integer.
    Integer(i32),
    /// The nil / unit marker.
    Nil,
}

/// A runtime value as specifications see it.
pub ghost enum ValueModel {
    StringLiteral(Seq<char>),
    String(Seq<char>),
    Vector(Seq<ValueModel>),
    Integer(i32),
    Nil,
}

impl<'a> View for Value<'a> {
    type V = ValueModel;

    open spec fn view(&self) -> ValueModel
        decreases self,
    {
        match self {
            Value::StringLiteral(s) => ValueModel::StringLiteral(s@),
            Value::String(s) => ValueModel::String(s@),
            Value::Vector(v) => ValueModel::Vector(
                Seq::new(v@.len(), |i: int| if 0 <= i < v@.len() { v@[i]@ } else { ValueModel::Nil }),
            ),
            Value::Integer(i) => ValueModel::Integer(*i),
            Value::Nil => ValueModel::Nil,
        }
    }
}

} // verus!
