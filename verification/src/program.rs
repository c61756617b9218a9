//! The program view, the zero-copy statement iterator, and the execution
//! engine that locates a named function and evaluates its body.

use crate::codec::{
    decode_at, END_ID, FUNCTION_ID, INTEGER1_ID, INTEGER2_ID, INTEGER3_ID, INTEGER4_ID, NOP_ID,
    RETURN_ID,
};
use crate::element::{ElemModel, Element, Error, Value, ValueModel};
use vstd::prelude::*;
use vstd::slice::slice_subrange;
use vstd::utf8::{decode_utf8, encode_utf8, valid_utf8};

verus! {

/// A program: an immutable view over a block of memory containing
/// instructions. The region is never mutated once wrapped; all reads are
/// non-destructive, and decoded names borrow from the region.
pub struct Program<'a> {
    data: &'a [u8],
}

/// A forward-only cursor over the elements of a program. Each step yields
/// the byte offset where an instruction began together with the decoded
/// element, and the cursor stops cleanly at end-of-buffer or malformed
/// data.
pub struct ElementIter<'a> {
    program: &'a Program<'a>,
    index: usize,
}

impl<'a> View for Program<'a> {
    type V = Seq<u8>;

    closed spec fn view(&self) -> Seq<u8> {
        self.data@
    }
}

/// Relies on `core::str::from_utf8`: it succeeds exactly on valid UTF-8
/// input, returning the borrowed string whose characters decode those
/// bytes.
#[verifier::external_body]
fn str_from_utf8(bytes: &[u8]) -> (r: Option<&str>)
    ensures
        r is Some <==> valid_utf8(bytes@),
        r matches Some(s) ==> s@ == decode_utf8(bytes@),
{
    core::str::from_utf8(bytes).ok()
}

/// Byte-for-byte equality of two slices.
fn bytes_eq(a: &[u8], b: &[u8]) -> (r: bool)
    ensures
        r == (a@ == b@),
{
    if a.len() != b.len() {
        return false;
    }
    let n: usize = a.len();
    let mut i: usize = 0;
    while i < n
        invariant
            i <= n,
            n == a@.len(),
            a@.len() == b@.len(),
            forall|k: int| 0 <= k < i ==> a@[k] == b@[k],
        decreases n - i,
    {
        if a[i] != b[i] {
            return false;
        }
        i = i + 1;
    }
    proof {
        assert(a@ =~= b@);
    }
    true
}

/// Exact, case-sensitive string equality, decided on the UTF-8 bytes.
fn str_eq(a: &str, b: &str) -> (r: bool)
    ensures
        r == (a@ == b@),
{
    let r = bytes_eq(a.as_bytes(), b.as_bytes());
    proof {
        vstd::utf8::encode_utf8_decode_utf8(a@);
        vstd::utf8::encode_utf8_decode_utf8(b@);
    }
    r
}

/// The byte offset where the body of the first declaration of `name`
/// begins, scanning the flat element stream from offset `i`; elements
/// other than declarations are skipped.
pub open spec fn find_function(data: Seq<u8>, i: int, name: Seq<char>) -> Option<int>
    decreases data.len() - i,
{
    match decode_at(data, i) {
        None => None,
        Some(de) => {
            proof {
                crate::codec::lemma_decode_advances(data, i);
            }
            if de.0 matches ElemModel::Function(n) && n == name {
                Some(de.1)
            } else {
                find_function(data, de.1, name)
            }
        },
    }
}

/// The outcome of evaluating the expression at offset `i`: currently only
/// an integer literal is a valid expression, yielding its value and the
/// offset immediately following it; anything else is a sequence error at
/// `i`.
pub open spec fn eval_expr_at(data: Seq<u8>, i: int) -> Result<(int, ValueModel), Error> {
    match decode_at(data, i) {
        Some(de) => match de.0 {
            ElemModel::Integer(v) => Ok((de.1, ValueModel::Integer(v))),
            _ => Err(Error::SequenceError(i as usize)),
        },
        None => Err(Error::SequenceError(i as usize)),
    }
}

/// The outcome of running the statement sequence that starts at offset
/// `i`: `Nop` is skipped, `End` or stream exhaustion yields nil, `Return`
/// yields the following expression's value, and any other element is a
/// sequence error at its offset.
pub open spec fn run_stmts(data: Seq<u8>, i: int) -> Result<ValueModel, Error>
    decreases data.len() - i,
{
    match decode_at(data, i) {
        None => Ok(ValueModel::Nil),
        Some(de) => {
            proof {
                crate::codec::lemma_decode_advances(data, i);
            }
            match de.0 {
                ElemModel::Nop => run_stmts(data, de.1),
                ElemModel::End => Ok(ValueModel::Nil),
                ElemModel::Return => match eval_expr_at(data, i + 1) {
                    Ok(iv) => Ok(iv.1),
                    Err(e) => Err(e),
                },
                _ => Err(Error::SequenceError(i as usize)),
            }
        },
    }
}

/// The outcome of running the named function: the body of its first
/// top-level declaration, or `FunctionNotFound` when no declaration
/// carries the name.
pub open spec fn spec_run(data: Seq<u8>, name: Seq<char>) -> Result<ValueModel, Error> {
    match find_function(data, 0, name) {
        Some(body) => run_stmts(data, body),
        None => Err(Error::FunctionNotFound),
    }
}

/// The number of elements the stream yields from offset `i` before it
/// stops.
pub open spec fn stream_count(data: Seq<u8>, i: int) -> nat
    decreases data.len() - i,
{
    match decode_at(data, i) {
        None => 0,
        Some(de) => {
            proof {
                crate::codec::lemma_decode_advances(data, i);
            }
            1 + stream_count(data, de.1)
        },
    }
}

impl<'a> Program<'a> {
    /// Wrap a block of memory holding an encoded program.
    pub fn new(program_data: &'a [u8]) -> (p: Program<'a>)
        ensures
            p@ == program_data@,
    {
        Program { data: program_data }
    }

    /// A cursor over the program's elements, starting at the given byte
    /// offset.
    pub fn iter_statements(&'a self, index: usize) -> (it: ElementIter<'a>)
        ensures
            it.data() == self@,
            it.pos() == index as int,
    {
        ElementIter { program: self, index }
    }

    /// Run the function with the given name.
    ///
    /// Scans the element stream from offset 0 for a declaration whose name
    /// matches byte-for-byte and case-sensitively, then evaluates its body;
    /// other top-level elements are silently skipped. Fails with
    /// `FunctionNotFound` when the stream holds no matching declaration.
    pub fn run(&'a self, function_name: &str) -> (r: Result<Value<'a>, Error>)
        ensures
            match spec_run(self@, function_name@) {
                Ok(vm) => r matches Ok(v) && v@ == vm,
                Err(e) => r matches Err(e2) && e2 == e,
            },
    {
        let mut iter = self.iter_statements(0);
        loop
            invariant
                iter.data() == self@,
                find_function(self@, 0, function_name@) == find_function(
                    self@,
                    iter.pos(),
                    function_name@,
                ),
            decreases self@.len() - iter.pos(),
        {
            let ghost pos0: int = iter.pos();
            proof {
                crate::codec::lemma_decode_advances(self@, pos0);
            }
            match iter.next() {
                Some(ie) => {
                    let index: usize = ie.0;
                    match ie.1 {
                        Element::Function(name) => {
                            if str_eq(name, function_name) {
                                proof {
                                    let nb = self@.subrange(
                                        pos0 + 2,
                                        pos0 + 2 + self@[pos0 + 1],
                                    );
                                    vstd::utf8::decode_utf8_encode_utf8(nb);
                                }
                                let body: usize = index + 2 + name.len();
                                return self.run_from_index(body);
                            }
                        },
                        _ => {
                            // Skip this statement.
                        },
                    }
                },
                None => {
                    return Err(Error::FunctionNotFound);
                },
            }
        }
    }

    /// Evaluate the expression at the given offset. Currently only integer
    /// literals are supported; the offset immediately following the
    /// literal is returned alongside its value.
    fn evaluate_expression(&'a self, index: usize) -> (r: Result<(usize, Value<'a>), Error>)
        ensures
            match eval_expr_at(self@, index as int) {
                Ok(iv) => r matches Ok(x) && x.0 as int == iv.0 && x.1@ == iv.1,
                Err(e) => r matches Err(e2) && e2 == e,
            },
    {
        let mut iter = self.iter_statements(index);
        match iter.next() {
            Some((_, Element::Integer(i))) => Ok((iter.index, Value::Integer(i))),
            _ => Err(Error::SequenceError(index)),
        }
    }

    /// Run the sequence of statements that starts at the given offset.
    ///
    /// `Nop` is skipped; `End`, or running off the end of the stream,
    /// yields `Value::Nil`; `Return` evaluates the following expression and
    /// yields its value at once; any other element at statement position
    /// fails with `SequenceError` carrying that element's offset.
    pub fn run_from_index(&'a self, index: usize) -> (r: Result<Value<'a>, Error>)
        ensures
            match run_stmts(self@, index as int) {
                Ok(vm) => r matches Ok(v) && v@ == vm,
                Err(e) => r matches Err(e2) && e2 == e,
            },
    {
        let mut iter = self.iter_statements(index);
        loop
            invariant
                iter.data() == self@,
                run_stmts(self@, index as int) == run_stmts(self@, iter.pos()),
            decreases self@.len() - iter.pos(),
        {
            let ghost pos0: int = iter.pos();
            proof {
                crate::codec::lemma_decode_advances(self@, pos0);
            }
            match iter.next() {
                Some(ie) => {
                    let sub_index: usize = ie.0;
                    match ie.1 {
                        Element::Nop => {
                            // Skip this one.
                        },
                        Element::Return => {
                            match self.evaluate_expression(sub_index + 1) {
                                Ok(iv) => {
                                    return Ok(iv.1);
                                },
                                Err(e) => {
                                    return Err(e);
                                },
                            }
                        },
                        Element::End => {
                            return Ok(Value::Nil);
                        },
                        _ => {
                            return Err(Error::SequenceError(sub_index));
                        },
                    }
                },
                None => {
                    return Ok(Value::Nil);
                },
            }
        }
    }

    /// Pull an 8-bit length at `index`, then interpret that many following
    /// bytes as UTF-8. Returns `None` if the bytes run out or they are not
    /// valid UTF-8.
    fn read_string(&self, index: usize) -> (r: Option<&'a str>)
        ensures
            match r {
                Some(name) => {
                    &&& index < self@.len()
                    &&& index + 1 + self@[index as int] <= self@.len()
                    &&& valid_utf8(self@.subrange(index + 1, index + 1 + self@[index as int]))
                    &&& name@ == decode_utf8(
                        self@.subrange(index + 1, index + 1 + self@[index as int]),
                    )
                    &&& encode_utf8(name@) == self@.subrange(
                        index + 1,
                        index + 1 + self@[index as int],
                    )
                },
                None => index >= self@.len() || index + 1 + self@[index as int] > self@.len()
                    || !valid_utf8(self@.subrange(index + 1, index + 1 + self@[index as int])),
            },
    {
        let data = self.data;
        if index >= data.len() {
            return None;
        }
        let len: usize = data[index] as usize;
        if data.len() - index - 1 < len {
            return None;
        }
        let name_bytes = slice_subrange(data, index + 1, index + 1 + len);
        let r = str_from_utf8(name_bytes);
        proof {
            if r is Some {
                vstd::utf8::decode_utf8_encode_utf8(name_bytes@);
            }
        }
        r
    }
}

impl<'a> ElementIter<'a> {
    /// The bytes the cursor walks.
    pub closed spec fn data(self) -> Seq<u8> {
        self.program@
    }

    /// The byte offset the cursor stands at.
    pub closed spec fn pos(self) -> int {
        self.index as int
    }

    /// Decode the element at the cursor and move past it. Returns the
    /// offset where the instruction began together with the element, or
    /// `None` — leaving the cursor in place — when no further well-formed
    /// instruction is there.
    pub fn next(&mut self) -> (r: Option<(usize, Element<'a>)>)
        ensures
            final(self).data() == old(self).data(),
            match decode_at(old(self).data(), old(self).pos()) {
                Some(de) => {
                    &&& r matches Some(ie)
                    &&& ie.0 as int == old(self).pos()
                    &&& ie.1@ == de.0
                    &&& final(self).pos() == de.1
                },
                None => r is None && final(self).pos() == old(self).pos(),
            },
    {
        let data = self.program.data;
        let idx: usize = self.index;
        if idx >= data.len() {
            return None;
        }
        let tag: u8 = data[idx];
        if tag == NOP_ID {
            self.index = idx + 1;
            Some((idx, Element::Nop))
        } else if tag == END_ID {
            self.index = idx + 1;
            Some((idx, Element::End))
        } else if tag == RETURN_ID {
            self.index = idx + 1;
            Some((idx, Element::Return))
        } else if tag == FUNCTION_ID {
            match self.program.read_string(idx + 1) {
                Some(name) => {
                    let name_len: usize = name.as_bytes().len();
                    self.index = idx + 2 + name_len;
                    Some((idx, Element::Function(name)))
                },
                None => None,
            }
        } else if tag == INTEGER1_ID {
            if data.len() - idx - 1 < 1 {
                return None;
            }
            let u: u32 = data[idx + 1] as u32;
            let value: i32 = if u >= 0x80 {
                ((u as i64) - 0x100) as i32
            } else {
                u as i32
            };
            proof {
                let payload = self.program@.subrange(idx + 1, idx + 2);
                assert(payload.len() == 1 && payload[0] == data@[idx + 1]);
            }
            self.index = idx + 2;
            Some((idx, Element::Integer(value)))
        } else if tag == INTEGER2_ID {
            if data.len() - idx - 1 < 2 {
                return None;
            }
            let u: u32 = (data[idx + 1] as u32) * 0x100 + (data[idx + 2] as u32);
            let value: i32 = if u >= 0x8000 {
                ((u as i64) - 0x1_0000) as i32
            } else {
                u as i32
            };
            proof {
                let payload = self.program@.subrange(idx + 1, idx + 3);
                assert(payload.len() == 2 && payload[0] == data@[idx + 1] && payload[1] == data@[
                    idx + 2
                ]);
            }
            self.index = idx + 3;
            Some((idx, Element::Integer(value)))
        } else if tag == INTEGER3_ID {
            if data.len() - idx - 1 < 3 {
                return None;
            }
            let u: u32 = (data[idx + 1] as u32) * 0x1_0000 + (data[idx + 2] as u32) * 0x100 + (
            data[idx + 3] as u32);
            let value: i32 = if u >= 0x80_0000 {
                ((u as i64) - 0x100_0000) as i32
            } else {
                u as i32
            };
            proof {
                let payload = self.program@.subrange(idx + 1, idx + 4);
                assert(payload.len() == 3 && payload[0] == data@[idx + 1] && payload[1] == data@[
                    idx + 2
                ] && payload[2] == data@[idx + 3]);
            }
            self.index = idx + 4;
            Some((idx, Element::Integer(value)))
        } else if tag == INTEGER4_ID {
            if data.len() - idx - 1 < 4 {
                return None;
            }
            let u: u32 = (data[idx + 1] as u32) * 0x100_0000 + (data[idx + 2] as u32) * 0x1_0000
                + (data[idx + 3] as u32) * 0x100 + (data[idx + 4] as u32);
            let value: i32 = if u >= 0x8000_0000 {
                ((u as i64) - 0x1_0000_0000i64) as i32
            } else {
                u as i32
            };
            proof {
                let payload = self.program@.subrange(idx + 1, idx + 5);
                assert(payload.len() == 4 && payload[0] == data@[idx + 1] && payload[1] == data@[
                    idx + 2
                ] && payload[2] == data@[idx + 3] && payload[3] == data@[idx + 4]);
            }
            self.index = idx + 5;
            Some((idx, Element::Integer(value)))
        } else {
            None
        }
    }

    /// How many elements the cursor yields before it stops.
    pub fn count(self) -> (n: usize)
        ensures
            n as nat == stream_count(self.data(), self.pos()),
    {
        let ghost data = self.data();
        let ghost start = self.pos();
        let mut it = self;
        let mut n: usize = 0;
        loop
            invariant
                data == self.data(),
                start == self.pos(),
                it.data() == data,
                n + stream_count(data, it.pos()) == stream_count(data, start),
                start + n <= it.pos(),
            decreases data.len() - it.pos(),
        {
            proof {
                crate::codec::lemma_decode_advances(data, it.pos());
            }
            match it.next() {
                Some(_) => {
                    n = n + 1;
                },
                None => {
                    proof {
                        assert(stream_count(data, it.pos()) == 0);
                    }
                    return n;
                },
            }
        }
    }
}

} // verus!
