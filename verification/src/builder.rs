//! The append-only program builder: serializes one element at a time into a
//! fixed-capacity byte region, enforcing the capacity and name-length
//! invariants of the instruction codec.

use crate::codec::{
    decodes_fully, elem_encodable, encode_elem, encode_integer_elem, lemma_no_partial_instruction,
    twos_complement, END_ID, FUNCTION_ID, NOP_ID, RETURN_ID,
};
use crate::element::{Element, Error};
use vstd::prelude::*;

verus! {

/// Builds a program inside a caller-supplied fixed-capacity byte region.
///
/// Every insertion is all-or-nothing: either the full encoded instruction
/// is appended and the cursor advances by exactly that many bytes, or
/// nothing is written and an error is returned. The written prefix is
/// therefore always a well-formed instruction stream.
pub struct ProgramBuilder {
    data: Vec<u8>,
    used: usize,
}

impl ProgramBuilder {
    /// The whole backing region, written prefix and untouched tail alike.
    pub closed spec fn buf(self) -> Seq<u8> {
        self.data@
    }

    /// How many bytes of the region are written.
    pub closed spec fn spec_used(self) -> int {
        self.used as int
    }

    /// The size of the backing region.
    pub open spec fn spec_capacity(self) -> int {
        self.buf().len() as int
    }

    /// The cursor never runs past the region.
    pub open spec fn wf(self) -> bool {
        0 <= self.spec_used() <= self.spec_capacity()
    }

    /// The instruction stream written so far.
    pub open spec fn contents(self) -> Seq<u8> {
        self.buf().subrange(0, self.spec_used())
    }

    /// How many bytes of the region are still free.
    pub open spec fn spec_free(self) -> int {
        self.spec_capacity() - self.spec_used()
    }

    /// Construct a new program builder inside the given byte region.
    pub fn new(space: Vec<u8>) -> (b: ProgramBuilder)
        ensures
            b.wf(),
            b.spec_used() == 0,
            b.buf() == space@,
            decodes_fully(b.contents(), 0),
    {
        ProgramBuilder { data: space, used: 0 }
    }

    /// Hand the backing region back: the written instruction stream up to
    /// `used()`, with the tail of the region untouched.
    pub fn into_inner(self) -> (r: Vec<u8>)
        ensures
            r@ == self.buf(),
    {
        self.data
    }

    /// How many bytes are used?
    pub fn used(&self) -> (r: usize)
        ensures
            r as int == self.spec_used(),
    {
        self.used
    }

    /// How many bytes are free?
    pub fn free(&self) -> (r: usize)
        requires
            self.wf(),
        ensures
            r as int == self.spec_free(),
    {
        self.data.len() - self.used
    }

    /// Append all of `bytes`, or nothing when they do not fit.
    fn insert_slice(&mut self, bytes: &[u8]) -> (r: Result<(), Error>)
        requires
            old(self).wf(),
        ensures
            final(self).wf(),
            final(self).spec_capacity() == old(self).spec_capacity(),
            match r {
                Ok(()) => {
                    &&& bytes@.len() <= old(self).spec_free()
                    &&& final(self).spec_used() == old(self).spec_used() + bytes@.len()
                    &&& final(self).contents() == old(self).contents() + bytes@
                    &&& forall|k: int|
                        final(self).spec_used() <= k < final(self).spec_capacity()
                            ==> final(self).buf()[k] == old(self).buf()[k]
                },
                Err(e) => {
                    &&& e == Error::InsufficientSpace
                    &&& bytes@.len() > old(self).spec_free()
                    &&& *final(self) == *old(self)
                },
            },
    {
        if self.data.len() - self.used < bytes.len() {
            return Err(Error::InsufficientSpace);
        }
        let ghost buf0 = self.data@;
        let ghost used0 = self.used as int;
        let n: usize = bytes.len();
        let mut i: usize = 0;
        while i < n
            invariant
                i <= n,
                n == bytes@.len(),
                0 <= used0,
                used0 + n <= buf0.len(),
                buf0.len() <= usize::MAX,
                self.used == used0 + i,
                self.data@.len() == buf0.len(),
                forall|k: int| 0 <= k < used0 ==> self.data@[k] == buf0[k],
                forall|k: int| 0 <= k < i ==> self.data@[used0 + k] == bytes@[k],
                forall|k: int| used0 + i <= k < buf0.len() ==> self.data@[k] == buf0[k],
            decreases n - i,
        {
            self.data[self.used] = bytes[i];
            self.used = self.used + 1;
            i = i + 1;
        }
        proof {
            assert(self.contents() =~= buf0.subrange(0, used0) + bytes@);
        }
        Ok(())
    }

    /// Insert an element.
    ///
    /// For `Function`, a name longer than 255 bytes is rejected with
    /// `NameTooLong`; then the total encoded size is computed up front and
    /// rejected with `InsufficientSpace` if it exceeds the remaining
    /// capacity, so that no partial instruction is ever written.
    pub fn insert(&mut self, element: &Element) -> (r: Result<(), Error>)
        requires
            old(self).wf(),
        ensures
            final(self).wf(),
            final(self).spec_capacity() == old(self).spec_capacity(),
            match r {
                Ok(()) => {
                    &&& elem_encodable(element@)
                    &&& encode_elem(element@).len() <= old(self).spec_free()
                    &&& final(self).spec_used() == old(self).spec_used() + encode_elem(element@).len()
                    &&& final(self).contents() == old(self).contents() + encode_elem(element@)
                    &&& forall|k: int|
                        final(self).spec_used() <= k < final(self).spec_capacity()
                            ==> final(self).buf()[k] == old(self).buf()[k]
                    &&& decodes_fully(old(self).contents(), 0) ==> decodes_fully(
                        final(self).contents(),
                        0,
                    )
                },
                Err(Error::NameTooLong) => {
                    &&& !elem_encodable(element@)
                    &&& *final(self) == *old(self)
                },
                Err(Error::InsufficientSpace) => {
                    &&& elem_encodable(element@)
                    &&& encode_elem(element@).len() > old(self).spec_free()
                    &&& *final(self) == *old(self)
                },
                Err(_) => false,
            },
    {
        let enc: Vec<u8> = match element {
            Element::Nop => {
                let mut v: Vec<u8> = Vec::new();
                v.push(NOP_ID);
                proof {
                    assert(v@ =~= encode_elem(element@));
                }
                v
            },
            Element::End => {
                let mut v: Vec<u8> = Vec::new();
                v.push(END_ID);
                proof {
                    assert(v@ =~= encode_elem(element@));
                }
                v
            },
            Element::Return => {
                let mut v: Vec<u8> = Vec::new();
                v.push(RETURN_ID);
                proof {
                    assert(v@ =~= encode_elem(element@));
                }
                v
            },
            Element::Function(name) => {
                let name_bytes = name.as_bytes();
                if name_bytes.len() > 255 {
                    return Err(Error::NameTooLong);
                }
                let mut v: Vec<u8> = Vec::new();
                v.push(FUNCTION_ID);
                v.push(name_bytes.len() as u8);
                v.extend_from_slice(name_bytes);
                proof {
                    assert(v@ =~= encode_elem(element@));
                }
                v
            },
            Element::Integer(i) => {
                let v = ProgramBuilder::encode_integer(*i);
                v
            },
        };
        let r = self.insert_slice(enc.as_slice());
        proof {
            if r is Ok && decodes_fully(old(self).contents(), 0) {
                lemma_no_partial_instruction(old(self).contents(), element@);
            }
        }
        r
    }

    /// Encode an integer as one instruction: the tag of the narrowest
    /// two's-complement width that holds the value, then that many
    /// big-endian payload bytes.
    pub fn encode_integer(integer: i32) -> (r: Vec<u8>)
        ensures
            r@ == encode_integer_elem(integer),
    {
        let mut v: Vec<u8> = Vec::new();
        if integer >= -0x80 && integer < 0x80 {
            let tc: u32 = if integer >= 0 {
                integer as u32
            } else {
                ((integer as i64) + 0x100) as u32
            };
            v.push(crate::codec::INTEGER1_ID);
            v.push(tc as u8);
            proof {
                assert(tc as int == twos_complement(integer as int, 1));
                assert(v@ =~= encode_integer_elem(integer));
            }
        } else if integer >= -0x8000 && integer < 0x8000 {
            let tc: u32 = if integer >= 0 {
                integer as u32
            } else {
                ((integer as i64) + 0x1_0000) as u32
            };
            v.push(crate::codec::INTEGER2_ID);
            v.push((tc / 0x100) as u8);
            v.push((tc % 0x100) as u8);
            proof {
                assert(tc as int == twos_complement(integer as int, 2));
                assert(v@ =~= encode_integer_elem(integer));
            }
        } else if integer >= -0x80_0000 && integer < 0x80_0000 {
            let tc: u32 = if integer >= 0 {
                integer as u32
            } else {
                ((integer as i64) + 0x100_0000) as u32
            };
            v.push(crate::codec::INTEGER3_ID);
            v.push((tc / 0x1_0000) as u8);
            v.push((tc / 0x100 % 0x100) as u8);
            v.push((tc % 0x100) as u8);
            proof {
                assert(tc / 0x1_0000 < 0x100) by (nonlinear_arith)
                    requires tc < 0x100_0000,
                ;
                assert(tc as int == twos_complement(integer as int, 3));
                assert(v@ =~= encode_integer_elem(integer));
            }
        } else {
            let tc: u32 = if integer >= 0 {
                integer as u32
            } else {
                ((integer as i64) + 0x1_0000_0000i64) as u32
            };
            v.push(crate::codec::INTEGER4_ID);
            v.push((tc / 0x100_0000) as u8);
            v.push((tc / 0x1_0000 % 0x100) as u8);
            v.push((tc / 0x100 % 0x100) as u8);
            v.push((tc % 0x100) as u8);
            proof {
                assert(tc / 0x100_0000 < 0x100) by (nonlinear_arith)
                    requires tc < 0x1_0000_0000,
                ;
                assert(tc as int == twos_complement(integer as int, 4));
                assert(v@ =~= encode_integer_elem(integer));
            }
        }
        v
    }
}

} // verus!
