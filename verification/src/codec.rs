//! The instruction codec: the opcode tag space and the variable-width
//! signed-integer encode/decode rules, as pure functions over byte
//! sequences.
//!
//! Each instruction is one tag byte followed by a payload whose length the
//! tag alone determines: the encoding is self-describing, with no separate
//! length table. Integers are stored big-endian, two's-complement, in the
//! smallest of four widths that can represent the value.

use crate::element::ElemModel;
use vstd::prelude::*;
use vstd::utf8::{decode_utf8, encode_utf8, valid_utf8};

verus! {

/// Tag byte: does nothing.
pub const NOP_ID: u8 = 0x00;

/// Tag byte: function declaration; a 1-byte length and that many name bytes follow.
pub const FUNCTION_ID: u8 = 0x01;

/// Tag byte: end of a block.
pub const END_ID: u8 = 0x02;

/// Tag byte: return; the expression follows as the next instruction.
pub const RETURN_ID: u8 = 0x03;

/// Tag byte: integer stored in 1 payload byte.
pub const INTEGER1_ID: u8 = 0x04;

/// Tag byte: integer stored in 2 payload bytes.
pub const INTEGER2_ID: u8 = 0x05;

/// Tag byte: integer stored in 3 payload bytes.
pub const INTEGER3_ID: u8 = 0x06;

/// Tag byte: integer stored in 4 payload bytes.
pub const INTEGER4_ID: u8 = 0x07;

/// Exclusive upper bound of the values a signed two's-complement integer of
/// `w` bytes can hold on the positive side (and, negated, the inclusive
/// lower bound on the negative side).
pub open spec fn width_bound(w: int) -> int {
    if w == 1 {
        0x80
    } else if w == 2 {
        0x8000
    } else if w == 3 {
        0x80_0000
    } else {
        0x8000_0000
    }
}

/// The number of distinct values a `w`-byte field can hold.
pub open spec fn width_modulus(w: int) -> int {
    2 * width_bound(w)
}

/// Whether `v` fits in a signed two's-complement integer of `w` bytes.
pub open spec fn fits_width(v: int, w: int) -> bool {
    -width_bound(w) <= v < width_bound(w)
}

/// The narrowest width, in bytes, that can represent `v`; widths are probed
/// in increasing order with the 4-byte width as the catch-all.
pub open spec fn int_width(v: int) -> int {
    if fits_width(v, 1) {
        1
    } else if fits_width(v, 2) {
        2
    } else if fits_width(v, 3) {
        3
    } else {
        4
    }
}

/// The tag byte that announces a `w`-byte integer.
pub open spec fn integer_tag(w: int) -> u8 {
    if w == 1 {
        INTEGER1_ID
    } else if w == 2 {
        INTEGER2_ID
    } else if w == 3 {
        INTEGER3_ID
    } else {
        INTEGER4_ID
    }
}

/// The unsigned representative of `v` in `8 * w` two's-complement bits.
pub open spec fn twos_complement(v: int, w: int) -> int {
    if v >= 0 {
        v
    } else {
        v + width_modulus(w)
    }
}

/// The big-endian base-256 digits of `u`, `w` bytes, most significant first.
pub open spec fn be_bytes(u: int, w: int) -> Seq<u8> {
    if w == 1 {
        seq![u as u8]
    } else if w == 2 {
        seq![(u / 0x100) as u8, (u % 0x100) as u8]
    } else if w == 3 {
        seq![(u / 0x1_0000) as u8, ((u / 0x100) % 0x100) as u8, (u % 0x100) as u8]
    } else {
        seq![
            (u / 0x100_0000) as u8,
            ((u / 0x1_0000) % 0x100) as u8,
            ((u / 0x100) % 0x100) as u8,
            (u % 0x100) as u8,
        ]
    }
}

/// The unsigned value of up to four big-endian bytes.
pub open spec fn be_value(b: Seq<u8>) -> int {
    if b.len() == 1 {
        b[0] as int
    } else if b.len() == 2 {
        b[0] as int * 0x100 + b[1] as int
    } else if b.len() == 3 {
        b[0] as int * 0x1_0000 + b[1] as int * 0x100 + b[2] as int
    } else {
        b[0] as int * 0x100_0000 + b[1] as int * 0x1_0000 + b[2] as int * 0x100 + b[3] as int
    }
}

/// Sign extension of the `8 * w`-bit two's-complement value `u`, based on
/// the top bit of the most significant byte actually read.
pub open spec fn sign_extend(u: int, w: int) -> int {
    if u >= width_bound(w) {
        u - width_modulus(w)
    } else {
        u
    }
}

/// The bytes of one encoded integer element: tag, then the big-endian
/// two's-complement payload in the narrowest width that fits.
pub open spec fn encode_integer_elem(v: i32) -> Seq<u8> {
    let w = int_width(v as int);
    seq![integer_tag(w)] + be_bytes(twos_complement(v as int, w), w)
}

/// The bytes of one encoded element.
pub open spec fn encode_elem(e: ElemModel) -> Seq<u8> {
    match e {
        ElemModel::Nop => seq![NOP_ID],
        ElemModel::End => seq![END_ID],
        ElemModel::Return => seq![RETURN_ID],
        ElemModel::Function(name) => seq![FUNCTION_ID, encode_utf8(name).len() as u8]
            + encode_utf8(name),
        ElemModel::Integer(v) => encode_integer_elem(v),
    }
}

/// Whether an element can be encoded at all: a function name must fit its
/// 1-byte length prefix.
pub open spec fn elem_encodable(e: ElemModel) -> bool {
    match e {
        ElemModel::Function(name) => encode_utf8(name).len() <= 255,
        _ => true,
    }
}

/// Decode one element at byte offset `i` of `data`. `None` means the stream
/// ends here: an unknown tag, an offset at or past the end, a payload that
/// would run past the end, or a function name that is not valid UTF-8.
/// `Some` carries the element and the offset just past it.
pub open spec fn decode_at(data: Seq<u8>, i: int) -> Option<(ElemModel, int)> {
    if !(0 <= i < data.len()) {
        None
    } else {
        let tag = data[i];
        if tag == NOP_ID {
            Some((ElemModel::Nop, i + 1))
        } else if tag == END_ID {
            Some((ElemModel::End, i + 1))
        } else if tag == RETURN_ID {
            Some((ElemModel::Return, i + 1))
        } else if tag == FUNCTION_ID {
            if i + 2 <= data.len() && i + 2 + data[i + 1] <= data.len() {
                let name_bytes = data.subrange(i + 2, i + 2 + data[i + 1]);
                if valid_utf8(name_bytes) {
                    Some((ElemModel::Function(decode_utf8(name_bytes)), i + 2 + data[i + 1]))
                } else {
                    None
                }
            } else {
                None
            }
        } else if INTEGER1_ID <= tag <= INTEGER4_ID {
            let w = tag - INTEGER1_ID + 1;
            if i + 1 + w <= data.len() {
                Some(
                    (
                        ElemModel::Integer(
                            sign_extend(be_value(data.subrange(i + 1, i + 1 + w)), w) as i32,
                        ),
                        i + 1 + w,
                    ),
                )
            } else {
                None
            }
        } else {
            None
        }
    }
}

/// A successful decode always moves forward and never past the end.
pub proof fn lemma_decode_advances(data: Seq<u8>, i: int)
    ensures
        decode_at(data, i) matches Some(de) ==> i < de.1 <= data.len(),
{
}

/// Reassembling the big-endian digits of `u` gives back `u`.
proof fn lemma_be_bytes_value(u: int, w: int)
    requires
        1 <= w <= 4,
        0 <= u < width_modulus(w),
    ensures
        be_bytes(u, w).len() == w,
        be_value(be_bytes(u, w)) == u,
{
    vstd::arithmetic::div_mod::lemma_fundamental_div_mod(u, 0x100);
    if w >= 3 {
        vstd::arithmetic::div_mod::lemma_fundamental_div_mod(u / 0x100, 0x100);
        vstd::arithmetic::div_mod::lemma_div_denominator(u, 0x100, 0x100);
    }
    if w == 4 {
        vstd::arithmetic::div_mod::lemma_fundamental_div_mod(u / 0x1_0000, 0x100);
        vstd::arithmetic::div_mod::lemma_div_denominator(u, 0x1_0000, 0x100);
    }
    if w == 1 {
        assert(be_bytes(u, 1)[0] == u as u8);
    } else if w == 2 {
        assert(u / 0x100 < 0x100) by (nonlinear_arith)
            requires 0 <= u < 0x1_0000,
        ;
    } else if w == 3 {
        assert(u / 0x1_0000 < 0x100) by (nonlinear_arith)
            requires 0 <= u < 0x100_0000,
        ;
    } else {
        assert(u / 0x100_0000 < 0x100) by (nonlinear_arith)
            requires 0 <= u < 0x1_0000_0000,
        ;
    }
}

/// The two's-complement representative is in range and sign-extends back to `v`.
proof fn lemma_twos_complement_round_trip(v: i32)
    ensures
        0 <= twos_complement(v as int, int_width(v as int)) < width_modulus(int_width(v as int)),
        sign_extend(twos_complement(v as int, int_width(v as int)), int_width(v as int))
            == v as int,
{
}

/// Decoding an encoded element embedded in a larger buffer yields that
/// element and the offset just past it.
pub proof fn lemma_decode_encode(data: Seq<u8>, i: int, e: ElemModel)
    requires
        elem_encodable(e),
        0 <= i,
        i + encode_elem(e).len() <= data.len(),
        data.subrange(i, i + encode_elem(e).len()) == encode_elem(e),
    ensures
        decode_at(data, i) == Some((e, i + encode_elem(e).len())),
{
    let enc = encode_elem(e);
    let n = enc.len() as int;
    let window = data.subrange(i, i + n);
    assert(window[0] == data[i + 0]);
    assert(data[i] == enc[0]);
    match e {
        ElemModel::Nop => {},
        ElemModel::End => {},
        ElemModel::Return => {},
        ElemModel::Function(name) => {
            let nb = encode_utf8(name);
            let l = nb.len() as int;
            assert(window[1] == data[i + 1]);
            assert(data[i + 1] == l as u8);
            assert(data[i + 1] as int == l);
            let name_bytes = data.subrange(i + 2, i + 2 + l);
            assert(name_bytes =~= nb) by {
                assert forall|k: int| 0 <= k < l implies name_bytes[k] == nb[k] by {
                    assert(name_bytes[k] == data[i + 2 + k]);
                    assert(window[2 + k] == data[i + (2 + k)]);
                    assert(enc[2 + k] == nb[k]);
                }
            }
            vstd::utf8::encode_utf8_valid_utf8(name);
            vstd::utf8::encode_utf8_decode_utf8(name);
        },
        ElemModel::Integer(v) => {
            let w = int_width(v as int);
            let u = twos_complement(v as int, w);
            lemma_twos_complement_round_trip(v);
            lemma_be_bytes_value(u, w);
            assert(data[i] == integer_tag(w));
            let payload = data.subrange(i + 1, i + 1 + w);
            assert(payload =~= be_bytes(u, w)) by {
                assert forall|k: int| 0 <= k < w implies payload[k] == be_bytes(u, w)[k] by {
                    assert(payload[k] == data[i + 1 + k]);
                    assert(window[1 + k] == data[i + (1 + k)]);
                    assert(enc[1 + k] == be_bytes(u, w)[k]);
                }
            }
            assert(decode_at(data, i) == Some((e, i + n)));
        },
    }
}

/// Whether the bytes from offset `i` to the end decode as a whole number
/// of instructions, with no trailing partial instruction.
pub open spec fn decodes_fully(data: Seq<u8>, i: int) -> bool
    decreases data.len() - i,
{
    if i == data.len() {
        true
    } else {
        match decode_at(data, i) {
            Some(de) => {
                proof {
                    lemma_decode_advances(data, i);
                }
                decodes_fully(data, de.1)
            },
            None => false,
        }
    }
}

/// A successful decode reads only the bytes it consumes: appending more
/// bytes changes nothing about it.
pub proof fn lemma_decode_append(data: Seq<u8>, ext: Seq<u8>, i: int)
    requires
        decode_at(data, i) is Some,
    ensures
        decode_at(data + ext, i) == decode_at(data, i),
{
    lemma_decode_advances(data, i);
    let tag = data[i];
    if tag == FUNCTION_ID {
        let l = data[i + 1] as int;
        assert((data + ext).subrange(i + 2, i + 2 + l) =~= data.subrange(i + 2, i + 2 + l));
    } else if INTEGER1_ID <= tag <= INTEGER4_ID {
        let w = tag - INTEGER1_ID + 1;
        assert((data + ext).subrange(i + 1, i + 1 + w) =~= data.subrange(i + 1, i + 1 + w));
    }
}

proof fn lemma_decodes_fully_append(data: Seq<u8>, e: ElemModel, i: int)
    requires
        elem_encodable(e),
        0 <= i <= data.len(),
        decodes_fully(data, i),
    ensures
        decodes_fully(data + encode_elem(e), i),
    decreases data.len() - i,
{
    let ext = encode_elem(e);
    let full = data + ext;
    if i == data.len() {
        assert(full.subrange(i, i + ext.len() as int) =~= ext);
        lemma_decode_encode(full, i, e);
        assert(decodes_fully(full, i + ext.len()));
        assert(decodes_fully(full, i));
    } else {
        lemma_decode_advances(data, i);
        lemma_decode_append(data, ext, i);
        let de = decode_at(data, i)->Some_0;
        assert(decodes_fully(data, de.1));
        lemma_decodes_fully_append(data, e, de.1);
        assert(decodes_fully(full, i));
    }
}

/// Law: appending one encoded element to a stream of whole instructions
/// leaves a stream of whole instructions. Since the builder only ever
/// appends whole encodings, the buffer read up to its cursor never ends
/// in a partial instruction.
pub proof fn lemma_no_partial_instruction(data: Seq<u8>, e: ElemModel)
    requires
        elem_encodable(e),
        decodes_fully(data, 0),
    ensures
        decodes_fully(data + encode_elem(e), 0),
{
    lemma_decodes_fully_append(data, e, 0);
}

/// Law: encoding any 32-bit signed integer and then decoding the result
/// yields exactly that integer, and the encoding is the minimum width whose
/// two's-complement range holds the value.
pub proof fn lemma_integer_encoding_round_trip(v: i32)
    ensures
        encode_integer_elem(v).len() == 1 + int_width(v as int),
        decode_at(encode_integer_elem(v), 0) == Some(
            (ElemModel::Integer(v), encode_integer_elem(v).len() as int),
        ),
        fits_width(v as int, int_width(v as int)),
        forall|w: int| 1 <= w < int_width(v as int) ==> !fits_width(v as int, w),
{
    let enc = encode_integer_elem(v);
    lemma_twos_complement_round_trip(v);
    lemma_be_bytes_value(
        twos_complement(v as int, int_width(v as int)),
        int_width(v as int),
    );
    assert(enc.subrange(0, enc.len() as int) =~= enc);
    lemma_decode_encode(enc, 0, ElemModel::Integer(v));
    assert forall|w: int| 1 <= w < int_width(v as int) implies !fits_width(v as int, w) by {}
}

/// Law: the bytes of a function declaration followed by an end marker
/// decode, in order, to the declaration at offset 0 and the end marker at
/// offset `2 + L`, where `L` is the byte length of the encoded name.
pub proof fn lemma_function_declaration_round_trip(name: Seq<char>)
    requires
        encode_utf8(name).len() <= 255,
    ensures
        ({
            let bytes = encode_elem(ElemModel::Function(name)) + encode_elem(ElemModel::End);
            let offset = 2 + encode_utf8(name).len() as int;
            decode_at(bytes, 0) == Some((ElemModel::Function(name), offset))
                && decode_at(bytes, offset) == Some((ElemModel::End, bytes.len() as int))
        }),
{
    let fn_enc = encode_elem(ElemModel::Function(name));
    let end_enc = encode_elem(ElemModel::End);
    let bytes = fn_enc + end_enc;
    let offset = fn_enc.len() as int;
    assert(bytes.subrange(0, offset) =~= fn_enc);
    lemma_decode_encode(bytes, 0, ElemModel::Function(name));
    assert(bytes.subrange(offset, offset + 1) =~= end_enc);
    lemma_decode_encode(bytes, offset, ElemModel::End);
}

} // verus!
