//! The textual front-end: maps one line of source text to an element, and
//! renders an element back to its canonical line.

use crate::element::{ElemModel, Element, Error};
use vstd::prelude::*;
use vstd::string::StrSliceExecFns;
use vstd::string::StringExecFns;

verus! {

/// What `char::is_alphabetic` returns for a character.
pub uninterp spec fn char_alphabetic(c: char) -> bool;

/// What `char::is_alphanumeric` returns for a character.
pub uninterp spec fn char_alphanumeric(c: char) -> bool;

/// Relies on `char::is_alphabetic`: a fixed classification of the
/// character, depending on nothing else.
#[verifier::external_body]
fn is_alphabetic_char(c: char) -> (r: bool)
    ensures
        r == char_alphabetic(c),
{
    c.is_alphabetic()
}

/// Relies on `char::is_alphanumeric`: a fixed classification of the
/// character, depending on nothing else.
#[verifier::external_body]
fn is_alphanumeric_char(c: char) -> (r: bool)
    ensures
        r == char_alphanumeric(c),
{
    c.is_alphanumeric()
}

/// The Unicode scalar of `c`, with an ASCII upper-case letter folded to
/// its lower-case counterpart.
pub open spec fn lower_scalar(c: char) -> u32 {
    if 65 <= c as u32 <= 90 {
        (c as u32 + 32) as u32
    } else {
        c as u32
    }
}

/// Equality of two character sequences up to ASCII case.
pub open spec fn eq_ignore_ascii_case_seq(a: Seq<char>, b: Seq<char>) -> bool {
    a.len() == b.len() && forall|i: int| 0 <= i < a.len() ==> lower_scalar(a[i]) == lower_scalar(b[i])
}

/// Whether `c` is an ASCII decimal digit.
pub open spec fn is_digit_char(c: char) -> bool {
    48 <= c as u32 <= 57
}

/// The numeric value of an ASCII decimal digit.
pub open spec fn digit_val(c: char) -> int {
    c as u32 - 48
}

/// Whether every character of `s` is an ASCII decimal digit.
pub open spec fn all_digits(s: Seq<char>) -> bool {
    forall|i: int| 0 <= i < s.len() ==> is_digit_char(s[i])
}

/// The value of a sequence of decimal digits, most significant first.
pub open spec fn dec_value(s: Seq<char>) -> int
    decreases s.len(),
{
    if s.len() == 0 {
        0
    } else {
        dec_value(s.drop_last()) * 10 + digit_val(s.last())
    }
}

/// What parsing `s` as a signed 32-bit decimal integer yields: an optional
/// sign, then one or more digits, with the value in range; anything else
/// is `None`.
pub open spec fn parse_i32_spec(s: Seq<char>) -> Option<i32> {
    let neg = s.len() > 0 && s[0] == '-';
    let digits = if s.len() > 0 && (s[0] == '-' || s[0] == '+') {
        s.drop_first()
    } else {
        s
    };
    if digits.len() > 0 && all_digits(digits) {
        let m = dec_value(digits);
        if neg {
            if m <= 0x8000_0000 {
                Some((-m) as i32)
            } else {
                None
            }
        } else {
            if m <= 0x7fff_ffff {
                Some(m as i32)
            } else {
                None
            }
        }
    } else {
        None
    }
}

/// A well-formed function name: it starts with an alphabetic character or
/// an underscore and continues with alphanumeric characters or
/// underscores.
pub open spec fn valid_name(name: Seq<char>) -> bool {
    &&& name.len() > 0
    &&& (char_alphabetic(name[0]) || name[0] == '_')
    &&& forall|i: int| 1 <= i < name.len() ==> char_alphanumeric(name[i]) || name[i] == '_'
}

/// What one line of text maps to: a keyword (matched case-insensitively),
/// an integer literal, or a `fn <name>` declaration; otherwise a syntax
/// error, and a declaration with a malformed or empty name an invalid-name
/// error.
pub open spec fn parse_line(s: Seq<char>) -> Result<ElemModel, Error> {
    if eq_ignore_ascii_case_seq(s, seq!['r', 'e', 't', 'u', 'r', 'n']) {
        Ok(ElemModel::Return)
    } else if eq_ignore_ascii_case_seq(s, seq!['e', 'n', 'd']) {
        Ok(ElemModel::End)
    } else if eq_ignore_ascii_case_seq(s, seq!['n', 'o', 'p']) {
        Ok(ElemModel::Nop)
    } else if parse_i32_spec(s) is Some {
        Ok(ElemModel::Integer(parse_i32_spec(s)->Some_0))
    } else if s.len() >= 3 && s.subrange(0, 3) == seq!['f', 'n', ' '] {
        let name = s.subrange(3, s.len() as int);
        if name.len() == 0 {
            Err(Error::InvalidName)
        } else if valid_name(name) {
            Ok(ElemModel::Function(name))
        } else {
            Err(Error::InvalidName)
        }
    } else {
        Err(Error::SyntaxError)
    }
}

/// The decimal digits of `n`, most significant first.
pub open spec fn dec_digits(n: int) -> Seq<char>
    decreases n,
{
    if n < 10 {
        seq![digit_char(n)]
    } else {
        proof {
            vstd::arithmetic::div_mod::lemma_div_decreases(n, 10);
        }
        dec_digits(n / 10).push(digit_char(n % 10))
    }
}

/// The character of one decimal digit.
pub open spec fn digit_char(d: int) -> char {
    ((48 + d) as u8) as char
}

/// The canonical decimal rendering of `v`: a minus sign for a negative
/// value, then the digits of its magnitude.
pub open spec fn render_integer(v: int) -> Seq<char> {
    if v < 0 {
        seq!['-'] + dec_digits(-v)
    } else {
        dec_digits(v)
    }
}

/// The canonical textual line of an element.
pub open spec fn render_elem(e: ElemModel) -> Seq<char> {
    match e {
        ElemModel::Nop => seq!['n', 'o', 'p'],
        ElemModel::End => seq!['e', 'n', 'd'],
        ElemModel::Return => seq!['r', 'e', 't', 'u', 'r', 'n'],
        ElemModel::Function(name) => seq!['f', 'n', ' '] + name,
        ElemModel::Integer(v) => render_integer(v as int),
    }
}

/// Case-insensitive (ASCII) comparison of two strings, by characters.
fn str_eq_ignore_ascii_case(s: &str, kw: &str) -> (r: bool)
    ensures
        r == eq_ignore_ascii_case_seq(s@, kw@),
{
    let n: usize = s.unicode_len();
    if n != kw.unicode_len() {
        return false;
    }
    let mut i: usize = 0;
    while i < n
        invariant
            i <= n,
            n == s@.len(),
            s@.len() == kw@.len(),
            forall|k: int| 0 <= k < i ==> lower_scalar(s@[k]) == lower_scalar(kw@[k]),
        decreases n - i,
    {
        let a: char = s.get_char(i);
        let b: char = kw.get_char(i);
        let au: u32 = a as u32;
        let bu: u32 = b as u32;
        let al: u32 = if au >= 65 && au <= 90 {
            au + 32
        } else {
            au
        };
        let bl: u32 = if bu >= 65 && bu <= 90 {
            bu + 32
        } else {
            bu
        };
        if al != bl {
            return false;
        }
        i = i + 1;
    }
    true
}

/// Parse a string as a signed 32-bit decimal integer, exactly as
/// `parse_i32_spec` describes.
fn parse_i32_str(s: &str) -> (r: Option<i32>)
    ensures
        r == parse_i32_spec(s@),
{
    let n: usize = s.unicode_len();
    if n == 0 {
        return None;
    }
    let c0: char = s.get_char(0);
    let neg: bool = c0 == '-';
    let start: usize = if c0 == '-' || c0 == '+' {
        1
    } else {
        0
    };
    let ghost digits = if start == 1 {
        s@.drop_first()
    } else {
        s@
    };
    if n == start {
        return None;
    }
    let mut acc: u64 = 0;
    let mut i: usize = start;
    while i < n
        invariant
            start <= i <= n,
            start <= 1,
            n == s@.len(),
            (start == 1) == (s@.len() > 0 && (s@[0] == '-' || s@[0] == '+')),
            digits == (if start == 1 {
                s@.drop_first()
            } else {
                s@
            }),
            digits.len() == n - start,
            forall|k: int| 0 <= k < digits.len() ==> digits[k] == s@[k + start],
            all_digits(digits.subrange(0, i - start)),
            (acc <= 0x8000_0000 && acc == dec_value(digits.subrange(0, i - start))) || (acc
                == 3_000_000_000 && dec_value(digits.subrange(0, i - start)) > 0x8000_0000),
        decreases n - i,
    {
        let c: char = s.get_char(i);
        let cu: u32 = c as u32;
        if cu < 48 || cu > 57 {
            proof {
                assert(digits[i - start] == s@[i as int]);
                assert(!is_digit_char(digits[i - start]));
            }
            return None;
        }
        let d: u64 = (cu - 48) as u64;
        let next: u64 = acc * 10 + d;
        let ghost pre = digits.subrange(0, i - start);
        let ghost cur = digits.subrange(0, i + 1 - start);
        proof {
            assert(cur.drop_last() =~= pre);
            assert(cur.last() == s@[i as int]);
        }
        acc = if next > 0x8000_0000 {
            3_000_000_000
        } else {
            next
        };
        i = i + 1;
    }
    proof {
        assert(digits.subrange(0, n - start) =~= digits);
    }
    if neg {
        if acc <= 0x8000_0000 {
            Some((-(acc as i64)) as i32)
        } else {
            None
        }
    } else {
        if acc <= 0x7fff_ffff {
            Some(acc as i32)
        } else {
            None
        }
    }
}

/// Check a declaration's name, exactly as `valid_name` describes.
fn check_name(name: &str) -> (r: bool)
    ensures
        r == valid_name(name@),
{
    let n: usize = name.unicode_len();
    if n == 0 {
        return false;
    }
    let first: char = name.get_char(0);
    if !(is_alphabetic_char(first) || first == '_') {
        return false;
    }
    let mut i: usize = 1;
    while i < n
        invariant
            1 <= i <= n,
            n == name@.len(),
            char_alphabetic(name@[0]) || name@[0] == '_',
            forall|k: int| 1 <= k < i ==> char_alphanumeric(name@[k]) || name@[k] == '_',
        decreases n - i,
    {
        let c: char = name.get_char(i);
        if !(is_alphanumeric_char(c) || c == '_') {
            return false;
        }
        i = i + 1;
    }
    true
}

/// The string of one decimal digit.
fn digit_str(d: u8) -> (r: &'static str)
    requires
        d < 10,
    ensures
        r@ == seq![digit_char(d as int)],
{
    let r: &'static str = if d == 0 {
        "0"
    } else if d == 1 {
        "1"
    } else if d == 2 {
        "2"
    } else if d == 3 {
        "3"
    } else if d == 4 {
        "4"
    } else if d == 5 {
        "5"
    } else if d == 6 {
        "6"
    } else if d == 7 {
        "7"
    } else if d == 8 {
        "8"
    } else {
        "9"
    };
    proof {
        reveal_strlit("0");
        reveal_strlit("1");
        reveal_strlit("2");
        reveal_strlit("3");
        reveal_strlit("4");
        reveal_strlit("5");
        reveal_strlit("6");
        reveal_strlit("7");
        reveal_strlit("8");
        reveal_strlit("9");
        assert(r@ =~= seq![digit_char(d as int)]);
    }
    r
}

/// Render `v` in decimal: the magnitude's digits are collected least
/// significant first, then read back to front.
fn integer_to_string(v: i32) -> (r: String)
    ensures
        r@ == render_integer(v as int),
{
    let neg: bool = v < 0;
    let mut mag: u32 = if v >= 0 {
        v as u32
    } else {
        (-(v as i64)) as u32
    };
    let ghost mag0: int = mag as int;
    let mut digits: Vec<u8> = Vec::new();
    digits.push((mag % 10) as u8);
    mag = mag / 10;
    while mag > 0
        invariant
            digits@.len() >= 1,
            forall|k: int| 0 <= k < digits@.len() ==> digits@[k] < 10,
            dec_digits(mag0) =~= (if mag > 0 {
                dec_digits(mag as int)
            } else {
                Seq::<char>::empty()
            }) + rev_digit_chars(digits@),
        decreases mag,
    {
        let ghost old_digits = digits@;
        digits.push((mag % 10) as u8);
        proof {
            assert(rev_digit_chars(digits@) =~= seq![digit_char(mag as int % 10)]
                + rev_digit_chars(old_digits));
        }
        mag = mag / 10;
    }
    let mut out: String = if neg {
        let s = String::from_str("-");
        proof {
            reveal_strlit("-");
            assert(s@ =~= seq!['-']);
        }
        s
    } else {
        String::new()
    };
    let ghost prefix = out@;
    let mut i: usize = digits.len();
    while i > 0
        invariant
            i <= digits@.len(),
            forall|k: int| 0 <= k < digits@.len() ==> digits@[k] < 10,
            out@ =~= prefix + rev_digit_chars(digits@).subrange(
                0,
                digits@.len() - i,
            ),
        decreases i,
    {
        i = i - 1;
        out.append(digit_str(digits[i]));
        proof {
            assert(rev_digit_chars(digits@).subrange(0, digits@.len() - i) =~= rev_digit_chars(
                digits@,
            ).subrange(0, digits@.len() - (i + 1)).push(digit_char(digits@[i as int] as int)));
        }
    }
    proof {
        assert(rev_digit_chars(digits@).subrange(0, digits@.len() as int) =~= rev_digit_chars(
            digits@,
        ));
        assert(out@ =~= prefix + dec_digits(mag0));
    }
    out
}

/// The characters of a digit list read back to front.
pub open spec fn rev_digit_chars(digits: Seq<u8>) -> Seq<char> {
    Seq::new(digits.len(), |i: int| digit_char(digits[digits.len() - 1 - i] as int))
}

impl<'a> Element<'a> {
    /// Map one line of source text to an element, by the literal rules of
    /// `parse_line`.
    pub fn try_from(s: &'a str) -> (r: Result<Element<'a>, Error>)
        ensures
            match parse_line(s@) {
                Ok(m) => r matches Ok(e) && e@ == m,
                Err(err) => r matches Err(e2) && e2 == err,
            },
    {
        proof {
            reveal_strlit("return");
            reveal_strlit("end");
            reveal_strlit("nop");
        }
        if str_eq_ignore_ascii_case(s, "return") {
            proof {
                assert("return"@ =~= seq!['r', 'e', 't', 'u', 'r', 'n']);
            }
            return Ok(Element::Return);
        }
        if str_eq_ignore_ascii_case(s, "end") {
            proof {
                assert("end"@ =~= seq!['e', 'n', 'd']);
            }
            return Ok(Element::End);
        }
        if str_eq_ignore_ascii_case(s, "nop") {
            proof {
                assert("nop"@ =~= seq!['n', 'o', 'p']);
            }
            return Ok(Element::Nop);
        }
        proof {
            assert(!eq_ignore_ascii_case_seq(s@, seq!['r', 'e', 't', 'u', 'r', 'n']));
            assert(!eq_ignore_ascii_case_seq(s@, seq!['e', 'n', 'd']));
            assert(!eq_ignore_ascii_case_seq(s@, seq!['n', 'o', 'p']));
        }
        match parse_i32_str(s) {
            Some(i) => {
                return Ok(Element::Integer(i));
            },
            None => {},
        }
        let n: usize = s.unicode_len();
        if n >= 3 {
            let c0: char = s.get_char(0);
            let c1: char = s.get_char(1);
            let c2: char = s.get_char(2);
            if c0 == 'f' && c1 == 'n' && c2 == ' ' {
                proof {
                    assert(s@.subrange(0, 3) =~= seq!['f', 'n', ' ']);
                }
                if n == 3 {
                    return Err(Error::InvalidName);
                }
                let name: &'a str = s.substring_char(3, n);
                if check_name(name) {
                    return Ok(Element::Function(name));
                } else {
                    return Err(Error::InvalidName);
                }
            } else {
                proof {
                    assert(s@.subrange(0, 3)[0] == s@[0]);
                    assert(s@.subrange(0, 3)[1] == s@[1]);
                    assert(s@.subrange(0, 3)[2] == s@[2]);
                }
            }
        }
        Err(Error::SyntaxError)
    }

    /// Render the element back to its canonical textual line.
    pub fn to_string(&self) -> (r: String)
        ensures
            r@ == render_elem(self@),
    {
        match self {
            Element::Nop => {
                let s = String::from_str("nop");
                proof {
                    reveal_strlit("nop");
                    assert(s@ =~= seq!['n', 'o', 'p']);
                }
                s
            },
            Element::End => {
                let s = String::from_str("end");
                proof {
                    reveal_strlit("end");
                    assert(s@ =~= seq!['e', 'n', 'd']);
                }
                s
            },
            Element::Return => {
                let s = String::from_str("return");
                proof {
                    reveal_strlit("return");
                    assert(s@ =~= seq!['r', 'e', 't', 'u', 'r', 'n']);
                }
                s
            },
            Element::Function(name) => {
                let mut s = String::from_str("fn ");
                proof {
                    reveal_strlit("fn ");
                    assert(s@ =~= seq!['f', 'n', ' ']);
                }
                s.append(name);
                s
            },
            Element::Integer(i) => integer_to_string(*i),
        }
    }
}

} // verus!
