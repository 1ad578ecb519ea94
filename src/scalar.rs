//! Classifying single bytes and resolving a short byte run into one scalar.
use vstd::prelude::*;
use vstd::utf8::*;

verus! {

/// True when `b` can start the encoding of a scalar: it is not a continuation
/// byte of the form `10xxxxxx`.
pub open spec fn starts_scalar(b: u8) -> bool {
    b < 0x80 || b >= 0xC0
}

/// Whether `this` begins a new UTF-8 encoded scalar value rather than continuing
/// one already in progress.
#[inline]
pub fn is_utf8_char_boundary(this: u8) -> (r: bool)
    ensures
        r == starts_scalar(this),
{
    // Read as a signed byte, every value from 0x80 to 0xBF lies below -0x40.
    let signed = this as i8;
    proof {
        assert(((#[verifier::truncate] (this as i8)) >= -0x40i8) == (this < 0x80 || this >= 0xC0))
            by (bit_vector);
    }
    signed >= -0x40
}

/// The scalar that `b` encodes when `b`, as a whole, is the well-formed UTF-8
/// encoding of exactly one scalar value; `None` otherwise (bad pattern,
/// overlong form, surrogate, value past 0x10FFFF, or bytes left over or missing).
pub open spec fn scalar_of(b: Seq<u8>) -> Option<char> {
    if valid_first_scalar(b) && length_of_first_scalar(b) == b.len() {
        Some(decode_first_scalar(b) as char)
    } else {
        None
    }
}

/// Relies on `char::from_u32`: it returns the `char` with the given value
/// exactly when that value is a Unicode scalar value.
pub assume_specification[ std::char::from_u32 ](i: u32) -> (r: Option<char>)
    ensures
        r.is_some() == is_scalar(i),
        r matches Some(c) ==> c as u32 == i,
;

/// Interprets the first `n` bytes of `bytes` as the UTF-8 encoding of one scalar.
pub fn decode_scalar(bytes: &[u8; 4], n: usize) -> (r: Option<char>)
    requires
        1 <= n <= 4,
    ensures
        r == scalar_of(bytes@.take(n as int)),
{
    let ghost b = bytes@.take(n as int);
    let b0 = bytes[0];
    let v: u32;
    if b0 <= 0x7F {
        if n != 1 {
            return None;
        }
        v = (b0 & 0x7F) as u32;
        assert(v <= 0x7F) by (bit_vector)
            requires v == (b0 & 0x7F) as u32;
    } else if 0xC0 <= b0 && b0 <= 0xDF {
        if n != 2 || !(0x80 <= bytes[1] && bytes[1] <= 0xBF) {
            return None;
        }
        let b1 = bytes[1];
        v = (((b0 & 0x1F) as u32) << 6) | ((b1 & 0x3F) as u32);
        if v < 0x80 {
            return None;
        }
        assert(v <= 0x7FF) by (bit_vector)
            requires v == (((b0 & 0x1F) as u32) << 6) | ((b1 & 0x3F) as u32);
    } else if 0xE0 <= b0 && b0 <= 0xEF {
        if n != 3 || !(0x80 <= bytes[1] && bytes[1] <= 0xBF) || !(0x80 <= bytes[2] && bytes[2]
            <= 0xBF) {
            return None;
        }
        let b1 = bytes[1];
        let b2 = bytes[2];
        v = (((b0 & 0x0F) as u32) << 12) | (((b1 & 0x3F) as u32) << 6) | ((b2 & 0x3F) as u32);
        if v < 0x800 || (0xD800 <= v && v <= 0xDFFF) {
            return None;
        }
        assert(v <= 0xFFFF) by (bit_vector)
            requires
                v == (((b0 & 0x0F) as u32) << 12) | (((b1 & 0x3F) as u32) << 6) | ((b2
                    & 0x3F) as u32),
        ;
    } else if 0xF0 <= b0 && b0 <= 0xF7 {
        if n != 4 || !(0x80 <= bytes[1] && bytes[1] <= 0xBF) || !(0x80 <= bytes[2] && bytes[2]
            <= 0xBF) || !(0x80 <= bytes[3] && bytes[3] <= 0xBF) {
            return None;
        }
        let b1 = bytes[1];
        let b2 = bytes[2];
        let b3 = bytes[3];
        v = (((b0 & 0x07) as u32) << 18) | (((b1 & 0x3F) as u32) << 12) | (((b2 & 0x3F) as u32)
            << 6) | ((b3 & 0x3F) as u32);
        if v < 0x10000 || v > 0x10FFFF {
            return None;
        }
    } else {
        return None;
    }
    assert(decode_first_scalar(b) == v);
    let r = std::char::from_u32(v);
    proof {
        if let Some(c) = r {
            char_u32_cast(c, v);
        }
    }
    r
}

} // verus!
