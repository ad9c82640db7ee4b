//! UTF-8 decoding of input bytes.
//!
//! The engine's streams are characters; hosts hand it raw bytes. `decode_text`
//! turns bytes into characters exactly when they are valid UTF-8 and reports
//! `InvalidEncoding` otherwise, against vstd's specification of UTF-8.

use vstd::prelude::*;
use vstd::utf8::{
    decode_first_codepoint, decode_first_scalar, decode_utf8, is_continuation_byte, is_scalar,
    length_of_first_codepoint, length_of_first_scalar, not_overlong_encoding, not_surrogate,
    partial_valid_partial_invalid_utf8, partial_valid_utf8, partial_valid_utf8_extend,
    pop_first_scalar, valid_first_scalar, valid_leading_and_continuation_bytes_first_codepoint,
    valid_utf8,
};
use vstd::utf8::{decode_utf8_split, is_char_boundary, is_char_boundary_iff_not_is_continuation_byte};

use crate::error::LayoutError;

verus! {

/// Relies on `char::from_u32`: it returns the character with the given value
/// exactly when that value is a Unicode scalar — not a surrogate and at most
/// `char::MAX` — and `None` otherwise.
pub assume_specification[ char::from_u32 ](v: u32) -> (r: Option<char>)
    ensures
        r == if is_scalar(v) {
            Some(v as char)
        } else {
            None::<char>
        },
;

/// Parse the UTF-8 scalar encoded at position `i`. Returns the scalar value
/// and the width of its encoding, or `None` when the bytes at `i` do not
/// begin a well-formed scalar encoding.
fn parse_scalar(bytes: &Vec<u8>, i: usize) -> (r: Option<(u32, usize)>)
    requires
        i < bytes@.len(),
    ensures
        ({
            let tail = bytes@.subrange(i as int, bytes@.len() as int);
            match r {
                Some(parsed) => {
                    let scal = bytes@.subrange(i as int, i + parsed.1 as int);
                    &&& valid_first_scalar(tail)
                    &&& parsed.0 == decode_first_scalar(tail)
                    &&& parsed.1 == length_of_first_scalar(tail)
                    &&& is_scalar(parsed.0)
                    &&& 1 <= parsed.1 <= tail.len()
                    &&& valid_utf8(scal)
                    &&& decode_utf8(scal) == seq![parsed.0 as char]
                },
                None => !valid_first_scalar(tail),
            }
        }),
{
    let ghost tail = bytes@.subrange(i as int, bytes@.len() as int);
    let n: usize = bytes.len();
    let b0 = bytes[i];
    proof {
        assert(tail[0] == b0);
    }
    if b0 <= 0x7f {
        let cp: u32 = (b0 & 0x7f) as u32;
        proof {
            assert(b0 <= 0x7f ==> (b0 & 0x7f) == b0) by (bit_vector);
            lemma_scalar_shape(bytes@, i as int, cp, 1);
        }
        Some((cp, 1))
    } else if 0xc0 <= b0 && b0 <= 0xdf {
        if n - i < 2 {
            return None;
        }
        let b1 = bytes[i + 1];
        proof {
            assert(tail[1] == b1);
        }
        if !(0x80 <= b1 && b1 <= 0xbf) {
            return None;
        }
        let cp: u32 = (((b0 & 0x1f) as u32) << 6u32) | ((b1 & 0x3f) as u32);
        proof {
            assert(cp == decode_first_codepoint(tail));
            assert((((b0 & 0x1f) as u32) << 6u32) | ((b1 & 0x3f) as u32) <= 0x7ff) by (bit_vector);
        }
        if cp < 0x80 {
            return None;
        }
        proof {
            lemma_scalar_shape(bytes@, i as int, cp, 2);
        }
        Some((cp, 2))
    } else if 0xe0 <= b0 && b0 <= 0xef {
        if n - i < 3 {
            return None;
        }
        let b1 = bytes[i + 1];
        let b2 = bytes[i + 2];
        proof {
            assert(tail[1] == b1);
            assert(tail[2] == b2);
        }
        if !(0x80 <= b1 && b1 <= 0xbf) || !(0x80 <= b2 && b2 <= 0xbf) {
            return None;
        }
        let cp: u32 = (((b0 & 0x0f) as u32) << 12u32) | (((b1 & 0x3f) as u32) << 6u32) | ((b2
            & 0x3f) as u32);
        proof {
            assert(cp == decode_first_codepoint(tail));
            assert((((b0 & 0x0f) as u32) << 12u32) | (((b1 & 0x3f) as u32) << 6u32) | ((b2
                & 0x3f) as u32) <= 0xffff) by (bit_vector);
        }
        if cp < 0x800 || (0xd800 <= cp && cp <= 0xdfff) {
            return None;
        }
        proof {
            lemma_scalar_shape(bytes@, i as int, cp, 3);
        }
        Some((cp, 3))
    } else if 0xf0 <= b0 && b0 <= 0xf7 {
        if n - i < 4 {
            return None;
        }
        let b1 = bytes[i + 1];
        let b2 = bytes[i + 2];
        let b3 = bytes[i + 3];
        proof {
            assert(tail[1] == b1);
            assert(tail[2] == b2);
            assert(tail[3] == b3);
        }
        if !(0x80 <= b1 && b1 <= 0xbf) || !(0x80 <= b2 && b2 <= 0xbf) || !(0x80 <= b3 && b3
            <= 0xbf) {
            return None;
        }
        let cp: u32 = (((b0 & 0x07) as u32) << 18u32) | (((b1 & 0x3f) as u32) << 12u32) | (((b2
            & 0x3f) as u32) << 6u32) | ((b3 & 0x3f) as u32);
        proof {
            assert(cp == decode_first_codepoint(tail));
        }
        if cp < 0x10000 || cp > 0x10ffff {
            return None;
        }
        proof {
            lemma_scalar_shape(bytes@, i as int, cp, 4);
        }
        Some((cp, 4))
    } else {
        None
    }
}

/// For a well-formed leading-and-continuation prefix of width `w` decoding
/// to the scalar `cp`, the subrange holding just that encoding is valid
/// UTF-8 on its own and decodes to exactly that one character.
proof fn lemma_scalar_shape(b: Seq<u8>, i: int, cp: u32, w: int)
    requires
        0 <= i,
        i + w <= b.len(),
        valid_leading_and_continuation_bytes_first_codepoint(b.subrange(i, b.len() as int)),
        decode_first_codepoint(b.subrange(i, b.len() as int)) == cp,
        length_of_first_codepoint(b.subrange(i, b.len() as int)) == w,
        not_overlong_encoding(cp, w),
        not_surrogate(cp),
        is_scalar(cp),
    ensures
        valid_first_scalar(b.subrange(i, b.len() as int)),
        decode_first_scalar(b.subrange(i, b.len() as int)) == cp,
        length_of_first_scalar(b.subrange(i, b.len() as int)) == w,
        valid_utf8(b.subrange(i, i + w)),
        decode_utf8(b.subrange(i, i + w)) == seq![cp as char],
{
    let tail = b.subrange(i, b.len() as int);
    let scal = b.subrange(i, i + w);
    assert(scal.len() == w);
    assert forall|k: int| 0 <= k < w implies scal[k] == tail[k] by {
        assert(scal[k] == b[i + k]);
        assert(tail[k] == b[i + k]);
    }
    assert(valid_leading_and_continuation_bytes_first_codepoint(scal));
    assert(decode_first_codepoint(scal) == cp);
    assert(length_of_first_codepoint(scal) == w);
    assert(valid_first_scalar(scal));
    assert(pop_first_scalar(scal) =~= Seq::<u8>::empty());
    assert(valid_utf8(Seq::<u8>::empty()));
    assert(valid_utf8(scal));
    assert(decode_utf8(Seq::<u8>::empty()) =~= Seq::<char>::empty());
    assert(decode_utf8(scal) =~= seq![cp as char]);
}

/// Decode a byte buffer as UTF-8 text. Returns the characters exactly when
/// the bytes are a valid UTF-8 encoding, and `InvalidEncoding` — with
/// nothing decoded — exactly when they are not.
pub fn decode_text(bytes: &Vec<u8>) -> (r: Result<Vec<char>, LayoutError>)
    ensures
        match r {
            Ok(cs) => valid_utf8(bytes@) && cs@ == decode_utf8(bytes@),
            Err(e) => !valid_utf8(bytes@) && e == LayoutError::InvalidEncoding,
        },
{
    let mut out: Vec<char> = Vec::new();
    let mut i: usize = 0;
    proof {
        assert(bytes@.subrange(0, 0) =~= Seq::<u8>::empty());
        assert(decode_utf8(bytes@.subrange(0, 0)) =~= Seq::<char>::empty());
    }
    while i < bytes.len()
        invariant
            i <= bytes@.len(),
            partial_valid_utf8(bytes@, i as int),
            out@ == decode_utf8(bytes@.subrange(0, i as int)),
        decreases bytes@.len() - i,
    {
        let ghost pre = i as int;
        let ghost tail = bytes@.subrange(pre, bytes@.len() as int);
        match parse_scalar(bytes, i) {
            None => {
                proof {
                    assert(!valid_utf8(tail));
                    partial_valid_partial_invalid_utf8(bytes@, pre);
                }
                return Err(LayoutError::InvalidEncoding);
            },
            Some((cp, w)) => {
                proof {
                    partial_valid_utf8_extend(bytes@, pre);
                }
                let c = match char::from_u32(cp) {
                    Some(c) => c,
                    None => {
                        proof {
                            assert(false);
                        }
                        return Err(LayoutError::InvalidEncoding);
                    },
                };
                out.push(c);
                i = i + w;
                proof {
                    let prefix = bytes@.subrange(0, i as int);
                    let scal = bytes@.subrange(pre, i as int);
                    assert(valid_utf8(prefix));
                    assert(prefix.subrange(0, pre) =~= bytes@.subrange(0, pre));
                    assert(prefix.subrange(pre, prefix.len() as int) =~= scal);
                    assert(is_char_boundary(prefix, pre)) by {
                        is_char_boundary_iff_not_is_continuation_byte(prefix, pre);
                        assert(prefix[pre] == tail[0]);
                        assert(!is_continuation_byte(tail[0]));
                    }
                    decode_utf8_split(prefix, pre);
                    assert(out@ =~= decode_utf8(bytes@.subrange(0, pre)) + decode_utf8(scal));
                    assert(out@ == decode_utf8(prefix));
                }
            },
        }
    }
    proof {
        assert(bytes@.subrange(0, bytes@.len() as int) =~= bytes@);
    }
    Ok(out)
}

} // verus!
