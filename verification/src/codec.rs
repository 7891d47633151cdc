//! UTF-8 encoding of single characters, decoding of the character that starts at a
//! position of a [`DeVec`], and the Unicode `White_Space` property, together with the
//! facts about vstd's `encode_utf8` / `decode_utf8` that the string operations rest on.
use vstd::prelude::*;
use vstd::utf8::*;

use crate::devec::DeVec;
use crate::std_calls::char_from_u32;

verus! {

broadcast use vstd::seq::group_seq_axioms;

/// True for the characters that have the Unicode `White_Space` property:
/// U+0009..U+000D, U+0020, U+0085, U+00A0, U+1680, U+2000..U+200A, U+2028, U+2029,
/// U+202F, U+205F and U+3000.
pub open spec fn is_whitespace_char(c: char) -> bool {
    let v = c as u32;
    ||| 0x09 <= v <= 0x0D
    ||| v == 0x20
    ||| v == 0x85
    ||| v == 0xA0
    ||| v == 0x1680
    ||| 0x2000 <= v <= 0x200A
    ||| v == 0x2028
    ||| v == 0x2029
    ||| v == 0x202F
    ||| v == 0x205F
    ||| v == 0x3000
}

/// Whether `c` has the Unicode `White_Space` property.
pub fn is_whitespace(c: char) -> (b: bool)
    ensures
        b == is_whitespace_char(c),
{
    let v = c as u32;
    (0x09 <= v && v <= 0x0D) || v == 0x20 || v == 0x85 || v == 0xA0 || v == 0x1680 || (0x2000
        <= v && v <= 0x200A) || v == 0x2028 || v == 0x2029 || v == 0x202F || v == 0x205F || v
        == 0x3000
}

/// The UTF-8 encoding of a sequence is the encodings of its two parts, one after the other.
pub proof fn lemma_encode_concat(a: Seq<char>, b: Seq<char>)
    ensures
        encode_utf8(a + b) == encode_utf8(a) + encode_utf8(b),
    decreases a.len(),
{
    if a.len() == 0 {
        assert(a + b =~= b);
        assert(encode_utf8(a) + encode_utf8(b) =~= encode_utf8(b));
    } else {
        lemma_encode_concat(a.drop_first(), b);
        assert((a + b).drop_first() =~= a.drop_first() + b);
        assert(encode_utf8(a + b) =~= encode_utf8(a) + encode_utf8(b));
    }
}

/// The UTF-8 encoding of a single character is the encoding of its scalar value.
pub proof fn lemma_encode_single(c: char)
    ensures
        encode_utf8(seq![c]) == encode_scalar(c as u32),
{
    reveal_with_fuel(encode_utf8, 2);
    assert(seq![c].drop_first() =~= Seq::<char>::empty());
    assert(encode_utf8(seq![c]) =~= encode_scalar(c as u32) + Seq::<u8>::empty());
}

/// Decoding the concatenation of two valid UTF-8 sequences gives the two decodings,
/// one after the other, and the concatenation is valid.
pub proof fn lemma_decode_concat(b1: Seq<u8>, b2: Seq<u8>)
    requires
        valid_utf8(b1),
        valid_utf8(b2),
    ensures
        valid_utf8(b1 + b2),
        decode_utf8(b1 + b2) == decode_utf8(b1) + decode_utf8(b2),
{
    broadcast use encode_utf8_valid_utf8, encode_utf8_decode_utf8, decode_utf8_encode_utf8;

    let c1 = decode_utf8(b1);
    let c2 = decode_utf8(b2);
    lemma_encode_concat(c1, c2);
    assert(b1 + b2 == encode_utf8(c1 + c2));
}

/// The encoding of a single character is valid UTF-8 and decodes to that character.
pub proof fn lemma_scalar_decodes(c: char)
    ensures
        valid_utf8(encode_scalar(c as u32)),
        decode_utf8(encode_scalar(c as u32)) == seq![c],
{
    broadcast use encode_utf8_valid_utf8, encode_utf8_decode_utf8;

    lemma_encode_single(c);
}

/// A valid UTF-8 sequence is empty exactly when it decodes to no characters.
pub proof fn lemma_decode_empty(b: Seq<u8>)
    requires
        valid_utf8(b),
    ensures
        (decode_utf8(b).len() == 0) == (b.len() == 0),
{
    broadcast use decode_utf8_encode_utf8;

    if decode_utf8(b).len() == 0 {
        assert(decode_utf8(b) =~= Seq::<char>::empty());
        assert(encode_utf8(decode_utf8(b)) =~= Seq::<u8>::empty());
    }
}

/// Decoding a non-empty valid sequence gives its first scalar followed by the decoding of
/// the rest.
pub proof fn lemma_decode_first(b: Seq<u8>)
    requires
        valid_utf8(b),
        b.len() > 0,
    ensures
        valid_first_scalar(b),
        valid_utf8(pop_first_scalar(b)),
        decode_utf8(b) == seq![decode_first_scalar(b) as char] + decode_utf8(pop_first_scalar(b)),
        1 <= length_of_first_scalar(b) <= b.len(),
{
}

/// The four data bits of a three-byte leading byte and the twelve bits of its two
/// continuation bytes make a value below 0x10000; the bits of a two-byte encoding make a
/// value below 0x800.
proof fn lemma_codepoint_bounds(b1: u8, b2: u8, b3: u8)
    by (bit_vector)
    ensures
        codepoint_width_1(b1) <= 0x7F,
        codepoint_width_2(b1, b2) <= 0x7FF,
        codepoint_width_3(b1, b2, b3) <= 0xFFFF,
{
}

/// What a well-formed first scalar decodes to is a Unicode scalar value.
pub proof fn lemma_first_scalar_is_scalar(b: Seq<u8>)
    requires
        valid_first_scalar(b),
    ensures
        is_scalar(decode_first_scalar(b)),
{
    if is_leading_byte_width_1(b[0]) {
        lemma_codepoint_bounds(b[0], 0, 0);
    } else if is_leading_byte_width_2(b[0]) {
        lemma_codepoint_bounds(b[0], b[1], 0);
    } else if is_leading_byte_width_3(b[0]) {
        lemma_codepoint_bounds(b[0], b[1], b[2]);
    } else {
    }
}

/// The UTF-8 encoding of `c`, as a vector of one to four bytes.
pub fn encode_char(c: char) -> (r: Vec<u8>)
    ensures
        r@ == encode_scalar(c as u32),
        1 <= r@.len() <= 4,
{
    let v = c as u32;
    let mut r: Vec<u8> = Vec::new();
    if v <= 0x7F {
        r.push((v & 0x7F) as u8);
    } else if v <= 0x7FF {
        r.push(0xC0 | ((v >> 6) & 0x1F) as u8);
        r.push(0x80 | (v & 0x3F) as u8);
    } else if v <= 0xFFFF {
        proof {
            broadcast use char_is_scalar;
            assert(is_scalar(v));
        }
        r.push(0xE0 | ((v >> 12) & 0x0F) as u8);
        r.push(0x80 | ((v >> 6) & 0x3F) as u8);
        r.push(0x80 | (v & 0x3F) as u8);
    } else {
        proof {
            broadcast use char_is_scalar;
            assert(is_scalar(v));
        }
        r.push(0xF0 | ((v >> 18) & 0x7) as u8);
        r.push(0x80 | ((v >> 12) & 0x3F) as u8);
        r.push(0x80 | ((v >> 6) & 0x3F) as u8);
        r.push(0x80 | (v & 0x3F) as u8);
    }
    assert(r@ =~= encode_scalar(v));
    r
}

/// Decodes the character whose encoding starts at live position `pos` of `bytes`, where
/// the bytes from `pos` up to `limit` begin with a well-formed encoding of one scalar.
/// Returns the character and the number of bytes its encoding takes.
pub fn decode_char_at(bytes: &DeVec, pos: usize, limit: usize) -> (r: (char, usize))
    requires
        pos < limit <= bytes@.len(),
        valid_first_scalar(bytes@.subrange(pos as int, limit as int)),
    ensures
        r.0 == decode_first_scalar(bytes@.subrange(pos as int, limit as int)) as char,
        r.1 == length_of_first_scalar(bytes@.subrange(pos as int, limit as int)),
        1 <= r.1 <= 4,
        pos + r.1 <= limit,
{
    let ghost s = bytes@.subrange(pos as int, limit as int);
    let b0 = bytes.get(pos);
    let v: u32;
    let w: usize;
    if b0 <= 0x7f {
        v = (b0 & 0x7F) as u32;
        w = 1;
    } else if 0xc0 <= b0 && b0 <= 0xdf {
        let b1 = bytes.get(pos + 1);
        v = (((b0 & 0x1F) as u32) << 6) | ((b1 & 0x3f) as u32);
        w = 2;
    } else if 0xe0 <= b0 && b0 <= 0xef {
        let b1 = bytes.get(pos + 1);
        let b2 = bytes.get(pos + 2);
        v = (((b0 & 0x0F) as u32) << 12) | (((b1 & 0x3f) as u32) << 6) | ((b2 & 0x3f) as u32);
        w = 3;
    } else {
        let b1 = bytes.get(pos + 1);
        let b2 = bytes.get(pos + 2);
        let b3 = bytes.get(pos + 3);
        v = (((b0 & 0x07) as u32) << 18) | (((b1 & 0x3f) as u32) << 12) | (((b2 & 0x3f) as u32)
            << 6) | ((b3 & 0x3f) as u32);
        w = 4;
    }
    assert(v == decode_first_scalar(s));
    proof {
        lemma_first_scalar_is_scalar(s);
    }
    match char_from_u32(v) {
        Some(c) => {
            proof {
                char_u32_cast(c, v);
            }
            (c, w)
        },
        None => {
            proof {
                assert(false);
            }
            ('\0', w)
        },
    }
}

} // verus!
