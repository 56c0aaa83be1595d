//! Facts about UTF-8 that let byte-level scanning be stated over characters.
//!
//! A `&str` is viewed as a sequence of characters, but it is scanned through
//! its bytes. The lemmas here carry what a scan learns about the bytes over
//! to the characters they encode.

use vstd::prelude::*;
use vstd::utf8::*;

verus! {

/// Encoding distributes over concatenation.
pub proof fn lemma_encode_concat(a: Seq<char>, b: Seq<char>)
    ensures
        encode_utf8(a + b) == encode_utf8(a) + encode_utf8(b),
    decreases a.len(),
{
    if a.len() > 0 {
        lemma_encode_concat(a.drop_first(), b);
        assert((a + b).drop_first() =~= a.drop_first() + b);
    }
}

/// Two character sequences with the same encoding are the same sequence.
pub proof fn lemma_encode_injective(a: Seq<char>, b: Seq<char>)
    requires
        encode_utf8(a) == encode_utf8(b),
    ensures
        a == b,
{
    encode_utf8_decode_utf8(a);
    encode_utf8_decode_utf8(b);
}

/// An ASCII character is encoded as the single byte of the same value.
pub proof fn lemma_encode_ascii(c: char)
    requires
        (c as u32) < 128,
    ensures
        encode_utf8(seq![c]) == seq![c as u8],
{
    let v = c as u32;
    assert((v & 0x7F) as u8 == v as u8) by (bit_vector)
        requires
            v < 128,
    ;
    assert(encode_utf8(seq![c].drop_first()) =~= Seq::<u8>::empty());
}

/// The only character sequence encoded as one ASCII byte is that one character.
pub proof fn lemma_single_ascii_byte(chars: Seq<char>, c: char)
    requires
        (c as u32) < 128,
        encode_utf8(chars) == seq![c as u8],
    ensures
        chars == seq![c],
{
    lemma_encode_ascii(c);
    lemma_encode_injective(chars, seq![c]);
}

/// An ASCII character at position `k` shows as its own byte, right behind the
/// encoding of the characters before it.
pub proof fn lemma_ascii_char_has_byte(chars: Seq<char>, k: int)
    requires
        0 <= k < chars.len(),
        (chars[k] as u32) < 128,
    ensures
        encode_utf8(chars.subrange(0, k)).len() < encode_utf8(chars).len(),
        encode_utf8(chars)[encode_utf8(chars.subrange(0, k)).len() as int] == chars[k] as u8,
{
    let before = chars.subrange(0, k);
    let after = chars.subrange(k + 1, chars.len() as int);
    assert(chars =~= before + seq![chars[k]] + after);
    lemma_encode_concat(before + seq![chars[k]], after);
    lemma_encode_concat(before, seq![chars[k]]);
    lemma_encode_ascii(chars[k]);
}

/// Where no byte of an encoding is the ASCII byte of `c`, no character is `c`.
pub proof fn lemma_byte_absent_char_absent(chars: Seq<char>, c: char)
    requires
        (c as u32) < 128,
        forall|j: int| 0 <= j < encode_utf8(chars).len() ==> encode_utf8(chars)[j] != c as u8,
    ensures
        forall|k: int| 0 <= k < chars.len() ==> chars[k] != c,
{
    assert forall|k: int| 0 <= k < chars.len() implies chars[k] != c by {
        if chars[k] == c {
            lemma_ascii_char_has_byte(chars, k);
        }
    }
}

/// A position that holds an ASCII byte is a character boundary, and so is the
/// position behind it.
pub proof fn lemma_ascii_byte_boundaries(chars: Seq<char>, i: int)
    requires
        0 <= i < encode_utf8(chars).len(),
        encode_utf8(chars)[i] < 128,
    ensures
        is_char_boundary(encode_utf8(chars), i),
        is_char_boundary(encode_utf8(chars), i + 1),
{
    let bytes = encode_utf8(chars);
    encode_utf8_valid_utf8(chars);
    is_char_boundary_iff_not_is_continuation_byte(bytes, i);
    if i + 1 == bytes.len() {
        is_char_boundary_start_end_of_seq(bytes);
    } else {
        let tail = bytes.subrange(i, bytes.len() as int);
        valid_utf8_split(bytes, i);
        assert(is_char_boundary(tail, 1)) by {
            reveal_with_fuel(is_char_boundary, 2);
        }
        // The byte behind an ASCII byte starts a character of the tail, hence of the whole.
        is_char_boundary_iff_not_is_continuation_byte(tail, 1);
        is_char_boundary_iff_not_is_continuation_byte(bytes, i + 1);
    }
}

/// What the halves of a string split at a character boundary hold, as characters.
pub proof fn lemma_split_chars(whole: Seq<char>, left: Seq<char>, right: Seq<char>, mid: int)
    requires
        0 <= mid <= encode_utf8(whole).len(),
        encode_utf8(left) == encode_utf8(whole).subrange(0, mid),
        encode_utf8(right) == encode_utf8(whole).subrange(mid, encode_utf8(whole).len() as int),
    ensures
        whole == left + right,
{
    let bytes = encode_utf8(whole);
    assert(bytes =~= bytes.subrange(0, mid) + bytes.subrange(mid, bytes.len() as int));
    lemma_encode_concat(left, right);
    lemma_encode_injective(whole, left + right);
}

/// A well-formed byte sequence that opens another ends on one of its
/// character boundaries.
pub proof fn lemma_prefix_boundary(prefix: Seq<u8>, bytes: Seq<u8>)
    requires
        valid_utf8(prefix),
        valid_utf8(bytes),
        prefix.len() <= bytes.len(),
        bytes.subrange(0, prefix.len() as int) == prefix,
    ensures
        is_char_boundary(bytes, prefix.len() as int),
    decreases prefix.len(),
{
    if prefix.len() > 0 {
        let shorter = pop_first_scalar(prefix);
        let rest = pop_first_scalar(bytes);
        assert(rest.subrange(0, shorter.len() as int) =~= shorter) by {
            assert forall|j: int| 0 <= j < shorter.len() implies rest[j] == shorter[j] by {
                let at = j + length_of_first_scalar(prefix);
                assert(bytes[at] == bytes.subrange(0, prefix.len() as int)[at]);
            }
        }
        lemma_prefix_boundary(shorter, rest);
    }
}

} // verus!
