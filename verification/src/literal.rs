//! Plain substring matching, with or without regard to letter case.

use vstd::prelude::*;
use vstd::string::StringSliceAdditionalSpecFns;
use vstd::utf8::{
    decode_utf8_split, encode_utf8, encode_utf8_decode_utf8, encode_utf8_valid_utf8,
    is_char_boundary_iff_not_is_continuation_byte, valid_utf8_split,
};
use crate::encoding::{lemma_encode_concat, lemma_prefix_boundary};

verus! {

/// `needle` stands in `hay` from position `at` on.
pub open spec fn occurs_at<T>(needle: Seq<T>, hay: Seq<T>, at: int) -> bool {
    &&& 0 <= at
    &&& at + needle.len() <= hay.len()
    &&& hay.subrange(at, at + needle.len()) == needle
}

/// `needle` is a contiguous part of `hay`.
pub open spec fn occurs_in<T>(needle: Seq<T>, hay: Seq<T>) -> bool {
    exists|at: int| occurs_at(needle, hay, at)
}

/// The lowercase equivalent of a text, as `str::to_lowercase` gives it.
pub uninterp spec fn lowercase(text: Seq<char>) -> Seq<char>;

/// `str::to_lowercase` returns the lowercase equivalent of the string as a
/// new `String`; which characters that changes, and into what, is left to
/// the standard library and only named here.
pub assume_specification[ str::to_lowercase ](s: &str) -> (lowered: String)
    ensures
        lowered@ == lowercase(s@),
;

/// A text as it takes part in a comparison: itself where case counts, its
/// lowercase equivalent where it does not.
pub open spec fn folded(text: Seq<char>, case_sensitive: bool) -> Seq<char> {
    if case_sensitive {
        text
    } else {
        lowercase(text)
    }
}

/// `line` contains `query` as a substring, both sides folded alike.
pub open spec fn literal_match(query: Seq<char>, line: Seq<char>, case_sensitive: bool) -> bool {
    occurs_in(folded(query, case_sensitive), folded(line, case_sensitive))
}

/// An occurrence among the characters is an occurrence among the bytes.
pub proof fn lemma_occurrence_in_bytes(needle: Seq<char>, hay: Seq<char>)
    requires
        occurs_in(needle, hay),
    ensures
        occurs_in(encode_utf8(needle), encode_utf8(hay)),
{
    let at = choose|at: int| occurs_at(needle, hay, at);
    let before = hay.subrange(0, at);
    let after = hay.subrange(at + needle.len(), hay.len() as int);
    assert(hay =~= before + hay.subrange(at, at + needle.len()) + after);
    lemma_encode_concat(before + needle, after);
    lemma_encode_concat(before, needle);
    let start = encode_utf8(before).len() as int;
    assert(encode_utf8(hay).subrange(start, start + encode_utf8(needle).len()) =~= encode_utf8(
        needle,
    ));
    assert(occurs_at(encode_utf8(needle), encode_utf8(hay), start));
}

/// An occurrence among the bytes is an occurrence among the characters: no
/// encoded text can start or end in the middle of a character of another.
pub proof fn lemma_occurrence_in_chars(needle: Seq<char>, hay: Seq<char>)
    requires
        occurs_in(encode_utf8(needle), encode_utf8(hay)),
    ensures
        occurs_in(needle, hay),
{
    if needle.len() == 0 {
        assert(hay.subrange(0, 0) =~= needle);
        assert(occurs_at(needle, hay, 0));
    } else {
        let part = encode_utf8(needle);
        let bytes = encode_utf8(hay);
        let at = choose|at: int| occurs_at(part, bytes, at);
        encode_utf8_valid_utf8(needle);
        encode_utf8_valid_utf8(hay);
        is_char_boundary_iff_not_is_continuation_byte(bytes, at);
        let head = bytes.subrange(0, at);
        let tail = bytes.subrange(at, bytes.len() as int);
        valid_utf8_split(bytes, at);
        decode_utf8_split(bytes, at);
        assert(tail.subrange(0, part.len() as int) =~= part);
        lemma_prefix_boundary(part, tail);
        decode_utf8_split(tail, part.len() as int);
        encode_utf8_decode_utf8(needle);
        encode_utf8_decode_utf8(hay);
        let before = vstd::utf8::decode_utf8(head);
        let after = vstd::utf8::decode_utf8(tail.subrange(part.len() as int, tail.len() as int));
        assert(hay =~= before + needle + after);
        assert(hay.subrange(before.len() as int, (before.len() + needle.len()) as int) =~= needle);
        assert(occurs_at(needle, hay, before.len() as int));
    }
}

/// Whether `needle` stands in `hay` at byte position `at`.
fn bytes_match_at(hay: &[u8], needle: &[u8], at: usize) -> (b: bool)
    requires
        at + needle@.len() <= hay@.len(),
    ensures
        b == occurs_at(needle@, hay@, at as int),
{
    let len = hay.len();
    let mut i: usize = 0;
    while i < needle.len()
        invariant
            i <= needle@.len(),
            at + needle@.len() <= hay@.len(),
            hay@.len() == len,
            forall|j: int| 0 <= j < i ==> hay@[at + j] == needle@[j],
        decreases needle@.len() - i,
    {
        if hay[at + i] != needle[i] {
            return false;
        }
        i = i + 1;
    }
    assert(hay@.subrange(at as int, at + needle@.len()) =~= needle@);
    true
}

/// Whether `hay` contains `needle` as a substring. The empty string is
/// contained in every string.
pub fn contains(hay: &str, needle: &str) -> (b: bool)
    ensures
        b == occurs_in(needle@, hay@),
{
    let h = hay.as_bytes();
    let n = needle.as_bytes();
    if n.len() > h.len() {
        proof {
            if occurs_in(needle@, hay@) {
                lemma_occurrence_in_bytes(needle@, hay@);
            }
        }
        return false;
    }
    if n.len() == 0 {
        proof {
            assert(occurs_at(n@, h@, 0)) by {
                assert(h@.subrange(0, 0) =~= n@);
            }
            lemma_occurrence_in_chars(needle@, hay@);
        }
        return true;
    }
    let starts = h.len() - n.len() + 1;
    let mut at: usize = 0;
    while at < starts
        invariant
            h@ == hay.spec_bytes(),
            n@ == needle.spec_bytes(),
            starts == h@.len() - n@.len() + 1,
            at <= starts,
            forall|j: int| 0 <= j < at ==> !occurs_at(n@, h@, j),
        decreases starts - at,
    {
        if bytes_match_at(h, n, at) {
            proof {
                lemma_occurrence_in_chars(needle@, hay@);
            }
            return true;
        }
        at = at + 1;
    }
    proof {
        if occurs_in(needle@, hay@) {
            lemma_occurrence_in_bytes(needle@, hay@);
        }
    }
    false
}

} // verus!
