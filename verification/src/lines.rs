//! Splitting a text into its lines.

use vstd::prelude::*;
use vstd::string::StringSliceAdditionalSpecFns;
use vstd::utf8::{encode_utf8_valid_utf8, is_char_boundary};
use crate::encoding::{
    lemma_ascii_byte_boundaries, lemma_byte_absent_char_absent, lemma_encode_ascii,
    lemma_encode_concat, lemma_single_ascii_byte, lemma_split_chars,
};

verus! {

/// The number of characters before the first line feed of `text`: its whole
/// length where it holds none.
pub open spec fn first_line_feed(text: Seq<char>) -> nat
    decreases text.len(),
{
    if text.len() == 0 || text[0] == '\n' {
        0
    } else {
        1 + first_line_feed(text.drop_first())
    }
}

/// A line as it stood before its line feed, without the carriage return that
/// may close it.
pub open spec fn without_carriage_return(line: Seq<char>) -> Seq<char> {
    if line.len() > 0 && line.last() == '\r' {
        line.drop_last()
    } else {
        line
    }
}

/// The lines of `text`, in order.
///
/// A line ends at a line feed, or at a carriage return directly followed by a
/// line feed; neither belongs to the line. What follows the last line feed is
/// a line of its own unless it is empty, so a text that ends in a line feed
/// has no empty last line, and the empty text has no line at all.
pub open spec fn split_lines(text: Seq<char>) -> Seq<Seq<char>>
    decreases text.len(),
{
    if text.len() == 0 {
        Seq::empty()
    } else {
        let end = first_line_feed(text) as int;
        if end < text.len() {
            seq![without_carriage_return(text.subrange(0, end))] + split_lines(
                text.subrange(end + 1, text.len() as int),
            )
        } else {
            seq![text]
        }
    }
}

/// `first_line_feed` is the one position with a line feed on it and none before it.
pub proof fn lemma_first_line_feed(text: Seq<char>, end: int)
    requires
        0 <= end <= text.len(),
        forall|j: int| 0 <= j < end ==> text[j] != '\n',
        end < text.len() ==> text[end] == '\n',
    ensures
        first_line_feed(text) == end,
    decreases text.len(),
{
    if end > 0 {
        lemma_first_line_feed(text.drop_first(), end - 1);
    }
}

/// `first_line_feed` never passes the end of the text, and stops on a line
/// feed where it stops before the end.
pub proof fn lemma_first_line_feed_found(text: Seq<char>)
    ensures
        first_line_feed(text) <= text.len(),
        first_line_feed(text) < text.len() ==> text[first_line_feed(text) as int] == '\n',
        forall|j: int| 0 <= j < first_line_feed(text) ==> text[j] != '\n',
    decreases text.len(),
{
    if text.len() > 0 && text[0] != '\n' {
        let rest = text.drop_first();
        lemma_first_line_feed_found(rest);
        assert forall|j: int| 0 <= j < first_line_feed(text) implies text[j] != '\n' by {
            if j > 0 {
                assert(text[j] == rest[j - 1]);
            }
        }
    }
}

/// A line feed that closes the text adds no line: a text that ends in the
/// middle of a line has the same lines with the closing line feed as
/// without it.
pub proof fn lemma_closing_line_feed(text: Seq<char>)
    requires
        text.len() > 0,
        text.last() != '\n',
        text.last() != '\r',
    ensures
        split_lines(text.push('\n')) == split_lines(text),
    decreases text.len(),
{
    let closed = text.push('\n');
    let end = first_line_feed(text) as int;
    lemma_first_line_feed_found(text);
    lemma_first_line_feed(closed, end);
    assert(closed.subrange(0, end) =~= text.subrange(0, end));
    if end < text.len() {
        let rest = text.subrange(end + 1, text.len() as int);
        assert(closed.subrange(end + 1, closed.len() as int) =~= rest.push('\n'));
        lemma_closing_line_feed(rest);
    } else {
        assert(text.subrange(0, end) =~= text);
        assert(closed.subrange(end + 1, closed.len() as int) =~= Seq::<char>::empty());
        assert(split_lines(Seq::<char>::empty()) =~= Seq::<Seq<char>>::empty());
    }
}

/// The first position of `bytes` that holds `byte`, or the length of `bytes`.
fn find_byte(bytes: &[u8], byte: u8) -> (at: usize)
    ensures
        at <= bytes@.len(),
        forall|j: int| 0 <= j < at ==> bytes@[j] != byte,
        at < bytes@.len() ==> bytes@[at as int] == byte,
{
    let mut at: usize = 0;
    while at < bytes.len() && bytes[at] != byte
        invariant
            at <= bytes@.len(),
            forall|j: int| 0 <= j < at ==> bytes@[j] != byte,
        decreases bytes@.len() - at,
    {
        at = at + 1;
    }
    at
}

/// Takes a closing carriage return off `line`.
fn trim_carriage_return<'a>(line: &'a str) -> (trimmed: &'a str)
    ensures
        trimmed@ == without_carriage_return(line@),
{
    let bytes = line.as_bytes();
    let n = bytes.len();
    if n > 0 && bytes[n - 1] == 13u8 {
        proof {
            lemma_ascii_byte_boundaries(line@, n - 1);
        }
        let (head, cr) = line.split_at(n - 1);
        proof {
            assert(cr.spec_bytes() =~= seq![13u8]);
            lemma_single_ascii_byte(cr@, '\r');
            lemma_split_chars(line@, head@, cr@, n - 1);
        }
        head
    } else {
        proof {
            if line@.len() > 0 && line@.last() == '\r' {
                let k = line@.len() - 1;
                lemma_encode_concat(line@.subrange(0, k), seq!['\r']);
                lemma_encode_ascii('\r');
                assert(line@ =~= line@.subrange(0, k) + seq!['\r']);
            }
        }
        line
    }
}

/// Splits `text` into its lines, each a slice of `text`.
pub fn lines<'a>(text: &'a str) -> (v: Vec<&'a str>)
    ensures
        v.deep_view() == split_lines(text@),
{
    let mut v: Vec<&'a str> = Vec::new();
    let mut rest: &'a str = text;
    loop
        invariant_except_break
            split_lines(text@) == v.deep_view() + split_lines(rest@),
        ensures
            v.deep_view() == split_lines(text@),
        decreases rest@.len(),
    {
        if rest.is_empty() {
            break;
        }
        let bytes = rest.as_bytes();
        let end = find_byte(bytes, 10u8);
        if end == bytes.len() {
            proof {
                lemma_byte_absent_char_absent(rest@, '\n');
                lemma_first_line_feed(rest@, rest@.len() as int);
            }
            v.push(rest);
            break;
        }
        proof {
            lemma_ascii_byte_boundaries(rest@, end as int);
        }
        let (raw, tail) = rest.split_at(end);
        proof {
            encode_utf8_valid_utf8(tail@);
            assert(is_char_boundary(tail.spec_bytes(), 1)) by {
                reveal_with_fuel(is_char_boundary, 2);
            }
        }
        let (feed, next) = tail.split_at(1);
        let line = trim_carriage_return(raw);
        proof {
            assert(feed.spec_bytes() =~= seq![10u8]);
            lemma_single_ascii_byte(feed@, '\n');
            lemma_split_chars(tail@, feed@, next@, 1);
            lemma_split_chars(rest@, raw@, tail@, end as int);
            lemma_byte_absent_char_absent(raw@, '\n');
            let cut = raw@.len() as int;
            lemma_first_line_feed(rest@, cut);
            assert(rest@.subrange(0, cut) =~= raw@);
            assert(rest@.subrange(cut + 1, rest@.len() as int) =~= next@);
        }
        v.push(line);
        rest = next;
    }
    v
}

} // verus!
