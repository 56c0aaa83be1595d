//! Selecting the lines of a text that match a query.

use vstd::prelude::*;
use crate::lines::{lines, split_lines};
use crate::literal::{contains, folded, literal_match, occurs_in};
use crate::pattern::{compile, haystacks_of, is_match, pattern_accepted, pattern_language};
use crate::selection::{increasing, kept_positions, lemma_filter_push, lemma_filter_selects, selects};

verus! {

/// How a query is read.
#[derive(Clone, Copy, Debug, PartialEq, Eq, Structural)]
pub enum Mode {
    /// The query is a piece of text to be found as it stands.
    Literal,
    /// The query is a regular expression.
    Regex,
}

/// Why a search could not be carried out.
#[derive(Debug)]
pub enum MatchError {
    /// The query is no regular expression that the engine accepts; the
    /// engine's own error says why.
    InvalidPattern(regex::Error),
}

/// The lines that contain `needle` as a substring, after folding them.
pub open spec fn containing(needle: Seq<char>, case_sensitive: bool) -> spec_fn(Seq<char>) -> bool {
    |line: Seq<char>| occurs_in(needle, folded(line, case_sensitive))
}

/// The lines that belong to `language`.
pub open spec fn belonging_to(language: Set<Seq<char>>) -> spec_fn(Seq<char>) -> bool {
    |line: Seq<char>| language.contains(line)
}

/// The lines that `query` selects when it is read in `mode`: in
/// `Mode::Literal` those that contain it, both sides folded alike; in
/// `Mode::Regex` those in which it finds a match as a pattern.
pub open spec fn line_filter(query: Seq<char>, case_sensitive: bool, mode: Mode) -> spec_fn(
    Seq<char>,
) -> bool {
    match mode {
        Mode::Literal => containing(folded(query, case_sensitive), case_sensitive),
        Mode::Regex => belonging_to(pattern_language(query, !case_sensitive)),
    }
}

/// The lines of `text` that `query` selects, in the order of the text and
/// as often as they occur in it.
pub open spec fn matching_lines(
    query: Seq<char>,
    text: Seq<char>,
    case_sensitive: bool,
    mode: Mode,
) -> Seq<Seq<char>> {
    split_lines(text).filter(line_filter(query, case_sensitive, mode))
}

/// A test that a line passes or fails.
enum LineTest<'q> {
    /// The folded line contains `needle`.
    Contains { needle: &'q str, case_sensitive: bool },
    /// The compiled pattern finds a match in the line.
    Matches(&'q regex::Regex),
}

impl<'q> LineTest<'q> {
    /// The lines that pass.
    spec fn keeps(self) -> spec_fn(Seq<char>) -> bool {
        match self {
            LineTest::Contains { needle, case_sensitive } => containing(needle@, case_sensitive),
            LineTest::Matches(re) => belonging_to(haystacks_of(*re)),
        }
    }

    /// Whether `line` passes.
    fn passes(&self, line: &str) -> (b: bool)
        ensures
            b == self.keeps()(line@),
    {
        match self {
            LineTest::Contains { needle, case_sensitive } => {
                if *case_sensitive {
                    contains(line, needle)
                } else {
                    contains(line.to_lowercase().as_str(), needle)
                }
            },
            LineTest::Matches(re) => is_match(re, line),
        }
    }
}

/// The lines of `text` that pass `test`.
fn select<'a>(text: &'a str, test: &LineTest) -> (v: Vec<&'a str>)
    ensures
        v.deep_view() == split_lines(text@).filter(test.keeps()),
{
    let all = lines(text);
    let ghost keep = test.keeps();
    let mut v: Vec<&'a str> = Vec::new();
    let mut i: usize = 0;
    while i < all.len()
        invariant
            i <= all.len(),
            keep == test.keeps(),
            v.deep_view() == all.deep_view().subrange(0, i as int).filter(keep),
        decreases all.len() - i,
    {
        let line = all[i];
        if test.passes(line) {
            v.push(line);
        }
        proof {
            lemma_filter_push(all.deep_view().subrange(0, i as int), line@, keep);
            assert(all.deep_view().subrange(0, i + 1) =~= all.deep_view().subrange(
                0,
                i as int,
            ).push(line@));
        }
        i = i + 1;
    }
    assert(all.deep_view().subrange(0, i as int) =~= all.deep_view());
    v
}

/// The lines of `text` that contain `query` as a substring. Without
/// `case_sensitive`, both are compared by their lowercase equivalents.
pub fn literal_lines<'a>(query: &str, text: &'a str, case_sensitive: bool) -> (v: Vec<&'a str>)
    ensures
        v.deep_view() == matching_lines(query@, text@, case_sensitive, Mode::Literal),
{
    if case_sensitive {
        select(text, &LineTest::Contains { needle: query, case_sensitive })
    } else {
        let lowered = query.to_lowercase();
        select(text, &LineTest::Contains { needle: lowered.as_str(), case_sensitive })
    }
}

/// The lines of `text` in which a compiled pattern finds a match; the
/// engine's error where the pattern did not compile.
pub fn compiled_lines<'a>(compiled: Result<regex::Regex, regex::Error>, text: &'a str) -> (r:
    Result<Vec<&'a str>, MatchError>)
    ensures
        match compiled {
            Ok(re) => r matches Ok(v) && v.deep_view() == split_lines(text@).filter(
                belonging_to(haystacks_of(re)),
            ),
            Err(e) => r matches Err(MatchError::InvalidPattern(cause)) && cause == e,
        },
{
    match compiled {
        Ok(re) => Ok(select(text, &LineTest::Matches(&re))),
        Err(e) => Err(MatchError::InvalidPattern(e)),
    }
}

/// The lines of `text` that match `query`, as slices of `text` and in its
/// order.
///
/// In `Mode::Literal` a line matches where it contains `query`; the search
/// always succeeds. In `Mode::Regex` a line matches where the pattern
/// `query` finds a match in it; the search fails with
/// `MatchError::InvalidPattern` exactly where the engine does not accept
/// `query`, whatever `text` holds.
pub fn match_lines<'a>(query: &str, text: &'a str, case_sensitive: bool, mode: Mode) -> (r: Result<
    Vec<&'a str>,
    MatchError,
>)
    ensures
        mode is Literal ==> r is Ok,
        mode is Regex ==> (r is Ok <==> pattern_accepted(query@, !case_sensitive)),
        r matches Ok(v) ==> v.deep_view() == matching_lines(query@, text@, case_sensitive, mode),
{
    match mode {
        Mode::Literal => Ok(literal_lines(query, text, case_sensitive)),
        Mode::Regex => compiled_lines(compile(query, !case_sensitive), text),
    }
}

/// The lines of `contents` in which the regular expression `query` finds a
/// match, letter case counting. The search fails exactly where the engine
/// does not accept `query`.
pub fn search<'a>(query: &str, contents: &'a str) -> (r: Result<Vec<&'a str>, MatchError>)
    ensures
        r is Ok <==> pattern_accepted(query@, false),
        r matches Ok(v) ==> v.deep_view() == matching_lines(query@, contents@, true, Mode::Regex),
{
    match_lines(query, contents, true, Mode::Regex)
}

/// The lines of `contents` in which the regular expression `query` finds a
/// match, letter case not counting. The search fails exactly where the
/// engine does not accept `query`.
pub fn search_case_insensitive<'a>(query: &str, contents: &'a str) -> (r: Result<
    Vec<&'a str>,
    MatchError,
>)
    ensures
        r is Ok <==> pattern_accepted(query@, true),
        r matches Ok(v) ==> v.deep_view() == matching_lines(query@, contents@, false, Mode::Regex),
{
    match_lines(query, contents, false, Mode::Regex)
}

/// A search selects lines of the text and nothing else: the result holds,
/// in the order of the text, the line at each position whose line matches,
/// once for each such position.
pub proof fn lemma_search_selects(
    query: Seq<char>,
    text: Seq<char>,
    case_sensitive: bool,
    mode: Mode,
)
    ensures
        exists|at: Seq<int>|
            selects(
                at,
                split_lines(text),
                line_filter(query, case_sensitive, mode),
                matching_lines(query, text, case_sensitive, mode),
            ),
{
    let keep = line_filter(query, case_sensitive, mode);
    lemma_filter_selects(split_lines(text), keep);
    assert(selects(
        kept_positions(split_lines(text), keep),
        split_lines(text),
        keep,
        matching_lines(query, text, case_sensitive, mode),
    ));
}

/// For a literal query, every line of the result contains the query, every
/// line of the text that contains the query is in the result, and the
/// result keeps the order of the text. Where case does not count,
/// "contains" is meant of the lowercase equivalents of both.
pub proof fn lemma_literal_search(query: Seq<char>, text: Seq<char>, case_sensitive: bool)
    ensures
        ({
            let all = split_lines(text);
            let found = matching_lines(query, text, case_sensitive, Mode::Literal);
            &&& forall|j: int|
                0 <= j < found.len() ==> literal_match(query, #[trigger] found[j], case_sensitive)
            &&& forall|i: int|
                0 <= i < all.len() && literal_match(query, #[trigger] all[i], case_sensitive)
                    ==> found.contains(all[i])
            &&& exists|at: Seq<int>|
                {
                    &&& at.len() == found.len()
                    &&& increasing(at)
                    &&& forall|j: int|
                        0 <= j < at.len() ==> 0 <= #[trigger] at[j] < all.len() && found[j]
                            == all[at[j]]
                }
        }),
{
    lemma_filter_selects(split_lines(text), line_filter(query, case_sensitive, Mode::Literal));
}

} // verus!
