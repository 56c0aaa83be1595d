//! A line-oriented text search: the lines of a text that match a query,
//! read as a regular expression or as plain text, with or without regard to
//! letter case.

use vstd::prelude::*;
use vstd::string::StringSliceAdditionalSpecFns;
use vstd::utf8::encode_utf8;
use crate::pattern::pattern_accepted;
use crate::search::{match_lines, matching_lines, MatchError, Mode};

pub mod encoding;
pub mod lines;
pub mod literal;
pub mod pattern;
pub mod search;
pub mod selection;

verus! {

/// What a run searches for.
pub struct Config {
    /// The regular expression to search for.
    pub query: String,
    /// Whether letter case counts.
    pub case_sensitive: bool,
}

impl Config {
    /// The configuration for the pattern and the flag given on the command
    /// line. A missing pattern is an error.
    pub fn new(query: Option<&str>, case_sensitive: bool) -> (r: Result<Config, &'static str>)
        ensures
            match query {
                Some(pattern) => r matches Ok(config) && config.query@ == pattern@
                    && config.case_sensitive == case_sensitive,
                None => r matches Err(message) && message@ == "Didn't get a query string"@,
            },
    {
        let q = match query {
            Some(arg) => arg,
            None => return Err("Didn't get a query string"),
        };
        Ok(Config { query: q.to_owned(), case_sensitive })
    }
}

/// What is written for `lines`: each line as UTF-8, closed by a line feed.
pub open spec fn output_of(lines: Seq<Seq<char>>) -> Seq<u8>
    decreases lines.len(),
{
    if lines.len() == 0 {
        Seq::empty()
    } else {
        output_of(lines.drop_last()) + encode_utf8(lines.last()) + seq![10u8]
    }
}

/// What is to be written for `lines`: each of them in turn, closed by a
/// line feed.
pub fn render(lines: &Vec<&str>) -> (out: Vec<u8>)
    ensures
        out@ == output_of(lines.deep_view()),
{
    let mut out: Vec<u8> = Vec::new();
    let mut i: usize = 0;
    while i < lines.len()
        invariant
            i <= lines.len(),
            out@ == output_of(lines.deep_view().subrange(0, i as int)),
        decreases lines.len() - i,
    {
        write(&mut out, lines[i]);
        assert(lines.deep_view().subrange(0, i + 1).drop_last() =~= lines.deep_view().subrange(
            0,
            i as int,
        ));
        i = i + 1;
    }
    assert(lines.deep_view().subrange(0, i as int) =~= lines.deep_view());
    out
}

/// Searches `input` for the lines in which the pattern of `config` finds a
/// match, and returns what is to be written for them. The run fails with
/// `MatchError::InvalidPattern` exactly where the engine does not accept the
/// pattern, whatever `input` holds.
pub fn run(config: Config, input: &str) -> (r: Result<Vec<u8>, MatchError>)
    ensures
        r is Ok <==> pattern_accepted(config.query@, !config.case_sensitive),
        r matches Ok(out) ==> out@ == output_of(
            matching_lines(config.query@, input@, config.case_sensitive, Mode::Regex),
        ),
{
    let found = match_lines(config.query.as_str(), input, config.case_sensitive, Mode::Regex)?;
    Ok(render(&found))
}

/// Appends `result` and a line feed to `w`.
pub fn write(w: &mut Vec<u8>, result: &str)
    ensures
        final(w)@ == old(w)@ + encode_utf8(result@) + seq![10u8],
{
    w.extend_from_slice(result.as_bytes());
    w.push(10u8);
}

} // verus!
