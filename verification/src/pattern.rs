//! The regular-expression engine, as far as the search relies on it.
//!
//! Patterns are compiled and matched by the `regex` crate. Nothing here is
//! proved about that crate: the contracts in this file are what the rest of
//! the library takes on trust. They say nothing of the pattern syntax. A
//! compiled pattern stands for the set of texts in which it finds a match,
//! and the contracts only say that the engine's answers are settled by what
//! it is asked.

use vstd::prelude::*;

verus! {

/// `regex::Regex`, a compiled pattern. Its inside is not looked into.
#[verifier::external_type_specification]
#[verifier::external_body]
pub struct ExRegex(regex::Regex);

/// `regex::Error`, the engine's account of why a pattern did not compile.
/// Its inside is not looked into.
#[verifier::external_type_specification]
#[verifier::external_body]
pub struct ExRegexError(regex::Error);

/// What a compiled pattern holds: the texts in which it finds a match.
pub uninterp spec fn haystacks_of(re: regex::Regex) -> Set<Seq<char>>;

/// What `regex::RegexBuilder` makes of `pattern`, case-insensitive or not,
/// with the engine's defaults otherwise: `None` where the engine refuses the
/// pattern, and where it accepts it, the texts in which the compiled pattern
/// finds a match.
///
/// This is the engine as it is built into the program. It refuses a syntax
/// error, and also a pattern whose compiled form is larger than its fixed
/// limit, which it counts in bytes of the target machine. Within one build
/// the outcome is settled by the pattern and the flag.
pub uninterp spec fn compilation(pattern: Seq<char>, case_insensitive: bool) -> Option<
    Set<Seq<char>>,
>;

/// The engine accepts `pattern` as a regular expression.
pub open spec fn pattern_accepted(pattern: Seq<char>, case_insensitive: bool) -> bool {
    compilation(pattern, case_insensitive) is Some
}

/// The texts in which `pattern` finds a match, where the engine accepts it.
pub open spec fn pattern_language(pattern: Seq<char>, case_insensitive: bool) -> Set<
    Seq<char>,
> {
    compilation(pattern, case_insensitive)->Some_0
}

/// Compiles `pattern` by `regex::RegexBuilder::new`, `case_insensitive` and
/// `build`.
///
/// The contract claims that the outcome is settled by the pattern and the
/// flag: whether the engine accepts the pattern, and, where it does, the
/// texts that the result matches. It says nothing of which patterns are
/// accepted, nor of what the error holds.
#[verifier::external_body]
pub(crate) fn compile(pattern: &str, case_insensitive: bool) -> (compiled: Result<
    regex::Regex,
    regex::Error,
>)
    ensures
        match compiled {
            Ok(re) => compilation(pattern@, case_insensitive) == Some(haystacks_of(re)),
            Err(_) => compilation(pattern@, case_insensitive) is None,
        },
{
    regex::RegexBuilder::new(pattern).case_insensitive(case_insensitive).build()
}

/// Asks `regex::Regex::is_match` whether `re` finds a match anywhere in
/// `haystack`.
///
/// The contract claims that the answer is settled by the compiled pattern
/// and the text: it is the text's membership in `haystacks_of`.
#[verifier::external_body]
pub(crate) fn is_match(re: &regex::Regex, haystack: &str) -> (found: bool)
    ensures
        found == haystacks_of(*re).contains(haystack@),
{
    re.is_match(haystack)
}

} // verus!
