//! The outside capabilities the engine consumes: a clock and a regex engine.
use vstd::prelude::*;

verus! {

#[verifier::external_type_specification]
#[verifier::external_body]
pub struct ExRegex(regex::Regex);

#[verifier::external_type_specification]
#[verifier::external_body]
pub struct ExRegexError(regex::Error);

/// Whether a pattern is accepted by the regex engine.
pub uninterp spec fn pattern_compiles(pattern: Seq<char>) -> bool;

/// Whether a (compilable) pattern matches somewhere in a text.
pub uninterp spec fn pattern_finds(pattern: Seq<char>, text: Seq<char>) -> bool;

/// A compiled pattern, remembering the text it was compiled from.
pub struct Matcher {
    re: regex::Regex,
    source: Ghost<Seq<char>>,
}

impl View for Matcher {
    type V = Seq<char>;

    closed spec fn view(&self) -> Seq<char> {
        self.source@
    }
}

/// Relies on chrono::Utc::now (with DateTime::timestamp_millis): the current
/// instant in milliseconds since the epoch. Nothing is promised of its value.
#[verifier::external_body]
pub(crate) fn now_millis() -> (r: i64) {
    chrono::Utc::now().timestamp_millis()
}

/// Relies on regex::Regex::new: it returns Ok exactly for the patterns the
/// engine accepts, and the compiled value matches as that pattern does.
#[verifier::external_body]
pub(crate) fn compile_pattern(pattern: &str) -> (r: Result<Matcher, regex::Error>)
    ensures
        r.is_ok() == pattern_compiles(pattern@),
        r matches Ok(m) ==> m@ == pattern@,
{
    match regex::Regex::new(pattern) {
        Ok(re) => Ok(Matcher { re, source: Ghost(pattern@) }),
        Err(e) => Err(e),
    }
}

/// Relies on regex::Regex::is_match: whether the pattern matches anywhere in
/// the text (search semantics, not a whole-text match).
#[verifier::external_body]
pub(crate) fn matcher_finds(m: &Matcher, text: &str) -> (r: bool)
    ensures
        r == pattern_finds(m@, text@),
{
    m.re.is_match(text)
}

} // verus!
