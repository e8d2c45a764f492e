//! The few places where the engine leans on outside code: case folding,
//! the two fuzzy matchers, the regex engine, the clock and two character
//! classes. Each item carries the contract the rest of the crate builds on.
use vstd::prelude::*;

use fuzzy_matcher::FuzzyMatcher;

verus! {

/// What `str::to_lowercase` returns; it depends on the characters alone.
pub uninterp spec fn lower_of(s: Seq<char>) -> Seq<char>;

/// The ASCII half of case folding: `A`-`Z` shifted down, all else kept.
pub open spec fn ascii_lower(c: char) -> char {
    if 'A' <= c && c <= 'Z' {
        (((c as u8) + 32) as char)
    } else {
        c
    }
}

/// An ASCII character (folding never reorders or merges these).
pub open spec fn is_ascii_char(c: char) -> bool {
    (c as u32) < 128
}

/// Relies on `str::to_lowercase`: Unicode case folding of the whole string,
/// a pure function of the input characters. On an all-ASCII string its
/// documentation plainly makes it the per-character ASCII fold.
#[verifier::external_body]
pub fn to_lowercase(s: &str) -> (r: String)
    ensures
        r@ == lower_of(s@),
        s@.len() == 0 ==> r@.len() == 0,
        (forall|i: int| 0 <= i < s@.len() ==> is_ascii_char(#[trigger] s@[i])) ==> r@ == Seq::new(
            s@.len(),
            |i: int| ascii_lower(s@[i]),
        ),
{
    s.to_lowercase()
}

/// What `SkimMatcherV2::fuzzy_match` returns; a deterministic function of
/// the two strings (the matcher holds only fixed configuration).
pub uninterp spec fn skim_score(choice: Seq<char>, pattern: Seq<char>) -> Option<int>;

/// Relies on `fuzzy_matcher::skim::SkimMatcherV2::fuzzy_match` with the
/// default configuration: `None` when the pattern is no subsequence-style
/// match of the choice, otherwise the match score.
#[verifier::external_body]
pub fn skim_fuzzy_match(choice: &str, pattern: &str) -> (r: Option<i64>)
    ensures
        r is Some <==> skim_score(choice@, pattern@) is Some,
        r is Some ==> r->0 == skim_score(choice@, pattern@)->0,
{
    let matcher = fuzzy_matcher::skim::SkimMatcherV2::default();
    matcher.fuzzy_match(choice, pattern)
}

/// What `nucleo_matcher::Matcher::fuzzy_match` returns under the default
/// configuration; a deterministic function of haystack and needle.
pub uninterp spec fn nucleo_score(haystack: Seq<char>, needle: Seq<char>) -> Option<int>;

/// Relies on `nucleo_matcher::Matcher::fuzzy_match` with
/// `Config::DEFAULT`: the fuzzy score of the needle against the haystack.
/// The haystack bound keeps clear of the length assertion in its source.
#[verifier::external_body]
pub fn nucleo_fuzzy_match(haystack: &str, needle: &str) -> (r: Option<u16>)
    requires
        haystack@.len() <= u32::MAX,
    ensures
        r is Some <==> nucleo_score(haystack@, needle@) is Some,
        r is Some ==> r->0 == nucleo_score(haystack@, needle@)->0,
{
    let mut matcher = nucleo_matcher::Matcher::new(nucleo_matcher::Config::DEFAULT);
    let mut hay_buf: Vec<char> = Vec::new();
    let mut needle_buf: Vec<char> = Vec::new();
    let hay = nucleo_matcher::Utf32Str::new(haystack, &mut hay_buf);
    let nee = nucleo_matcher::Utf32Str::new(needle, &mut needle_buf);
    matcher.fuzzy_match(hay, nee)
}

#[verifier::external_type_specification]
#[verifier::external_body]
pub struct ExRegex(regex::Regex);

/// Whether `regex::Regex::new` accepts a pattern.
pub uninterp spec fn regex_ok(pattern: Seq<char>) -> bool;

/// Whether the regex compiled from `pattern` matches somewhere in `text`;
/// what `regex::Regex::is_match` returns.
pub uninterp spec fn regex_accepts(pattern: Seq<char>, text: Seq<char>) -> bool;

/// A compiled pattern together with the source it was compiled from.
/// Built only by `regex_compile`, so `compiled` always stems from `source`.
pub struct CompiledRegex {
    source: String,
    compiled: regex::Regex,
}

/// The pattern a `CompiledRegex` was compiled from.
pub closed spec fn regex_source(re: &CompiledRegex) -> Seq<char> {
    re.source@
}

impl CompiledRegex {
    /// The pattern this regex was compiled from.
    pub fn source(&self) -> (r: &str)
        ensures
            r@ == regex_source(self),
    {
        self.source.as_str()
    }
}

/// Relies on `regex::Regex::new`: compilation succeeds exactly on valid
/// patterns, and the handed-back pair keeps the source it was built from.
#[verifier::external_body]
pub fn regex_compile(pattern: &str) -> (r: Option<CompiledRegex>)
    ensures
        r is Some <==> regex_ok(pattern@),
        r is Some ==> regex_source(&r->0) == pattern@,
{
    match regex::Regex::new(pattern) {
        Ok(compiled) => Some(CompiledRegex { source: pattern.to_string(), compiled }),
        Err(_) => None,
    }
}

/// Relies on `regex::Regex::is_match`: true exactly when the pattern the
/// regex was compiled from (see `regex_compile`) matches somewhere in
/// `text`.
#[verifier::external_body]
pub fn regex_is_match(re: &CompiledRegex, text: &str) -> (b: bool)
    ensures
        b == regex_accepts(regex_source(re), text@),
{
    re.compiled.is_match(text)
}

/// Relies on `String::push`: appends one character.
#[verifier::external_body]
pub fn push_char(s: &mut String, c: char)
    ensures
        final(s)@ == old(s)@.push(c),
{
    s.push(c);
}

/// Relies on `std::time::SystemTime::now`: seconds since the Unix epoch,
/// negative when the clock reads earlier, saturating at the width of the
/// result. Nothing can be promised of the clock; both directions of
/// `duration_since` are taken, so no clock reading panics here.
#[verifier::external_body]
pub fn now_unix_seconds() -> i64 {
    match std::time::SystemTime::now().duration_since(std::time::UNIX_EPOCH) {
        Ok(fwd) => i64::try_from(fwd.as_secs()).unwrap_or(i64::MAX),
        Err(back) => match i64::try_from(back.duration().as_secs()) {
            Ok(s) => -s,
            Err(_) => i64::MIN,
        },
    }
}

/// What `char::is_alphanumeric` returns.
pub uninterp spec fn is_alnum(c: char) -> bool;

/// Relies on `char::is_alphanumeric`: letters and digits. Its documentation
/// plainly makes ASCII letters and digits alphanumeric, and ASCII
/// separators and punctuation not.
pub assume_specification[ char::is_alphanumeric ](c: char) -> (b: bool)
    ensures
        b == is_alnum(c),
        ('a' <= c && c <= 'z') || ('A' <= c && c <= 'Z') || ('0' <= c && c <= '9') ==> b,
        c == ' ' || c == '-' || c == '_' || c == '.' || c == '/' || c == '\\' ==> !b,
;

/// What `char::is_uppercase` returns.
pub uninterp spec fn is_upper(c: char) -> bool;

/// Relies on `char::is_uppercase`: uppercase letters. Its documentation
/// plainly makes ASCII capitals uppercase and ASCII lowercase letters,
/// digits and separators not.
pub assume_specification[ char::is_uppercase ](c: char) -> (b: bool)
    ensures
        b == is_upper(c),
        'A' <= c && c <= 'Z' ==> b,
        ('a' <= c && c <= 'z') || ('0' <= c && c <= '9') || c == ' ' || c == '-' || c == '_'
            || c == '.' ==> !b,
;

} // verus!
