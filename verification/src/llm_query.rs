//! Structured queries as the natural-language enhancer yields them, and
//! the offline parser that stands in when no model answers.
use vstd::prelude::*;

use crate::outside::lower_of;
use crate::strutil::{contains_seq, tokens_of};

verus! {

/// A structured search request.
pub struct ParsedQuery {
    pub file_types: Vec<String>,
    pub keywords: Vec<String>,
    pub time_range: Option<TimeRange>,
    pub size_constraints: Option<SizeRange>,
    pub location_hints: Vec<String>,
    pub intent: QueryIntent,
}

/// What a query is after.
#[derive(Debug, Clone, Copy, PartialEq, Eq, Structural)]
pub enum QueryIntent {
    FindByContent,
    FindByName,
    FindByType,
    FindByTime,
    FindByLocation,
}

/// A relative or absolute time window.
pub struct TimeRange {
    pub relative: Option<String>,
    pub absolute: Option<(String, String)>,
}

/// A size window in bytes.
pub struct SizeRange {
    pub min: Option<u64>,
    pub max: Option<u64>,
}

/// The extensions the offline parser reads out of a folded query.
pub open spec fn mock_file_types(ql: Seq<char>) -> Seq<Seq<char>> {
    (if contains_seq(ql, "python"@) || contains_seq(ql, ".py"@) {
        seq!["py"@]
    } else {
        Seq::empty()
    }) + (if contains_seq(ql, "javascript"@) || contains_seq(ql, ".js"@) {
        seq!["js"@]
    } else {
        Seq::empty()
    }) + (if contains_seq(ql, "excel"@) || contains_seq(ql, ".xlsx"@) {
        seq!["xlsx"@]
    } else {
        Seq::empty()
    })
}

/// A word survives as a keyword unless its folded form mentions one of
/// the filler words.
pub open spec fn mock_keyword_kept(w: Seq<char>) -> bool {
    !contains_seq(lower_of(w), "find"@) && !contains_seq(lower_of(w), "file"@) && !contains_seq(
        lower_of(w),
        "show"@,
    )
}

/// The keywords of the first `n` words.
pub open spec fn mock_keywords(words: Seq<Seq<char>>, n: int) -> Seq<Seq<char>>
    decreases n,
{
    if n <= 0 {
        Seq::empty()
    } else {
        mock_keywords(words, n - 1) + (if mock_keyword_kept(words[n - 1]) {
            seq![words[n - 1]]
        } else {
            Seq::empty()
        })
    }
}

/// Parses a natural-language query into a structured one. The offline
/// parser answers; a hosted model would only sharpen the same shape.
pub fn parse_natural_query(query: &str) -> (r: Result<ParsedQuery, String>)
    ensures
        r is Ok,
        parsed_query_matches(r->Ok_0, query@),
{
    parse_mock_llm_response(query)
}

/// What the offline parse of `q` holds.
pub open spec fn parsed_query_matches(p: ParsedQuery, q: Seq<char>) -> bool {
    &&& p.file_types.deep_view() == mock_file_types(lower_of(q))
    &&& p.keywords.deep_view() == mock_keywords(tokens_of(q), tokens_of(q).len() as int)
    &&& (match p.time_range {
        Some(t) => contains_seq(lower_of(q), "last week"@) && t.relative is Some && (
        t.relative->0)@ == "last_week"@ && t.absolute is None,
        None => !contains_seq(lower_of(q), "last week"@),
    })
    &&& p.size_constraints is None
    &&& p.location_hints@.len() == 0
    &&& p.intent == QueryIntent::FindByContent
}

/// The offline stand-in parse: simple containment patterns over the
/// folded query.
pub fn parse_mock_llm_response(query: &str) -> (r: Result<ParsedQuery, String>)
    ensures
        r is Ok,
        parsed_query_matches(r->Ok_0, query@),
{
    let lowered = crate::outside::to_lowercase(query);
    let ql = crate::strutil::chars_of(lowered.as_str());

    let mut file_types: Vec<String> = Vec::new();
    if has_marker(&ql, "python") || has_marker(&ql, ".py") {
        push_str(&mut file_types, "py");
    }
    if has_marker(&ql, "javascript") || has_marker(&ql, ".js") {
        push_str(&mut file_types, "js");
    }
    if has_marker(&ql, "excel") || has_marker(&ql, ".xlsx") {
        push_str(&mut file_types, "xlsx");
    }
    proof {
        assert(file_types.deep_view() =~= mock_file_types(lower_of(query@)));
    }

    let time_range: Option<TimeRange> = if has_marker(&ql, "last week") {
        Some(TimeRange { relative: Some(String::from_str("last_week")), absolute: None })
    } else {
        None
    };

    let qchars = crate::strutil::chars_of(query);
    let words = crate::strutil::tokenize(&qchars);
    let mut keywords: Vec<String> = Vec::new();
    let mut i: usize = 0;
    while i < words.len()
        invariant
            0 <= i <= words@.len(),
            words.deep_view() == tokens_of(query@),
            words@.len() == words.deep_view().len(),
            keywords.deep_view() == mock_keywords(tokens_of(query@), i as int),
        decreases words@.len() - i,
    {
        proof {
            crate::strutil::vec_deep_view_is_view(words@[i as int]);
        }
        let w = crate::strutil::string_of(&words[i]);
        let wl = crate::outside::to_lowercase(w.as_str());
        let wlc = crate::strutil::chars_of(wl.as_str());
        let kept = !has_marker(&wlc, "find") && !has_marker(&wlc, "file") && !has_marker(
            &wlc,
            "show",
        );
        if kept {
            let ghost old_kv = keywords@;
            let ghost old_kdv = keywords.deep_view();
            keywords.push(w);
            proof {
                crate::strutil::lemma_deep_view_push_str(
                    old_kv,
                    old_kdv,
                    keywords@,
                    keywords.deep_view(),
                    tokens_of(query@)[i as int],
                );
            }
        }
        i += 1;
    }

    Ok(
        ParsedQuery {
            file_types,
            keywords,
            time_range,
            size_constraints: None,
            location_hints: Vec::new(),
            intent: QueryIntent::FindByContent,
        },
    )
}

/// Whether the folded query mentions the marker.
fn has_marker(l: &Vec<char>, marker: &str) -> (b: bool)
    ensures
        b == contains_seq(l@, marker@),
{
    let m = crate::strutil::chars_of(marker);
    crate::strutil::contains_sub(l, &m)
}

/// Appends a literal to a string list.
fn push_str(v: &mut Vec<String>, s: &str)
    ensures
        final(v).deep_view() == old(v).deep_view().push(s@),
{
    let ghost old_kv = v@;
    let ghost old_kdv = v.deep_view();
    v.push(String::from_str(s));
    proof {
        crate::strutil::lemma_deep_view_push_str(old_kv, old_kdv, v@, v.deep_view(), s@);
    }
}

} // verus!
