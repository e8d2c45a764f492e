//! The natural-language query enhancer's engine-side half: the structured
//! query it yields, the offline fallback parse, and the conversion back
//! into a search query. Talking to a hosted model is the caller's side;
//! the engine only consumes the structured result.
use vstd::prelude::*;

use crate::outside::lower_of;
use crate::strutil::{contains_seq, tokens_of};

verus! {

/// A parsed natural-language query. `confidence` is in hundredths: 70
/// stands for a 0.70 confidence.
pub struct NaturalQuery {
    pub original_query: String,
    pub file_types: Vec<String>,
    pub keywords: Vec<String>,
    pub time_constraint: Option<String>,
    pub size_constraint: Option<String>,
    pub location_hints: Vec<String>,
    pub intent: QueryIntent,
    pub confidence: u32,
}

/// What a natural-language query is after.
#[derive(Debug, Clone, Copy, PartialEq, Eq, Structural)]
pub enum QueryIntent {
    FindByName,
    FindByContent,
    FindByType,
    FindByTime,
    FindByLocation,
    FindByProject,
}

/// The enhancer's engine-side half: holds where a hosted model would be
/// reached; the fallback parse works without one.
pub struct LLMProcessor {
    pub ollama_url: String,
    pub model_name: String,
}

/// The fallback's time constraint, strongest pattern last-writer-wins.
pub open spec fn fb_time_constraint(ql: Seq<char>) -> Option<Seq<char>> {
    if contains_seq(ql, "last week"@) || contains_seq(ql, "this week"@) {
        Some("last_week"@)
    } else if contains_seq(ql, "yesterday"@) {
        Some("yesterday"@)
    } else if contains_seq(ql, "today"@) {
        Some("today"@)
    } else if contains_seq(ql, "latest"@) || contains_seq(ql, "recent"@) || contains_seq(
        ql,
        "newest"@,
    ) {
        Some("recent"@)
    } else {
        None
    }
}

pub open spec fn fb_mentions_python(ql: Seq<char>) -> bool {
    contains_seq(ql, "python"@) || contains_seq(ql, ".py"@)
}

pub open spec fn fb_mentions_js(ql: Seq<char>) -> bool {
    contains_seq(ql, "javascript"@) || contains_seq(ql, ".js"@)
}

pub open spec fn fb_mentions_react(ql: Seq<char>) -> bool {
    contains_seq(ql, "react"@)
}

pub open spec fn fb_mentions_config(ql: Seq<char>) -> bool {
    contains_seq(ql, "config"@)
}

/// The fallback's extension list, in detection order.
pub open spec fn fb_file_types(ql: Seq<char>) -> Seq<Seq<char>> {
    (if fb_mentions_python(ql) {
        seq!["py"@]
    } else {
        Seq::empty()
    }) + (if fb_mentions_js(ql) {
        seq!["js"@]
    } else {
        Seq::empty()
    }) + (if fb_mentions_react(ql) {
        seq!["jsx"@, "tsx"@]
    } else {
        Seq::empty()
    }) + (if fb_mentions_config(ql) {
        seq!["json"@, "yaml"@, "ini"@]
    } else {
        Seq::empty()
    })
}

/// The fallback's intent: time beats type beats project beats plain name
/// lookup, following the detection order.
pub open spec fn fb_intent(ql: Seq<char>) -> QueryIntent {
    if fb_time_constraint(ql) is Some {
        QueryIntent::FindByTime
    } else if fb_mentions_python(ql) || fb_mentions_js(ql) {
        QueryIntent::FindByType
    } else if fb_mentions_react(ql) {
        QueryIntent::FindByProject
    } else {
        QueryIntent::FindByName
    }
}

/// A word is a filler the fallback drops from the keywords.
pub open spec fn fb_stop_word(w: Seq<char>) -> bool {
    let l = lower_of(w);
    l == "find"@ || l == "show"@ || l == "where"@ || l == "my"@ || l == "the"@ || l == "a"@ || l
        == "an"@ || l == "is"@ || l == "are"@ || l == "files"@ || l == "file"@
}

/// The non-filler words among the first `n`.
pub open spec fn fb_word_keywords(words: Seq<Seq<char>>, n: int) -> Seq<Seq<char>>
    decreases n,
{
    if n <= 0 {
        Seq::empty()
    } else {
        fb_word_keywords(words, n - 1) + (if !fb_stop_word(words[n - 1]) {
            seq![words[n - 1]]
        } else {
            Seq::empty()
        })
    }
}

/// The fallback's keyword list: a marker keyword per recognized topic,
/// then the non-filler words.
pub open spec fn fb_keywords(q: Seq<char>) -> Seq<Seq<char>> {
    let ql = lower_of(q);
    (if fb_mentions_react(ql) {
        seq!["component"@]
    } else {
        Seq::empty()
    }) + (if fb_mentions_config(ql) {
        seq!["config"@]
    } else {
        Seq::empty()
    }) + fb_word_keywords(tokens_of(q), tokens_of(q).len() as int)
}

/// What the fallback parse of `q` holds.
pub open spec fn fallback_matches(n: NaturalQuery, q: Seq<char>) -> bool {
    let ql = lower_of(q);
    &&& n.original_query@ == q
    &&& n.file_types.deep_view() == fb_file_types(ql)
    &&& n.keywords.deep_view() == fb_keywords(q)
    &&& (match n.time_constraint {
        Some(t) => fb_time_constraint(ql) == Some(t@),
        None => fb_time_constraint(ql) is None,
    })
    &&& n.size_constraint is None
    &&& n.location_hints@.len() == 0
    &&& n.intent == fb_intent(ql)
    &&& n.confidence == 70
}

impl LLMProcessor {
    /// The default local endpoint and model.
    pub fn new() -> (r: Self)
        ensures
            r.ollama_url@ == "http://127.0.0.1:11434"@,
            r.model_name@ == "llama3.1:8b"@,
    {
        LLMProcessor {
            ollama_url: String::from_str("http://127.0.0.1:11434"),
            model_name: String::from_str("llama3.1:8b"),
        }
    }

    /// The prompt a hosted model is asked to fill: fixed framing around
    /// the query.
    pub fn create_query_parsing_prompt(&self, query: &str) -> (r: String)
        ensures
            r@ == "You are a file search query parser. Parse this natural language query into structured search parameters, and respond with one JSON object holding file_types, keywords, time_constraint, size_constraint, location_hints, intent and confidence. Query: "@ + query@,
    {
        let mut r = String::from_str(
            "You are a file search query parser. Parse this natural language query into structured search parameters, and respond with one JSON object holding file_types, keywords, time_constraint, size_constraint, location_hints, intent and confidence. Query: ",
        );
        r.append(query);
        r
    }

    /// Parses a natural-language query. A hosted model's reply enters
    /// through the caller's side; here the offline fallback answers, and
    /// the result shape is the same either way.
    pub fn parse_natural_query(&self, query: &str) -> (r: Result<NaturalQuery, String>)
        ensures
            r is Ok,
            fallback_matches(r->Ok_0, query@),
    {
        self.fallback_parse(query)
    }

    /// Parses a natural-language query without a model: containment
    /// patterns over the folded query.
    pub fn fallback_parse(&self, query: &str) -> (r: Result<NaturalQuery, String>)
        ensures
            r is Ok,
            fallback_matches(r->Ok_0, query@),
    {
        let lowered = crate::outside::to_lowercase(query);
        let ql = crate::strutil::chars_of(lowered.as_str());

        let time_constraint: Option<String> = if has_marker(&ql, "last week") || has_marker(
            &ql,
            "this week",
        ) {
            Some(String::from_str("last_week"))
        } else if has_marker(&ql, "yesterday") {
            Some(String::from_str("yesterday"))
        } else if has_marker(&ql, "today") {
            Some(String::from_str("today"))
        } else if has_marker(&ql, "latest") || has_marker(&ql, "recent") || has_marker(
            &ql,
            "newest",
        ) {
            Some(String::from_str("recent"))
        } else {
            None
        };

        let python = has_marker(&ql, "python") || has_marker(&ql, ".py");
        let js = has_marker(&ql, "javascript") || has_marker(&ql, ".js");
        let react = has_marker(&ql, "react");
        let config = has_marker(&ql, "config");

        let mut file_types: Vec<String> = Vec::new();
        if python {
            push_str(&mut file_types, "py");
        }
        if js {
            push_str(&mut file_types, "js");
        }
        if react {
            push_str(&mut file_types, "jsx");
            push_str(&mut file_types, "tsx");
        }
        if config {
            push_str(&mut file_types, "json");
            push_str(&mut file_types, "yaml");
            push_str(&mut file_types, "ini");
        }
        proof {
            assert(file_types.deep_view() =~= fb_file_types(lower_of(query@)));
        }

        let intent: QueryIntent = if time_constraint.is_some() {
            QueryIntent::FindByTime
        } else if python || js {
            QueryIntent::FindByType
        } else if react {
            QueryIntent::FindByProject
        } else {
            QueryIntent::FindByName
        };

        let mut keywords: Vec<String> = Vec::new();
        if react {
            push_str(&mut keywords, "component");
        }
        if config {
            push_str(&mut keywords, "config");
        }
        let qchars = crate::strutil::chars_of(query);
        let words = crate::strutil::tokenize(&qchars);
        let ghost marker_part = keywords.deep_view();
        let mut i: usize = 0;
        while i < words.len()
            invariant
                0 <= i <= words@.len(),
                words.deep_view() == tokens_of(query@),
                words@.len() == words.deep_view().len(),
                keywords.deep_view() == marker_part + fb_word_keywords(tokens_of(query@), i as int),
            decreases words@.len() - i,
        {
            proof {
                crate::strutil::vec_deep_view_is_view(words@[i as int]);
            }
            let w = crate::strutil::string_of(&words[i]);
            let stop = is_stop_word(w.as_str());
            if !stop {
                let ghost old_kv = keywords@;
                let ghost old_kdv = keywords.deep_view();
                keywords.push(w);
                proof {
                    crate::strutil::lemma_deep_view_push_str(
                        old_kv,
                        old_kdv,
                        keywords@,
                        keywords.deep_view(),
                        tokens_of(query@)[i as int],
                    );
                    assert(keywords.deep_view() =~= marker_part + fb_word_keywords(
                        tokens_of(query@),
                        i + 1,
                    ));
                }
            }
            i += 1;
        }
        proof {
            assert(keywords.deep_view() =~= fb_keywords(query@));
        }

        Ok(
            NaturalQuery {
                original_query: String::from_str(query),
                file_types,
                keywords,
                time_constraint,
                size_constraint: None,
                location_hints: Vec::new(),
                intent,
                confidence: 70,
            },
        )
    }

    /// Rewrites a structured query into the engine's query text: one
    /// `*.ext` term per extension, then the keywords, space-separated. A
    /// bare time query becomes the empty query (the recent list answers
    /// it); an otherwise empty rewrite keeps the original text.
    pub fn convert_to_search_query(&self, natural_query: &NaturalQuery) -> (r: String)
        ensures
            r@ == convert_spec(*natural_query),
    {
        let no_parts = natural_query.file_types.len() == 0 && natural_query.keywords.len() == 0;
        if matches!(natural_query.intent, QueryIntent::FindByTime) && no_parts {
            proof {
                assert(convert_parts(*natural_query).len() == 0);
            }
            return String::new();
        }
        if no_parts {
            proof {
                assert(convert_parts(*natural_query).len() == 0);
            }
            return natural_query.original_query.clone();
        }
        let mut out = String::new();
        let ghost parts = convert_parts(*natural_query);
        let mut i: usize = 0;
        while i < natural_query.file_types.len()
            invariant
                0 <= i <= natural_query.file_types@.len(),
                parts == convert_parts(*natural_query),
                parts.len() == natural_query.file_types@.len()
                    + natural_query.keywords@.len(),
                forall|k: int|
                    0 <= k < natural_query.file_types@.len() ==> parts[k] == "*."@
                        + #[trigger] natural_query.file_types@[k]@,
                forall|k: int|
                    0 <= k < natural_query.keywords@.len() ==> parts[natural_query.file_types@.len()
                        + k] == #[trigger] natural_query.keywords@[k]@,
                out@ == join_spaced(parts, i as int),
            decreases natural_query.file_types@.len() - i,
        {
            if i > 0 {
                crate::outside::push_char(&mut out, ' ');
            }
            out.append("*.");
            out.append(natural_query.file_types[i].as_str());
            proof {
                reveal_strlit("*.");
                lemma_join_step(parts, i as int, out@);
            }
            i += 1;
        }
        let mut j: usize = 0;
        while j < natural_query.keywords.len()
            invariant
                0 <= j <= natural_query.keywords@.len(),
                parts == convert_parts(*natural_query),
                parts.len() == natural_query.file_types@.len()
                    + natural_query.keywords@.len(),
                forall|k: int|
                    0 <= k < natural_query.keywords@.len() ==> parts[natural_query.file_types@.len()
                        + k] == #[trigger] natural_query.keywords@[k]@,
                out@ == join_spaced(
                    parts,
                    natural_query.file_types@.len() + j,
                ),
            decreases natural_query.keywords@.len() - j,
        {
            if natural_query.file_types.len() > 0 || j > 0 {
                crate::outside::push_char(&mut out, ' ');
            }
            out.append(natural_query.keywords[j].as_str());
            proof {
                lemma_join_step(parts, natural_query.file_types@.len() + j, out@);
            }
            j += 1;
        }
        out
    }
}

/// The first `n` parts joined with single spaces.
pub open spec fn join_spaced(parts: Seq<Seq<char>>, n: int) -> Seq<char>
    decreases n,
{
    if n <= 0 {
        Seq::empty()
    } else if n == 1 {
        parts[0]
    } else {
        join_spaced(parts, n - 1) + seq![' '] + parts[n - 1]
    }
}

/// Joining one more part extends the joined prefix by a space and the
/// part (no space before the first).
proof fn lemma_join_step(parts: Seq<Seq<char>>, i: int, joined: Seq<char>)
    requires
        0 <= i < parts.len(),
        joined =~= (if i == 0 {
            join_spaced(parts, i) + parts[i]
        } else {
            join_spaced(parts, i) + seq![' '] + parts[i]
        }),
    ensures
        joined == join_spaced(parts, i + 1),
{
    if i == 0 {
        assert(join_spaced(parts, 1) == parts[0]);
        assert(join_spaced(parts, 0) + parts[0] =~= parts[0]);
        assert(joined =~= join_spaced(parts, 1));
    } else {
        assert(join_spaced(parts, i + 1) == join_spaced(parts, i)
            + seq![' '] + parts[i]);
        assert(joined =~= join_spaced(parts, i + 1));
    }
}

/// The space-separated parts a structured query is rewritten into.
pub open spec fn convert_parts(n: NaturalQuery) -> Seq<Seq<char>> {
    n.file_types.deep_view().map_values(|ft: Seq<char>| "*."@ + ft) + n.keywords.deep_view()
}

/// The rewritten query text.
pub open spec fn convert_spec(n: NaturalQuery) -> Seq<char> {
    let parts = convert_parts(n);
    if n.intent == QueryIntent::FindByTime && parts.len() == 0 {
        Seq::empty()
    } else if parts.len() == 0 {
        n.original_query@
    } else {
        join_spaced(parts, parts.len() as int)
    }
}

/// The engine query a natural-language query rewrites to, as a function
/// of the query text alone.
pub open spec fn natural_rewrite(q: Seq<char>) -> Seq<char> {
    let ql = lower_of(q);
    let parts = fb_file_types(ql).map_values(|ft: Seq<char>| "*."@ + ft) + fb_keywords(q);
    if fb_intent(ql) == QueryIntent::FindByTime && parts.len() == 0 {
        Seq::empty()
    } else if parts.len() == 0 {
        q
    } else {
        join_spaced(parts, parts.len() as int)
    }
}

/// A fallback-parsed query converts to exactly the rewrite of its text.
pub proof fn lemma_fallback_convert(n: NaturalQuery, q: Seq<char>)
    requires
        fallback_matches(n, q),
    ensures
        convert_spec(n) == natural_rewrite(q),
{
    let ql = lower_of(q);
    assert(n.file_types.deep_view() == fb_file_types(ql));
    assert(n.keywords.deep_view() == fb_keywords(q));
    assert(convert_parts(n) == fb_file_types(ql).map_values(|ft: Seq<char>| "*."@ + ft)
        + fb_keywords(q));
    assert(n.intent == fb_intent(ql));
    assert(n.original_query@ == q);
}

/// Whether the folded query mentions the marker.
fn has_marker(l: &Vec<char>, marker: &str) -> (b: bool)
    ensures
        b == contains_seq(l@, marker@),
{
    let m = crate::strutil::chars_of(marker);
    crate::strutil::contains_sub(l, &m)
}

/// Whether the word, folded, is one of the filler words.
fn is_stop_word(w: &str) -> (b: bool)
    ensures
        b == fb_stop_word(w@),
{
    let lowered = crate::outside::to_lowercase(w);
    let l = lowered.as_str();
    crate::strutil::str_eq(l, "find") || crate::strutil::str_eq(l, "show") || crate::strutil::str_eq(
        l,
        "where",
    ) || crate::strutil::str_eq(l, "my") || crate::strutil::str_eq(l, "the")
        || crate::strutil::str_eq(l, "a") || crate::strutil::str_eq(l, "an")
        || crate::strutil::str_eq(l, "is") || crate::strutil::str_eq(l, "are")
        || crate::strutil::str_eq(l, "files") || crate::strutil::str_eq(l, "file")
}

/// Appends a literal to a string list.
fn push_str(v: &mut Vec<String>, s: &str)
    ensures
        final(v).deep_view() == old(v).deep_view().push(s@),
{
    let ghost old_kv = v@;
    let ghost old_kdv = v.deep_view();
    v.push(String::from_str(s));
    proof {
        crate::strutil::lemma_deep_view_push_str(old_kv, old_kdv, v@, v.deep_view(), s@);
    }
}

} // verus!
