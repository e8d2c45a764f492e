//! The primary search entry point: cache check, query planning, store
//! pre-filter, per-pattern-type scoring, ranking and cache fill.
use vstd::prelude::*;

use crate::cache::{same_key, PatternCache, SearchCache};
use crate::outside::{lower_of, regex_accepts, regex_ok, regex_source};
use crate::pattern::{analyze_spec, glob_regex_of, PatternInfo, PatternType};
use crate::score::{
    fuzzy_scan_limit, in_str_set, results_match_prefix, scored_prefix,
};
use crate::store::{
    count_like, entry_like, neg_len_key, prefilter_row_match, IndexedEntry, Store,
};
use crate::strutil::{contains_seq, starts_with_seq, tokens_of, trim_of, without_ext};
use crate::{FileEntry, SearchOptions};

verus! {

/// One pre-filtered candidate row: path, name, modification time.
pub type Candidate = (String, String, Option<i64>);

/// The flat recency and favorite bonuses of the pattern and pre-filtered
/// tiers (the literal engine multiplies instead; see the design note in
/// `adjusted`).
pub open spec fn flat_boost(base: int, is_recent: bool, is_fav: bool) -> int {
    base + (if is_recent {
        1000int
    } else {
        0int
    }) + (if is_fav {
        2000int
    } else {
        0int
    })
}

/// The score of one candidate under a simple prefix pattern: an exact
/// name hit of the prefix literal, an exact hit ignoring the extension,
/// or a plain prefix hit.
pub open spec fn prefix_arm_score(
    name: Seq<char>,
    prefix_l: Seq<char>,
    is_recent: bool,
    is_fav: bool,
) -> int {
    let nl = lower_of(name);
    let base: int = if nl == prefix_l {
        15000
    } else if without_ext(nl) == prefix_l {
        14000
    } else {
        5000
    };
    flat_boost(base, is_recent, is_fav)
}

/// The scored prefix-pattern candidates, in scan order.
pub open spec fn prefix_arm_seq(
    cands: Seq<Candidate>,
    n: int,
    prefix_l: Seq<char>,
    recent: Seq<String>,
    favs: Seq<String>,
) -> Seq<(int, int)>
    decreases n,
{
    if n <= 0 {
        Seq::empty()
    } else {
        prefix_arm_seq(cands, n - 1, prefix_l, recent, favs).push(
            (
                prefix_arm_score(
                    cands[n - 1].1@,
                    prefix_l,
                    in_str_set(recent, cands[n - 1].0@),
                    in_str_set(favs, cands[n - 1].0@),
                ),
                n - 1,
            ),
        )
    }
}

/// The score of one candidate the compiled pattern accepted: the same
/// exact-name tiers over the pattern's literal, else the plain regex
/// tier.
pub open spec fn pattern_arm_score(
    name: Seq<char>,
    literal_l: Seq<char>,
    is_recent: bool,
    is_fav: bool,
) -> int {
    let nl = lower_of(name);
    let base: int = if nl == literal_l {
        15000
    } else if without_ext(nl) == literal_l {
        14000
    } else {
        4000
    };
    flat_boost(base, is_recent, is_fav)
}

/// Whether the compiled pattern accepts the candidate: its name or its
/// full path, both case-folded when `fold` is set.
pub open spec fn pattern_accepts(
    src: Seq<char>,
    name: Seq<char>,
    path: Seq<char>,
    fold: bool,
) -> bool {
    if fold {
        regex_accepts(src, lower_of(name)) || regex_accepts(src, lower_of(path))
    } else {
        regex_accepts(src, name) || regex_accepts(src, path)
    }
}

/// The scored regex/glob candidates, in scan order.
pub open spec fn pattern_arm_seq(
    cands: Seq<Candidate>,
    n: int,
    src: Seq<char>,
    literal_l: Seq<char>,
    fold: bool,
    recent: Seq<String>,
    favs: Seq<String>,
) -> Seq<(int, int)>
    decreases n,
{
    if n <= 0 {
        Seq::empty()
    } else {
        let prev = pattern_arm_seq(cands, n - 1, src, literal_l, fold, recent, favs);
        if pattern_accepts(src, cands[n - 1].1@, cands[n - 1].0@, fold) {
            prev.push(
                (
                    pattern_arm_score(
                        cands[n - 1].1@,
                        literal_l,
                        in_str_set(recent, cands[n - 1].0@),
                        in_str_set(favs, cands[n - 1].0@),
                    ),
                    n - 1,
                ),
            )
        } else {
            prev
        }
    }
}

/// The score of one pre-filtered candidate under a literal query:
/// name-substring tiers, path tier, then the multi-word containment
/// tiers.
pub open spec fn literal_arm_score(
    name: Seq<char>,
    path: Seq<char>,
    q_l: Seq<char>,
    is_recent: bool,
    is_fav: bool,
) -> int {
    let nl = lower_of(name);
    let pl = lower_of(path);
    let base: int = if contains_seq(nl, q_l) {
        if nl == q_l {
            15000
        } else if without_ext(nl) == q_l {
            14000
        } else if starts_with_seq(nl, q_l) {
            4000
        } else {
            3000
        }
    } else if contains_seq(pl, q_l) {
        2000
    } else {
        let words = tokens_of(q_l);
        if words.len() > 1 {
            if forall|k: int| 0 <= k < words.len() ==> contains_seq(nl, #[trigger] words[k]) {
                2800
            } else if forall|k: int|
                0 <= k < words.len() ==> contains_seq(pl, #[trigger] words[k]) {
                1800
            } else {
                1000
            }
        } else {
            1000
        }
    };
    flat_boost(base, is_recent, is_fav)
}

/// The scored literal candidates, in scan order.
pub open spec fn literal_arm_seq(
    cands: Seq<Candidate>,
    n: int,
    q_l: Seq<char>,
    recent: Seq<String>,
    favs: Seq<String>,
) -> Seq<(int, int)>
    decreases n,
{
    if n <= 0 {
        Seq::empty()
    } else {
        literal_arm_seq(cands, n - 1, q_l, recent, favs).push(
            (
                literal_arm_score(
                    cands[n - 1].1@,
                    cands[n - 1].0@,
                    q_l,
                    in_str_set(recent, cands[n - 1].0@),
                    in_str_set(favs, cands[n - 1].0@),
                ),
                n - 1,
            ),
        )
    }
}

/// The scored list agrees with the arm's scan: same scores, entries
/// carrying the candidate's path, name and modification time.
pub open spec fn arm_results_match(
    r: Seq<(i64, FileEntry)>,
    cands: Seq<Candidate>,
    sp: Seq<(int, int)>,
) -> bool {
    &&& r.len() == sp.len()
    &&& forall|j: int| 0 <= j < sp.len() ==> {
        &&& (#[trigger] r[j]).0 as int == sp[j].0
        &&& 0 <= sp[j].1 < cands.len()
        &&& r[j].1.path@ == cands[sp[j].1].0@
        &&& r[j].1.name@ == cands[sp[j].1].1@
        &&& r[j].1.last_accessed is None
        &&& r[j].1.access_count == 0
        &&& r[j].1.modified_at == cands[sp[j].1].2
    }
}

/// Scores the pre-filtered candidates of a simple prefix pattern.
pub fn score_prefix_arm(
    cands: &Vec<Candidate>,
    prefix_l: &Vec<char>,
    recent: &Vec<String>,
    favs: &Vec<String>,
) -> (r: Vec<(i64, FileEntry)>)
    ensures
        arm_results_match(
            r@,
            cands@,
            prefix_arm_seq(
                cands@,
                vstd::math::min(200, cands@.len() as int),
                prefix_l@,
                recent@,
                favs@,
            ),
        ),
{
    let n: usize = if cands.len() < 200 {
        cands.len()
    } else {
        200
    };
    let mut r: Vec<(i64, FileEntry)> = Vec::new();
    let mut i: usize = 0;
    while i < n
        invariant
            0 <= i <= n <= cands@.len(),
            arm_results_match(
                r@,
                cands@,
                prefix_arm_seq(cands@, i as int, prefix_l@, recent@, favs@),
            ),
        decreases n - i,
    {
        let path = cands[i].0.clone();
        let name = cands[i].1.clone();
        let is_recent = crate::score::contains_string(recent, &path);
        let is_fav = crate::score::contains_string(favs, &path);
        let name_l_string = crate::outside::to_lowercase(name.as_str());
        let name_l = crate::strutil::chars_of(name_l_string.as_str());
        let base: i64 = if crate::strutil::eq_chars(&name_l, prefix_l) {
            15000
        } else {
            let stem = crate::strutil::strip_extension(&name_l);
            if crate::strutil::eq_chars(&stem, prefix_l) {
                14000
            } else {
                5000
            }
        };
        let mut score = base;
        if is_recent {
            score += 1000;
        }
        if is_fav {
            score += 2000;
        }
        r.push(
            (
                score,
                FileEntry {
                    path,
                    name,
                    last_accessed: None,
                    access_count: 0,
                    modified_at: cands[i].2,
                },
            ),
        );
        i += 1;
    }
    r
}

/// Scores the candidates a compiled regex or glob accepts. `literal_l` is
/// the folded literal an exact filename is held against (the glob's
/// prefix when it has one, else the folded query); `fold` says whether
/// matching is case-insensitive (globs are, explicit regexes are not).
pub fn score_pattern_arm(
    cands: &Vec<Candidate>,
    re: &crate::outside::CompiledRegex,
    literal_l: &Vec<char>,
    fold: bool,
    recent: &Vec<String>,
    favs: &Vec<String>,
) -> (r: Vec<(i64, FileEntry)>)
    ensures
        arm_results_match(
            r@,
            cands@,
            pattern_arm_seq(
                cands@,
                vstd::math::min(
                    (if cands@.len() > 1000 {
                        300int
                    } else {
                        200int
                    }),
                    cands@.len() as int,
                ),
                regex_source(re),
                literal_l@,
                fold,
                recent@,
                favs@,
            ),
        ),
{
    let budget: usize = if cands.len() > 1000 {
        300
    } else {
        200
    };
    let n: usize = if cands.len() < budget {
        cands.len()
    } else {
        budget
    };
    let mut r: Vec<(i64, FileEntry)> = Vec::new();
    let mut i: usize = 0;
    while i < n
        invariant
            0 <= i <= n <= cands@.len(),
            n as int == vstd::math::min(
                (if cands@.len() > 1000 {
                    300int
                } else {
                    200int
                }),
                cands@.len() as int,
            ),
            arm_results_match(
                r@,
                cands@,
                pattern_arm_seq(
                    cands@,
                    i as int,
                    regex_source(re),
                    literal_l@,
                    fold,
                    recent@,
                    favs@,
                ),
            ),
        decreases n - i,
    {
        let path = cands[i].0.clone();
        let name = cands[i].1.clone();
        let accepted: bool = if fold {
            let name_f = crate::outside::to_lowercase(name.as_str());
            let path_f = crate::outside::to_lowercase(path.as_str());
            crate::outside::regex_is_match(re, name_f.as_str()) || crate::outside::regex_is_match(
                re,
                path_f.as_str(),
            )
        } else {
            crate::outside::regex_is_match(re, name.as_str()) || crate::outside::regex_is_match(
                re,
                path.as_str(),
            )
        };
        if accepted {
            let is_recent = crate::score::contains_string(recent, &path);
            let is_fav = crate::score::contains_string(favs, &path);
            let name_l_string = crate::outside::to_lowercase(name.as_str());
            let name_l = crate::strutil::chars_of(name_l_string.as_str());
            let base: i64 = if crate::strutil::eq_chars(&name_l, literal_l) {
                15000
            } else {
                let stem = crate::strutil::strip_extension(&name_l);
                if crate::strutil::eq_chars(&stem, literal_l) {
                    14000
                } else {
                    4000
                }
            };
            let mut score = base;
            if is_recent {
                score += 1000;
            }
            if is_fav {
                score += 2000;
            }
            r.push(
                (
                    score,
                    FileEntry {
                        path,
                        name,
                        last_accessed: None,
                        access_count: 0,
                        modified_at: cands[i].2,
                    },
                ),
            );
        }
        i += 1;
    }
    r
}

/// Scores the pre-filtered candidates of a single-word or multi-word
/// literal query.
#[verifier::rlimit(50)]
pub fn score_literal_arm(
    cands: &Vec<Candidate>,
    q_l: &Vec<char>,
    toks_l: &Vec<Vec<char>>,
    recent: &Vec<String>,
    favs: &Vec<String>,
) -> (r: Vec<(i64, FileEntry)>)
    requires
        toks_l.deep_view() == tokens_of(q_l@),
    ensures
        arm_results_match(
            r@,
            cands@,
            literal_arm_seq(
                cands@,
                vstd::math::min(150, cands@.len() as int),
                q_l@,
                recent@,
                favs@,
            ),
        ),
{
    let n: usize = if cands.len() < 150 {
        cands.len()
    } else {
        150
    };
    let mut r: Vec<(i64, FileEntry)> = Vec::new();
    let mut i: usize = 0;
    while i < n
        invariant
            0 <= i <= n <= cands@.len(),
            toks_l.deep_view() == tokens_of(q_l@),
            arm_results_match(r@, cands@, literal_arm_seq(cands@, i as int, q_l@, recent@, favs@)),
        decreases n - i,
    {
        let path = cands[i].0.clone();
        let name = cands[i].1.clone();
        let is_recent = crate::score::contains_string(recent, &path);
        let is_fav = crate::score::contains_string(favs, &path);
        let name_l_string = crate::outside::to_lowercase(name.as_str());
        let nl = crate::strutil::chars_of(name_l_string.as_str());
        let path_l_string = crate::outside::to_lowercase(path.as_str());
        let pl = crate::strutil::chars_of(path_l_string.as_str());
        let base: i64 = if crate::strutil::contains_sub(&nl, q_l) {
            if crate::strutil::eq_chars(&nl, q_l) {
                15000
            } else {
                let stem = crate::strutil::strip_extension(&nl);
                if crate::strutil::eq_chars(&stem, q_l) {
                    14000
                } else if crate::strutil::starts_with(&nl, q_l) {
                    4000
                } else {
                    3000
                }
            }
        } else if crate::strutil::contains_sub(&pl, q_l) {
            2000
        } else if toks_l.len() > 1 {
            if all_tokens_in(&nl, toks_l) {
                2800
            } else if all_tokens_in(&pl, toks_l) {
                1800
            } else {
                1000
            }
        } else {
            1000
        };
        let mut score = base;
        if is_recent {
            score += 1000;
        }
        if is_fav {
            score += 2000;
        }
        r.push(
            (
                score,
                FileEntry {
                    path,
                    name,
                    last_accessed: None,
                    access_count: 0,
                    modified_at: cands[i].2,
                },
            ),
        );
        i += 1;
    }
    r
}

/// The options a query runs under when none are passed.
pub open spec fn opts_of(options: Option<SearchOptions>) -> SearchOptions {
    match options {
        Some(o) => o,
        None => SearchOptions {
            search_folders: true,
            enable_fuzzy: true,
            strict_mode: false,
            filename_only: false,
        },
    }
}

/// Drops the scores off a ranked list.
pub fn drop_scores(v: &Vec<(i64, FileEntry)>) -> (r: Vec<FileEntry>)
    ensures
        r@.len() == v@.len(),
        forall|j: int| 0 <= j < v@.len() ==> #[trigger] r@[j] == v@[j].1,
{
    let mut r: Vec<FileEntry> = Vec::new();
    let mut i: usize = 0;
    while i < v.len()
        invariant
            0 <= i <= v@.len(),
            r@.len() == i,
            forall|j: int| 0 <= j < i ==> #[trigger] r@[j] == v@[j].1,
        decreases v@.len() - i,
    {
        let e = &v[i].1;
        r.push(
            FileEntry {
                path: e.path.clone(),
                name: e.name.clone(),
                last_accessed: e.last_accessed,
                access_count: e.access_count,
                modified_at: e.modified_at,
            },
        );
        i += 1;
    }
    r
}

/// Candidates as bare `(path, name)` pairs for the literal engine.
pub fn to_pairs(cands: &Vec<Candidate>) -> (r: Vec<(String, String)>)
    ensures
        r@.len() == cands@.len(),
        forall|j: int|
            0 <= j < cands@.len() ==> (#[trigger] r@[j]).0@ == cands@[j].0@ && r@[j].1@
                == cands@[j].1@,
{
    let mut r: Vec<(String, String)> = Vec::new();
    let mut i: usize = 0;
    while i < cands.len()
        invariant
            0 <= i <= cands@.len(),
            r@.len() == i,
            forall|j: int|
                0 <= j < i ==> (#[trigger] r@[j]).0@ == cands@[j].0@ && r@[j].1@ == cands@[j].1@,
        decreases cands@.len() - i,
    {
        r.push((cands[i].0.clone(), cands[i].1.clone()));
        i += 1;
    }
    r
}

/// The ranking cut: how many rows the final sort keeps.
pub open spec fn rank_cut(n: int) -> int {
    if n > 1000 {
        500
    } else if n > 100 {
        300
    } else {
        100
    }
}

/// `r` is `scored`, ranked at the cut and stripped of its scores.
pub open spec fn ranked_entries(r: Seq<FileEntry>, scored: Seq<(i64, FileEntry)>) -> bool {
    exists|ranked: Seq<(i64, FileEntry)>|
        #[trigger] crate::rank::ranked_of(ranked, scored, rank_cut(scored.len() as int)) && r
            == ranked.map_values(|p: (i64, FileEntry)| p.1)
}

/// What `Store::recent_paths` yields: the recency boost set.
pub open spec fn recent_post(
    recent: Seq<String>,
    rows: Seq<crate::store::RecentAccess>,
    cap: int,
) -> bool {
    &&& recent.len() == vstd::math::min(cap, rows.len() as int)
    &&& (forall|j: int|
        0 <= j < recent.len() ==> crate::store::recent_has_path(rows, (#[trigger] recent[j])@))
    &&& (forall|i: int, j: int|
        0 <= i < j < recent.len() ==> (#[trigger] recent[i])@ != (#[trigger] recent[j])@)
}

/// What `Store::get_favorites` yields: the favorite boost set.
pub open spec fn favs_post(favs: Seq<String>, rows: Seq<crate::store::Favorite>) -> bool {
    &&& favs.len() == rows.len()
    &&& (forall|j: int|
        0 <= j < favs.len() ==> crate::store::fav_has_path(rows, (#[trigger] favs[j])@))
    &&& (forall|i: int, j: int|
        0 <= i < j < favs.len() ==> (#[trigger] favs[i])@ != (#[trigger] favs[j])@)
    &&& (forall|i: int, j: int|
        0 <= i <= j < favs.len() ==> crate::store::spec_fav_time(rows, (#[trigger] favs[i])@)
            >= crate::store::spec_fav_time(rows, (#[trigger] favs[j])@))
}

/// What `Store::prefilter` yields for this pattern and cut.
pub open spec fn prefilter_post(
    cands: Seq<Candidate>,
    entries: Seq<IndexedEntry>,
    pat: Seq<char>,
    limit: int,
) -> bool {
    &&& cands.len() == vstd::math::min(
        limit,
        count_like(entries, entries.len() as int, lower_of(pat)),
    )
    &&& (forall|j: int|
        0 <= j < cands.len() ==> exists|k: int|
            0 <= k < entries.len() && prefilter_row_match(
                #[trigger] cands[j],
                entries[k],
                lower_of(pat),
            ))
    &&& (forall|i: int, j: int|
        0 <= i < j < cands.len() ==> (#[trigger] cands[i]).0@ != (#[trigger] cands[j]).0@)
    &&& (forall|i: int, j: int|
        0 <= i <= j < cands.len() ==> neg_len_key((#[trigger] cands[i]).1@.len() as int)
            >= neg_len_key((#[trigger] cands[j]).1@.len() as int))
    &&& (forall|k: int|
        0 <= k < entries.len() && entry_like(#[trigger] entries[k], lower_of(pat)) && limit > 0
            ==> (exists|j: int| 0 <= j < cands.len() && (#[trigger] cands[j]).0@
            == entries[k].path@) || (cands.len() > 0 && cands.len() == limit && neg_len_key(
            entries[k].name@.len() as int,
        ) <= neg_len_key(cands[cands.len() - 1].1@.len() as int)))
}

/// What `Store::prefilter_all` yields: the first `limit` entries.
pub open spec fn prefilter_all_post(
    cands: Seq<Candidate>,
    entries: Seq<IndexedEntry>,
    limit: int,
) -> bool {
    &&& cands.len() == vstd::math::min(limit, entries.len() as int)
    &&& (forall|j: int|
        0 <= j < cands.len() ==> (#[trigger] cands[j]).0@ == entries[j].path@ && cands[j].1@
            == entries[j].name@ && cands[j].2 == entries[j].modified_at)
}

/// Whether a candidate passes the modification-time bound a natural
/// query's time constraint derives.
pub open spec fn passes_since(c: Candidate, cutoff: Option<i64>) -> bool {
    match cutoff {
        None => true,
        Some(t) => c.2 is Some && c.2->0 > t,
    }
}

/// The candidates passing the time bound, in order, among the first `i`.
pub open spec fn since_from(cands: Seq<Candidate>, i: int, cutoff: Option<i64>) -> Seq<Candidate>
    decreases i,
{
    if i <= 0 {
        Seq::empty()
    } else {
        let prev = since_from(cands, i - 1, cutoff);
        if passes_since(cands[i - 1], cutoff) {
            prev.push(cands[i - 1])
        } else {
            prev
        }
    }
}

/// Keeps the candidates passing the time bound.
pub fn filter_since(cands: Vec<Candidate>, cutoff: Option<i64>) -> (r: Vec<Candidate>)
    ensures
        r@ == since_from(cands@, cands@.len() as int, cutoff),
{
    match cutoff {
        None => {
            proof {
                lemma_since_none(cands@, cands@.len() as int);
            }
            cands
        },
        Some(t) => {
            let mut r: Vec<Candidate> = Vec::new();
            let mut i: usize = 0;
            while i < cands.len()
                invariant
                    0 <= i <= cands@.len(),
                    r@ == since_from(cands@, i as int, Some(t)),
                decreases cands@.len() - i,
            {
                let keep = match cands[i].2 {
                    Some(m) => m > t,
                    None => false,
                };
                if keep {
                    r.push((cands[i].0.clone(), cands[i].1.clone(), cands[i].2));
                    proof {
                        assert(r@.last() == cands@[i as int]);
                        assert(r@ =~= since_from(cands@, i + 1, Some(t)));
                    }
                }
                i += 1;
            }
            r
        },
    }
}

/// Without a bound the filter keeps everything.
proof fn lemma_since_none(cands: Seq<Candidate>, i: int)
    requires
        0 <= i <= cands.len(),
    ensures
        since_from(cands, i, None) == cands.subrange(0, i),
    decreases i,
{
    if i > 0 {
        lemma_since_none(cands, i - 1);
        assert(since_from(cands, i, None) =~= cands.subrange(0, i));
    } else {
        assert(since_from(cands, 0, None) =~= cands.subrange(0, 0));
    }
}

/// The pairs handed to the matching engine mirror the candidates.
pub open spec fn pairs_of(pairs: Seq<(String, String)>, cands: Seq<Candidate>) -> bool {
    &&& pairs.len() == cands.len()
    &&& (forall|j: int|
        0 <= j < cands.len() ==> (#[trigger] pairs[j]).0@ == cands[j].0@ && pairs[j].1@
            == cands[j].1@)
}

/// The matching-engine fallback over a candidate list: the full literal
/// engine, scan-budgeted.
pub open spec fn fuzzy_outcome(
    scored: Seq<(i64, FileEntry)>,
    cands: Seq<Candidate>,
    q: Seq<char>,
    opts: SearchOptions,
    recent: Seq<String>,
    favs: Seq<String>,
) -> bool {
    exists|pairs: Seq<(String, String)>|
        #[trigger] pairs_of(pairs, cands) && results_match_prefix(
            scored,
            pairs,
            scored_prefix(
                pairs,
                vstd::math::min(fuzzy_scan_limit(trim_of(q)), pairs.len() as int),
                trim_of(q),
                opts,
                recent,
                favs,
            ),
        )
}

/// The folded literal an exact filename is held against under a glob.
pub open spec fn glob_literal(q: Seq<char>, info: crate::pattern::PatternAnalysis) -> Seq<
    char,
> {
    match info.prefix {
        Some(p) => lower_of(p),
        None => lower_of(q),
    }
}

/// The regex source an explicit pattern stands for.
pub open spec fn explicit_source(q: Seq<char>, ptype: PatternType) -> Seq<char> {
    if ptype == PatternType::PrefixSuffix {
        if q.len() > 0 && q[0] == '^' {
            q
        } else {
            seq!['^'] + q + seq!['$']
        }
    } else {
        if q.len() >= 2 && q[0] == '/' && q[q.len() - 1] == '/' {
            q.subrange(1, q.len() - 1)
        } else {
            q
        }
    }
}

/// How many candidates the pattern arm examines.
pub open spec fn pattern_scan_budget(n: int) -> int {
    vstd::math::min(
        if n > 1000 {
            300int
        } else {
            200int
        },
        n,
    )
}

/// The simple-prefix outcome: one scored row per time-filtered
/// pre-filtered candidate, at the prefix tiers.
pub open spec fn prefix_outcome(
    scored: Seq<(i64, FileEntry)>,
    store: Store,
    q: Seq<char>,
    recent: Seq<String>,
    favs: Seq<String>,
    min_modified: Option<i64>,
) -> bool {
    exists|cands0: Seq<Candidate>|
        #![trigger cands0.len()]
        {
            let cands = since_from(cands0, cands0.len() as int, min_modified);
            &&& prefilter_post(cands0, store.entries@, analyze_spec(q).sql_like->0, 100)
            &&& arm_results_match(
                scored,
                cands,
                prefix_arm_seq(
                    cands,
                    vstd::math::min(200, cands.len() as int),
                    lower_of(analyze_spec(q).prefix->0),
                    recent,
                    favs,
                ),
            )
        }
}

/// The glob outcome: the folded glob regex over the time-filtered
/// pre-filtered candidates, or the matching-engine fallback when the
/// translated pattern does not compile.
pub open spec fn glob_outcome(
    scored: Seq<(i64, FileEntry)>,
    store: Store,
    q: Seq<char>,
    opts: SearchOptions,
    recent: Seq<String>,
    favs: Seq<String>,
    min_modified: Option<i64>,
) -> bool {
    exists|cands0: Seq<Candidate>|
        #![trigger cands0.len()]
        {
            let cands = since_from(cands0, cands0.len() as int, min_modified);
            let src = glob_regex_of(lower_of(q));
            &&& prefilter_post(
                cands0,
                store.entries@,
                analyze_spec(q).sql_like->0,
                if analyze_spec(q).suffix is Some {
                    50int
                } else {
                    100int
                },
            )
            &&& if regex_ok(src) {
                arm_results_match(
                    scored,
                    cands,
                    pattern_arm_seq(
                        cands,
                        pattern_scan_budget(cands.len() as int),
                        src,
                        glob_literal(q, analyze_spec(q)),
                        true,
                        recent,
                        favs,
                    ),
                )
            } else {
                fuzzy_outcome(scored, cands, q, opts, recent, favs)
            }
        }
}

/// The explicit-pattern outcome: the anchored or slash-stripped regex
/// over a bounded store scan, or the matching-engine fallback when it
/// does not compile.
pub open spec fn explicit_outcome(
    scored: Seq<(i64, FileEntry)>,
    store: Store,
    q: Seq<char>,
    opts: SearchOptions,
    recent: Seq<String>,
    favs: Seq<String>,
) -> bool {
    exists|cands: Seq<Candidate>|
        #![trigger cands.len()]
        {
            let src = explicit_source(q, analyze_spec(q).pattern_type);
            &&& prefilter_all_post(
                cands,
                store.entries@,
                if analyze_spec(q).prefix is Some {
                    100int
                } else {
                    50int
                },
            )
            &&& if regex_ok(src) {
                arm_results_match(
                    scored,
                    cands,
                    pattern_arm_seq(
                        cands,
                        pattern_scan_budget(cands.len() as int),
                        src,
                        lower_of(q),
                        false,
                        recent,
                        favs,
                    ),
                )
            } else {
                fuzzy_outcome(scored, cands, q, opts, recent, favs)
            }
        }
}

/// The multi-word literal outcome: the full matching engine over a
/// first-word pre-filter.
pub open spec fn multi_word_outcome(
    scored: Seq<(i64, FileEntry)>,
    store: Store,
    q: Seq<char>,
    opts: SearchOptions,
    recent: Seq<String>,
    favs: Seq<String>,
) -> bool {
    if tokens_of(lower_of(q)).len() > 0 {
        exists|cands0: Seq<Candidate>|
            #![trigger cands0.len()]
            {
                &&& prefilter_post(
                    cands0,
                    store.entries@,
                    seq!['%'] + tokens_of(lower_of(q))[0] + seq!['%'],
                    2000,
                )
                &&& fuzzy_outcome(scored, cands0, q, opts, recent, favs)
            }
    } else {
        fuzzy_outcome(scored, Seq::empty(), q, opts, recent, favs)
    }
}

/// The single-word literal outcome: the substring tiers over the
/// time-filtered pre-filtered candidates, or the matching engine when
/// none are left.
pub open spec fn single_word_outcome(
    scored: Seq<(i64, FileEntry)>,
    store: Store,
    q: Seq<char>,
    opts: SearchOptions,
    recent: Seq<String>,
    favs: Seq<String>,
    min_modified: Option<i64>,
) -> bool {
    exists|cands0: Seq<Candidate>|
        #![trigger cands0.len()]
        {
            let cands = since_from(cands0, cands0.len() as int, min_modified);
            &&& prefilter_post(cands0, store.entries@, analyze_spec(q).sql_like->0, 25)
            &&& if cands.len() == 0 {
                fuzzy_outcome(scored, cands, q, opts, recent, favs)
            } else {
                arm_results_match(
                    scored,
                    cands,
                    literal_arm_seq(
                        cands,
                        vstd::math::min(150, cands.len() as int),
                        lower_of(q),
                        recent,
                        favs,
                    ),
                )
            }
        }
}

/// What a computed (non-cached) answer scores, before ranking: one
/// scored row per candidate the classified pattern type accepts, over
/// the pre-filtered (and, where a time bound applies, time-filtered)
/// candidates, boosted by some recency and favorite sets the store
/// yields.
pub open spec fn scored_outcome(
    scored: Seq<(i64, FileEntry)>,
    store: Store,
    q: Seq<char>,
    opts: SearchOptions,
    min_modified: Option<i64>,
) -> bool {
    exists|recent: Seq<String>, favs: Seq<String>|
        #![trigger recent_post(recent, store.recent@, 50), favs_post(favs, store.favorites@)]
        {
            &&& recent_post(recent, store.recent@, 50)
            &&& favs_post(favs, store.favorites@)
            &&& if analyze_spec(q).pattern_type == PatternType::SimplePrefix {
                prefix_outcome(scored, store, q, recent, favs, min_modified)
            } else if analyze_spec(q).pattern_type == PatternType::SimpleGlob {
                glob_outcome(scored, store, q, opts, recent, favs, min_modified)
            } else if analyze_spec(q).pattern_type == PatternType::PrefixSuffix || analyze_spec(
                q,
            ).pattern_type == PatternType::ComplexRegex {
                explicit_outcome(scored, store, q, opts, recent, favs)
            } else if contains_seq(q, seq![' ']) && !contains_seq(q, seq!['.']) {
                multi_word_outcome(scored, store, q, opts, recent, favs)
            } else {
                single_word_outcome(scored, store, q, opts, recent, favs, min_modified)
            }
        }
}

/// What a computed answer holds: the ranked, score-stripped form of a
/// scored outcome.
pub open spec fn computed_outcome(
    r: Seq<FileEntry>,
    store: Store,
    q: Seq<char>,
    opts: SearchOptions,
    min_modified: Option<i64>,
) -> bool {
    exists|scored: Seq<(i64, FileEntry)>|
        #[trigger] scored_outcome(scored, store, q, opts, min_modified) && ranked_entries(
            r,
            scored,
        )
}

/// Scores the candidates of a simple prefix pattern.
#[verifier::rlimit(100)]
fn run_prefix(
    store: &Store,
    info: &PatternInfo,
    query: &str,
    min_modified: Option<i64>,
    recent: &Vec<String>,
    favs: &Vec<String>,
) -> (s: Vec<(i64, FileEntry)>)
    requires
        store.wf(),
        info@ == analyze_spec(query@),
        info@.pattern_type == PatternType::SimplePrefix,
    ensures
        prefix_outcome(s@, *store, query@, recent@, favs@, min_modified),
{
    proof {
        assert(analyze_spec(query@).sql_like is Some && analyze_spec(query@).prefix is Some) by {
            reveal(crate::pattern::analyze_spec);
        }
    }
    let cands0 = match &info.sql_like_pattern {
        Some(p) => store.prefilter(p, 100),
        None => {
            proof {
                assert(false);
            }
            Vec::new()
        },
    };
    let ghost gcands0 = cands0@;
    let cands = filter_since(cands0, min_modified);
    let prefix_l = lower_chars_of(info.prefix.as_ref());
    let s = score_prefix_arm(&cands, &prefix_l, recent, favs);
    proof {
        assert(prefilter_post(gcands0, store.entries@, analyze_spec(query@).sql_like->0, 100));
        assert(prefix_outcome(s@, *store, query@, recent@, favs@, min_modified));
    }
    s
}

/// Scores the candidates of a simple glob, case-folded, falling back to
/// the matching engine when the translated pattern does not compile.
#[verifier::rlimit(100)]
fn run_glob(
    store: &Store,
    regex_cache: &mut PatternCache,
    info: &PatternInfo,
    query: &str,
    search_opts: &SearchOptions,
    min_modified: Option<i64>,
    recent: &Vec<String>,
    favs: &Vec<String>,
) -> (s: Vec<(i64, FileEntry)>)
    requires
        store.wf(),
        old(regex_cache).wf(),
        info@ == analyze_spec(query@),
        info@.pattern_type == PatternType::SimpleGlob,
        trim_of(query@).len() > 0,
    ensures
        final(regex_cache).wf(),
        glob_outcome(s@, *store, query@, *search_opts, recent@, favs@, min_modified),
{
    proof {
        assert(analyze_spec(query@).sql_like is Some) by {
            reveal(crate::pattern::analyze_spec);
        }
    }
    let lim: usize = if info.suffix.is_some() {
        50
    } else {
        100
    };
    let cands0 = match &info.sql_like_pattern {
        Some(p) => store.prefilter(p, lim),
        None => {
            proof {
                assert(false);
            }
            Vec::new()
        },
    };
    let ghost gcands0 = cands0@;
    let cands = filter_since(cands0, min_modified);
    // globs match case-insensitively: the pattern and both haystacks are
    // folded
    let lowered_query = crate::outside::to_lowercase(query);
    let lq = crate::strutil::chars_of(lowered_query.as_str());
    let src = crate::pattern::build_glob_regex(&lq);
    let literal_l = match &info.prefix {
        Some(p) => lower_chars_of(Some(p)),
        None => lq,
    };
    let s = match regex_cache.get_or_compile(&src) {
        Some(idx) => {
            let re = &regex_cache.pats[idx];
            let s2 = score_pattern_arm(&cands, re, &literal_l, true, recent, favs);
            proof {
                assert(regex_source(re) == glob_regex_of(lower_of(query@)));
                assert(literal_l@ == glob_literal(query@, analyze_spec(query@)));
            }
            s2
        },
        None => {
            let pairs = to_pairs(&cands);
            let ghost gpairs = pairs@;
            let s2 = crate::score::fuzzy_search_files(pairs, query, recent, favs, search_opts);
            proof {
                assert(pairs_of(gpairs, cands@));
                assert(fuzzy_outcome(s2@, cands@, query@, *search_opts, recent@, favs@));
            }
            s2
        },
    };
    proof {
        assert(prefilter_post(
            gcands0,
            store.entries@,
            analyze_spec(query@).sql_like->0,
            lim as int,
        ));
        assert(glob_outcome(s@, *store, query@, *search_opts, recent@, favs@, min_modified));
    }
    s
}

/// Scores the candidates of an explicit regex or `prefix.*suffix`
/// pattern, falling back to the matching engine when it does not compile.
#[verifier::rlimit(100)]
fn run_explicit(
    store: &Store,
    regex_cache: &mut PatternCache,
    info: &PatternInfo,
    qchars: &Vec<char>,
    query: &str,
    search_opts: &SearchOptions,
    recent: &Vec<String>,
    favs: &Vec<String>,
) -> (s: Vec<(i64, FileEntry)>)
    requires
        store.wf(),
        old(regex_cache).wf(),
        qchars@ == query@,
        info@ == analyze_spec(query@),
        info@.pattern_type == PatternType::PrefixSuffix || info@.pattern_type
            == PatternType::ComplexRegex,
        trim_of(query@).len() > 0,
    ensures
        final(regex_cache).wf(),
        explicit_outcome(s@, *store, query@, *search_opts, recent@, favs@),
{
    let lim: usize = if info.prefix.is_some() {
        100
    } else {
        50
    };
    let cands = store.prefilter_all(lim);
    let src = pattern_source(qchars, info);
    let lowered_query = crate::outside::to_lowercase(query);
    let literal_l = crate::strutil::chars_of(lowered_query.as_str());
    proof {
        assert(src@ == explicit_source(query@, analyze_spec(query@).pattern_type));
    }
    let s = match regex_cache.get_or_compile(&src) {
        Some(idx) => {
            let re = &regex_cache.pats[idx];
            score_pattern_arm(&cands, re, &literal_l, false, recent, favs)
        },
        None => {
            // an invalid pattern falls back to the literal engine
            let pairs = to_pairs(&cands);
            let ghost gpairs = pairs@;
            let s2 = crate::score::fuzzy_search_files(pairs, query, recent, favs, search_opts);
            proof {
                assert(pairs_of(gpairs, cands@));
                assert(fuzzy_outcome(s2@, cands@, query@, *search_opts, recent@, favs@));
            }
            s2
        },
    };
    proof {
        assert(prefilter_all_post(cands@, store.entries@, lim as int));
        assert(explicit_outcome(s@, *store, query@, *search_opts, recent@, favs@));
    }
    s
}

/// Runs a multi-word literal through the matching engine over a
/// first-word pre-filter.
#[verifier::rlimit(100)]
fn run_multi_word(
    store: &Store,
    query: &str,
    query_string: &String,
    search_opts: &SearchOptions,
    recent: &Vec<String>,
    favs: &Vec<String>,
) -> (s: Vec<(i64, FileEntry)>)
    requires
        store.wf(),
        query_string@ == query@,
        trim_of(query@).len() > 0,
    ensures
        multi_word_outcome(s@, *store, query@, *search_opts, recent@, favs@),
{
    let lowered_query = crate::outside::to_lowercase(query_string.as_str());
    let lq = crate::strutil::chars_of(lowered_query.as_str());
    let toks = crate::strutil::tokenize(&lq);
    if toks.len() > 0 {
        let mut pat: Vec<char> = Vec::new();
        pat.push('%');
        crate::pattern::append_all(&mut pat, &toks[0]);
        pat.push('%');
        proof {
            crate::strutil::vec_deep_view_is_view(toks@[0]);
            assert(pat@ =~= seq!['%'] + tokens_of(lower_of(query@))[0] + seq!['%']);
        }
        let cands = store.prefilter(&pat, 2000);
        let pairs = to_pairs(&cands);
        let ghost gpairs = pairs@;
        let s = crate::score::fuzzy_search_files(pairs, query, recent, favs, search_opts);
        proof {
            assert(tokens_of(lower_of(query@)).len() > 0);
            assert(prefilter_post(
                cands@,
                store.entries@,
                seq!['%'] + tokens_of(lower_of(query@))[0] + seq!['%'],
                2000,
            ));
            assert(pairs_of(gpairs, cands@));
            assert(fuzzy_outcome(s@, cands@, query@, *search_opts, recent@, favs@));
        }
        s
    } else {
        let cands: Vec<Candidate> = Vec::new();
        let pairs = to_pairs(&cands);
        let ghost gpairs = pairs@;
        let s = crate::score::fuzzy_search_files(pairs, query, recent, favs, search_opts);
        proof {
            assert(gpairs =~= Seq::<(String, String)>::empty());
            assert(pairs_of(gpairs, Seq::<Candidate>::empty()));
            assert(fuzzy_outcome(
                s@,
                Seq::<Candidate>::empty(),
                query@,
                *search_opts,
                recent@,
                favs@,
            ));
        }
        s
    }
}

/// Scores a single-word literal over its pre-filtered candidates, or
/// through the matching engine when none are left.
#[verifier::rlimit(100)]
fn run_single_word(
    store: &Store,
    info: &PatternInfo,
    query: &str,
    query_string: &String,
    search_opts: &SearchOptions,
    min_modified: Option<i64>,
    recent: &Vec<String>,
    favs: &Vec<String>,
) -> (s: Vec<(i64, FileEntry)>)
    requires
        store.wf(),
        query_string@ == query@,
        info@ == analyze_spec(query@),
        info@.pattern_type == PatternType::LiteralSearch,
        trim_of(query@).len() > 0,
    ensures
        single_word_outcome(s@, *store, query@, *search_opts, recent@, favs@, min_modified),
{
    proof {
        assert(analyze_spec(query@).sql_like is Some) by {
            reveal(crate::pattern::analyze_spec);
        }
    }
    let cands0 = match &info.sql_like_pattern {
        Some(p) => store.prefilter(p, 25),
        None => {
            proof {
                assert(false);
            }
            Vec::new()
        },
    };
    let ghost gcands0 = cands0@;
    let cands = filter_since(cands0, min_modified);
    let s = if cands.len() == 0 {
        let pairs = to_pairs(&cands);
        let ghost gpairs = pairs@;
        let s2 = crate::score::fuzzy_search_files(pairs, query, recent, favs, search_opts);
        proof {
            assert(pairs_of(gpairs, cands@));
            assert(fuzzy_outcome(s2@, cands@, query@, *search_opts, recent@, favs@));
        }
        s2
    } else {
        let lowered_query = crate::outside::to_lowercase(query_string.as_str());
        let ql = crate::strutil::chars_of(lowered_query.as_str());
        let toks = crate::strutil::tokenize(&ql);
        score_literal_arm(&cands, &ql, &toks, recent, favs)
    };
    proof {
        assert(prefilter_post(gcands0, store.entries@, analyze_spec(query@).sql_like->0, 25));
        assert(single_word_outcome(
            s@,
            *store,
            query@,
            *search_opts,
            recent@,
            favs@,
            min_modified,
        ));
    }
    s
}

/// The primary entry point: serves a fresh cached result for an identical
/// query unchanged; otherwise plans the query, pre-filters the store,
/// scores the bounded candidate set by pattern type, ranks, and caches
/// what it returns. An empty or one-character query returns nothing.
#[verifier::rlimit(100)]
pub fn search_files(
    store: &Store,
    cache: &mut SearchCache,
    regex_cache: &mut PatternCache,
    query: &str,
    options: Option<SearchOptions>,
    min_modified: Option<i64>,
    now: i64,
) -> (r: Vec<FileEntry>)
    requires
        store.wf(),
        old(cache).wf(),
        old(regex_cache).wf(),
    ensures
        final(cache).wf(),
        final(regex_cache).wf(),
        trim_of(query@).len() == 0 ==> r@.len() == 0 && *final(cache) == *old(cache),
        query@.len() < 2 ==> r@.len() == 0 && *final(cache) == *old(cache),
        // a fresh entry for this key is served unchanged
        forall|k: int|
            0 <= k < old(cache).entries@.len() && trim_of(query@).len() > 0 && query@.len() >= 2
                && same_key(
                #[trigger] old(cache).entries@[k],
                query@,
                opts_of(options),
            ) && now - old(cache).entries@[k].stamp < crate::cache::cache_ttl_secs() ==> r@ == old(
                cache,
            ).entries@[k].results@,
        // a served hit survives the access: the entry stays cached, fresh,
        // with these results
        (trim_of(query@).len() > 0 && query@.len() >= 2 && (exists|k: int|
            0 <= k < old(cache).entries@.len() && same_key(
                #[trigger] old(cache).entries@[k],
                query@,
                opts_of(options),
            ) && now - old(cache).entries@[k].stamp < crate::cache::cache_ttl_secs())) ==> exists|
            k2: int,
        |
            0 <= k2 < final(cache).entries@.len() && same_key(
                #[trigger] final(cache).entries@[k2],
                query@,
                opts_of(options),
            ) && final(cache).entries@[k2].results@ == r@ && now - final(cache).entries@[k2].stamp
                < crate::cache::cache_ttl_secs(),
        // past the early returns, a miss computes the classified, scored,
        // ranked answer and caches it
        (trim_of(query@).len() > 0 && query@.len() >= 2 && (forall|k: int|
            0 <= k < old(cache).entries@.len() && same_key(
                #[trigger] old(cache).entries@[k],
                query@,
                opts_of(options),
            ) ==> now - old(cache).entries@[k].stamp >= crate::cache::cache_ttl_secs())) ==> {
            &&& computed_outcome(r@, *store, query@, opts_of(options), min_modified)
            &&& r@.len() <= 500
            &&& exists|k: int|
                0 <= k < final(cache).entries@.len() && same_key(
                    #[trigger] final(cache).entries@[k],
                    query@,
                    opts_of(options),
                ) && final(cache).entries@[k].stamp == now && final(cache).entries@[k].results@
                    == r@
        },
{
    let search_opts = match options {
        Some(o) => o.clone_opts(),
        None => SearchOptions::default(),
    };
    let qchars = crate::strutil::chars_of(query);
    let trimmed = crate::strutil::trim_chars(&qchars);
    if trimmed.len() == 0 {
        return Vec::new();
    }
    if qchars.len() < 2 {
        return Vec::new();
    }
    let query_string = crate::strutil::string_of(&qchars);
    match cache.lookup(&query_string, &search_opts, now) {
        Some(hit) => {
            proof {
                let k = choose|k: int|
                    0 <= k < old(cache).entries@.len() && same_key(
                        #[trigger] old(cache).entries@[k],
                        query@,
                        opts_of(options),
                    ) && now - old(cache).entries@[k].stamp < crate::cache::cache_ttl_secs()
                        && hit@ == old(cache).entries@[k].results@;
                assert forall|t: int|
                    0 <= t < old(cache).entries@.len() && same_key(
                        #[trigger] old(cache).entries@[t],
                        query@,
                        opts_of(options),
                    ) && now - old(cache).entries@[t].stamp < crate::cache::cache_ttl_secs()
                    implies hit@ == old(cache).entries@[t].results@ by {
                    if t != k {
                        if t < k {
                            assert(!same_key(
                                old(cache).entries@[t],
                                old(cache).entries@[k].query@,
                                old(cache).entries@[k].options,
                            ));
                        } else {
                            assert(!same_key(
                                old(cache).entries@[k],
                                old(cache).entries@[t].query@,
                                old(cache).entries@[t].options,
                            ));
                        }
                    }
                }
            }
            proof {
                // the served entry survives the sweep, fresh and intact
                let k = choose|k: int|
                    0 <= k < old(cache).entries@.len() && same_key(
                        #[trigger] old(cache).entries@[k],
                        query@,
                        opts_of(options),
                    ) && now - old(cache).entries@[k].stamp < crate::cache::cache_ttl_secs()
                        && hit@ == old(cache).entries@[k].results@;
                assert(crate::cache::eqv_present(old(cache).entries@[k], cache.entries@));
                let t = choose|t: int|
                    0 <= t < cache.entries@.len() && crate::cache::entry_eqv(
                        #[trigger] cache.entries@[t],
                        old(cache).entries@[k],
                    );
                assert(same_key(cache.entries@[t], query@, opts_of(options)));
                assert(cache.entries@[t].results@ == hit@);
            }
            return hit;
        },
        None => {},
    }

    let info = crate::pattern::analyze_regex_pattern(query);
    let recent = store.recent_paths(50);
    let favs = store.get_favorites();
    let ghost gq = query@;
    let ghost gopts = opts_of(options);
    proof {
        assert(recent_post(recent@, store.recent@, 50));
        assert(favs_post(favs@, store.favorites@));
        assert(gopts == search_opts);
    }

    let scored: Vec<(i64, FileEntry)> = match info.pattern_type {
        PatternType::SimplePrefix => {
            let s = run_prefix(store, &info, query, min_modified, &recent, &favs);
            proof {
                assert(scored_outcome(s@, *store, gq, gopts, min_modified));
            }
            s
        },
        PatternType::SimpleGlob => {
            let s = run_glob(
                store,
                regex_cache,
                &info,
                query,
                &search_opts,
                min_modified,
                &recent,
                &favs,
            );
            proof {
                assert(scored_outcome(s@, *store, gq, gopts, min_modified));
            }
            s
        },
        PatternType::PrefixSuffix | PatternType::ComplexRegex => {
            let s = run_explicit(
                store,
                regex_cache,
                &info,
                &qchars,
                query,
                &search_opts,
                &recent,
                &favs,
            );
            proof {
                assert(scored_outcome(s@, *store, gq, gopts, min_modified));
            }
            s
        },
        PatternType::LiteralSearch => {
            let mut space: Vec<char> = Vec::new();
            space.push(' ');
            let mut dot: Vec<char> = Vec::new();
            dot.push('.');
            proof {
                assert(space@ =~= seq![' ']);
                assert(dot@ =~= seq!['.']);
            }
            let multi_word = crate::strutil::contains_sub(&qchars, &space)
                && !crate::strutil::contains_sub(&qchars, &dot);
            if multi_word {
                let s = run_multi_word(store, query, &query_string, &search_opts, &recent, &favs);
                proof {
                    assert(scored_outcome(s@, *store, gq, gopts, min_modified));
                }
                s
            } else {
                let s = run_single_word(
                    store,
                    &info,
                    query,
                    &query_string,
                    &search_opts,
                    min_modified,
                    &recent,
                    &favs,
                );
                proof {
                    assert(scored_outcome(s@, *store, gq, gopts, min_modified));
                }
                s
            }
        },
    };

    let ghost gscored = scored@;
    let k: usize = if scored.len() > 1000 {
        500
    } else if scored.len() > 100 {
        300
    } else {
        100
    };
    proof {
        assert(k as int == rank_cut(gscored.len() as int));
    }
    let ranked = crate::rank::rank_descending(scored, k);
    let results = drop_scores(&ranked);
    proof {
        assert(results@ =~= ranked@.map_values(|p: (i64, FileEntry)| p.1));
        assert(ranked_entries(results@, gscored));
        assert(computed_outcome(results@, *store, gq, gopts, min_modified));
    }
    cache.insert(&query_string, &search_opts, &results, now);
    results
}

/// The folded characters of an optional pattern piece.
fn lower_chars_of(piece: Option<&Vec<char>>) -> (r: Vec<char>)
    ensures
        match piece {
            Some(p) => r@ == lower_of(p@),
            None => r@.len() == 0,
        },
{
    match piece {
        Some(p) => {
            let s = crate::strutil::string_of(p);
            let l = crate::outside::to_lowercase(s.as_str());
            crate::strutil::chars_of(l.as_str())
        },
        None => Vec::new(),
    }
}

/// The regex source an explicit pattern stands for: anchored for a
/// `prefix.*suffix` form, slash-stripped for an explicit `/…/` regex.
fn pattern_source(qchars: &Vec<char>, info: &PatternInfo) -> (r: Vec<char>)
    ensures
        info.pattern_type == PatternType::PrefixSuffix ==> r@ == (if qchars@.len() > 0
            && qchars@[0] == '^' {
            qchars@
        } else {
            seq!['^'] + qchars@ + seq!['$']
        }),
        info.pattern_type != PatternType::PrefixSuffix ==> r@ == (if qchars@.len() >= 2
            && qchars@[0] == '/' && qchars@[qchars@.len() - 1] == '/' {
            qchars@.subrange(1, qchars@.len() - 1)
        } else {
            qchars@
        }),
{
    if matches!(info.pattern_type, PatternType::PrefixSuffix) {
        if qchars.len() > 0 && qchars[0] == '^' {
            crate::pattern::copy_range(qchars, 0, qchars.len())
        } else {
            let mut v: Vec<char> = Vec::new();
            v.push('^');
            crate::pattern::append_all(&mut v, qchars);
            v.push('$');
            v
        }
    } else {
        if qchars.len() >= 2 && qchars[0] == '/' && qchars[qchars.len() - 1] == '/' {
            crate::pattern::copy_range(qchars, 1, qchars.len() - 1)
        } else {
            crate::pattern::copy_range(qchars, 0, qchars.len())
        }
    }
}

/// Whether every token occurs somewhere in `hay`.
fn all_tokens_in(hay: &Vec<char>, toks: &Vec<Vec<char>>) -> (b: bool)
    ensures
        b == (forall|k: int|
            0 <= k < toks.deep_view().len() ==> contains_seq(hay@, #[trigger] toks.deep_view()[k])),
{
    let mut k: usize = 0;
    while k < toks.len()
        invariant
            0 <= k <= toks@.len(),
            toks.deep_view().len() == toks@.len(),
            forall|t: int| 0 <= t < k ==> contains_seq(hay@, #[trigger] toks.deep_view()[t]),
        decreases toks@.len() - k,
    {
        proof {
            crate::strutil::vec_deep_view_is_view(toks@[k as int]);
        }
        if !crate::strutil::contains_sub(hay, &toks[k]) {
            proof {
                assert(!contains_seq(hay@, toks.deep_view()[k as int]));
            }
            return false;
        }
        k += 1;
    }
    true
}

} // verus!
