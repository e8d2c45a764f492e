//! The application context and its operations: the store, both caches
//! and both fast-path engines behind one state object, with the
//! command-level behavior around them — junk filtering, fallbacks and
//! recency bookkeeping.
use vstd::prelude::*;

use crate::cache::{PatternCache, SearchCache};
use crate::fzf::{fzf_results_ok, longest_tok, FileIndex, FzfSearchEngine};
use crate::libdirs::is_junk_spec;
use crate::llm::{LLMProcessor, QueryIntent};
use crate::outside::lower_of;
use crate::simple::{mw_results_ok, simple_results_ok, SimpleSearchEngine};
use crate::store::{fav_added, fav_has_path, fav_removed, recent_added, recent_bumped, recent_has_path, Store};
use crate::strutil::{basename_of, contains_seq, tokens_of, trim_of};
use crate::{FileEntry, SearchOptions};

verus! {

/// The kept rows of a scored list after the junk filter, in order.
pub open spec fn junk_filtered(
    r: Seq<(i64, FileIndex)>,
    n: int,
    cutoff: int,
    digits_only_short: bool,
) -> Seq<(i64, FileIndex)>
    decreases n,
{
    if n <= 0 {
        Seq::empty()
    } else {
        let prev = junk_filtered(r, n - 1, cutoff, digits_only_short);
        if is_junk_spec(
            r[n - 1].0 as int,
            r[n - 1].1.name@,
            r[n - 1].1.path@,
            cutoff,
            digits_only_short,
        ) {
            prev
        } else {
            prev.push(r[n - 1])
        }
    }
}

/// Drops junk system folders from a scored list.
pub fn filter_junk(
    results: Vec<(i64, FileIndex)>,
    cutoff: i64,
    digits_only_short: bool,
) -> (r: Vec<(i64, FileIndex)>)
    ensures
        r@ == junk_filtered(results@, results@.len() as int, cutoff as int, digits_only_short),
{
    let mut r: Vec<(i64, FileIndex)> = Vec::new();
    let mut i: usize = 0;
    while i < results.len()
        invariant
            0 <= i <= results@.len(),
            r@ == junk_filtered(results@, i as int, cutoff as int, digits_only_short),
        decreases results@.len() - i,
    {
        let e = &results[i];
        let junk = crate::libdirs::is_junk_result(
            e.0,
            e.1.name.as_str(),
            e.1.path.as_str(),
            cutoff,
            digits_only_short,
        );
        if !junk {
            r.push((e.0, e.1.clone_row()));
            proof {
                assert(r@.last() == results@[i as int]);
                assert(r@ =~= junk_filtered(
                    results@,
                    i + 1,
                    cutoff as int,
                    digits_only_short,
                ));
            }
        }
        i += 1;
    }
    r
}

/// Every kept row is one of the scanned rows.
proof fn lemma_junk_filtered_members(
    r: Seq<(i64, FileIndex)>,
    n: int,
    cutoff: int,
    digits_only_short: bool,
)
    requires
        0 <= n <= r.len(),
    ensures
        forall|t: int|
            0 <= t < junk_filtered(r, n, cutoff, digits_only_short).len() ==> exists|j: int|
                0 <= j < n && #[trigger] junk_filtered(r, n, cutoff, digits_only_short)[t] == r[j],
    decreases n,
{
    if n > 0 {
        lemma_junk_filtered_members(r, n - 1, cutoff, digits_only_short);
        let prev = junk_filtered(r, n - 1, cutoff, digits_only_short);
        let whole = junk_filtered(r, n, cutoff, digits_only_short);
        assert forall|t: int|
            0 <= t < whole.len() implies exists|j: int|
            0 <= j < n && #[trigger] whole[t] == r[j] by {
            if t < prev.len() {
                assert(whole[t] == prev[t]);
                let j = choose|j: int| 0 <= j < n - 1 && #[trigger] prev[t] == r[j];
                assert(whole[t] == r[j]);
            } else {
                assert(whole[t] == r[n - 1]);
            }
        }
    }
}

/// Rows kept from a list of snapshot hits still stem from the snapshot.
proof fn lemma_rows_from_hits(
    kept: Seq<(i64, FileIndex)>,
    hits: Seq<(i64, FileIndex)>,
    files: Seq<FileIndex>,
)
    requires
        forall|t: int|
            0 <= t < kept.len() ==> exists|j: int|
                0 <= j < hits.len() && #[trigger] kept[t] == hits[j],
        forall|j: int| 0 <= j < hits.len() ==> crate::fzf::from_files((#[trigger] hits[j]).1, files),
    ensures
        forall|t: int| 0 <= t < kept.len() ==> crate::fzf::from_files((#[trigger] kept[t]).1, files),
{
    assert forall|t: int| 0 <= t < kept.len() implies crate::fzf::from_files(
        (#[trigger] kept[t]).1,
        files,
    ) by {
        let j = choose|j: int| 0 <= j < hits.len() && kept[t] == hits[j];
        assert(crate::fzf::from_files(hits[j].1, files));
    }
}

/// Formatting keeps the snapshot provenance.
proof fn lemma_formatted_from_snapshot(
    out: Seq<(String, String, Option<i64>)>,
    scored: Seq<(i64, FileIndex)>,
    files: Seq<FileIndex>,
)
    requires
        out.len() == scored.len(),
        forall|j: int|
            0 <= j < scored.len() ==> (#[trigger] out[j]).0@ == scored[j].1.path@ && out[j].1@
                == scored[j].1.name@ && out[j].2 == scored[j].1.modified_at,
        forall|t: int| 0 <= t < scored.len() ==> crate::fzf::from_files((#[trigger] scored[t]).1, files),
    ensures
        forall|j: int| 0 <= j < out.len() ==> row_from_snapshot(#[trigger] out[j], files),
{
    assert forall|j: int| 0 <= j < out.len() implies row_from_snapshot(#[trigger] out[j], files) by {
        assert(crate::fzf::from_files(scored[j].1, files));
        let k = choose|k: int| 0 <= k < files.len() && scored[j].1 == files[k];
        assert(out[j].0@ == files[k].path@);
    }
}

/// One snapshot row reads one of the store's entries.
pub open spec fn snapshot_row(row: FileIndex, entries: Seq<crate::store::IndexedEntry>) -> bool {
    exists|k: int|
        0 <= k < entries.len() && row.name@ == (#[trigger] entries[k]).name@ && row.path@
            == entries[k].path@ && row.modified_at == entries[k].modified_at
}

/// One handed-out row reads one of the snapshot's rows.
pub open spec fn row_from_snapshot(
    row: (String, String, Option<i64>),
    files: Seq<FileIndex>,
) -> bool {
    exists|k: int|
        0 <= k < files.len() && row.0@ == (#[trigger] files[k]).path@ && row.1@ == files[k].name@
            && row.2 == files[k].modified_at
}

/// Scored snapshot rows as the `(path, name, modified_at)` rows commands
/// hand out.
pub fn format_results(results: &Vec<(i64, FileIndex)>) -> (r: Vec<(String, String, Option<i64>)>)
    ensures
        r@.len() == results@.len(),
        forall|j: int|
            0 <= j < results@.len() ==> (#[trigger] r@[j]).0@ == results@[j].1.path@ && r@[j].1@
                == results@[j].1.name@ && r@[j].2 == results@[j].1.modified_at,
{
    let mut r: Vec<(String, String, Option<i64>)> = Vec::new();
    let mut i: usize = 0;
    while i < results.len()
        invariant
            0 <= i <= results@.len(),
            r@.len() == i,
            forall|j: int|
                0 <= j < i ==> (#[trigger] r@[j]).0@ == results@[j].1.path@ && r@[j].1@
                    == results@[j].1.name@ && r@[j].2 == results@[j].1.modified_at,
        decreases results@.len() - i,
    {
        let f = &results[i].1;
        r.push((f.path.clone(), f.name.clone(), f.modified_at));
        i += 1;
    }
    r
}

/// Whether the query is exempt from junk filtering: all digits, or one of
/// the two single-character probes users poke system folders with.
pub open spec fn filter_exempt(q: Seq<char>) -> bool {
    crate::libdirs::all_digits(q) || q == "0"@ || q == "r"@
}

fn is_filter_exempt(q: &Vec<char>) -> (b: bool)
    ensures
        b == filter_exempt(q@),
{
    if crate::libdirs::check_all_digits(q) {
        return true;
    }
    let zero = crate::strutil::chars_of("0");
    let rr = crate::strutil::chars_of("r");
    crate::strutil::eq_chars(q, &zero) || crate::strutil::eq_chars(q, &rr)
}

/// A handed-out row list reads the given scored rows one for one.
pub open spec fn formatted_rows(
    r: Seq<(String, String, Option<i64>)>,
    rows: Seq<(i64, FileIndex)>,
) -> bool {
    &&& r.len() == rows.len()
    &&& (forall|j: int|
        0 <= j < rows.len() ==> (#[trigger] r[j]).0@ == rows[j].1.path@ && r[j].1@
            == rows[j].1.name@ && r[j].2 == rows[j].1.modified_at)
}

/// The requested limit, or the command's default.
pub open spec fn limit_or(limit: Option<usize>, d: int) -> int {
    match limit {
        Some(l) => l as int,
        None => d,
    }
}

/// What the fast-path command returns: the engine's hits through the
/// junk filter, or — when a multi-word query filters to nothing — the
/// longest word's hits through the gentler filter.
pub open spec fn fzf_command_outcome(
    r: Seq<(String, String, Option<i64>)>,
    eng: FzfSearchEngine,
    q: Seq<char>,
    lim: int,
    fb_lim: int,
) -> bool {
    exists|hits: Seq<(i64, FileIndex)>|
        #![trigger hits.len()]
        {
            &&& fzf_results_ok(hits, eng.files@, q, lim)
            &&& {
                let kept = if filter_exempt(q) {
                    hits
                } else {
                    junk_filtered(hits, hits.len() as int, 2000, false)
                };
                if kept.len() == 0 && contains_seq(q, seq![' ']) {
                    let w = longest_tok(tokens_of(lower_of(q)));
                    exists|fhits: Seq<(i64, FileIndex)>|
                        #![trigger fhits.len()]
                        {
                            &&& fzf_results_ok(fhits, eng.files@, w, fb_lim)
                            &&& formatted_rows(
                                r,
                                if filter_exempt(w) {
                                    fhits
                                } else {
                                    junk_filtered(fhits, fhits.len() as int, 1000, true)
                                },
                            )
                        }
                } else {
                    formatted_rows(r, kept)
                }
            }
        }
}

/// What the simple-search command returns: the token-aggregating engine's
/// hits through the junk filter.
pub open spec fn simple_command_outcome(
    r: Seq<(String, String, Option<i64>)>,
    eng: SimpleSearchEngine,
    q: Seq<char>,
    lim: int,
) -> bool {
    exists|hits: Seq<(i64, FileIndex)>|
        #![trigger hits.len()]
        {
            &&& if contains_seq(q, seq![' ']) {
                if tokens_of(q).len() <= 1 {
                    simple_results_ok(hits, eng.files@, q, lim)
                } else {
                    mw_results_ok(hits, eng.files@, tokens_of(q), lim)
                }
            } else {
                simple_results_ok(hits, eng.files@, q, lim)
            }
            &&& formatted_rows(
                r,
                if filter_exempt(q) {
                    hits
                } else {
                    junk_filtered(hits, hits.len() as int, 1000, true)
                },
            )
        }
}

/// What one clocked search serves at the clock reading `now`: a fresh
/// cached answer for the key, or a computed, ranked answer now cached
/// under it.
pub open spec fn clocked_search_outcome(
    r: Seq<FileEntry>,
    old_cache: SearchCache,
    new_cache: SearchCache,
    store: Store,
    q: Seq<char>,
    opts: SearchOptions,
    min_modified: Option<i64>,
    now: i64,
) -> bool {
    ||| (exists|k: int|
        0 <= k < old_cache.entries@.len() && crate::cache::same_key(
            #[trigger] old_cache.entries@[k],
            q,
            opts,
        ) && now - old_cache.entries@[k].stamp < crate::cache::cache_ttl_secs() && r
            == old_cache.entries@[k].results@)
    ||| {
        &&& crate::search::computed_outcome(r, store, q, opts, min_modified)
        &&& r.len() <= 500
        &&& (exists|k: int|
            0 <= k < new_cache.entries@.len() && crate::cache::same_key(
                #[trigger] new_cache.entries@[k],
                q,
                opts,
            ) && new_cache.entries@[k].stamp == now && new_cache.entries@[k].results@ == r)
    }
}

/// The time bound a parsed constraint derives at the clock reading.
pub open spec fn bound_matches(mm: Option<i64>, ql: Seq<char>, now: i64) -> bool {
    match crate::llm::fb_time_constraint(ql) {
        None => mm is None,
        Some(c) => match time_cutoff_spec(c, now as int) {
            Some(t) => mm is Some && mm->0 as int == t,
            None => mm is None,
        },
    }
}

/// The bounded recent list's shape: capped, ordered by count then
/// recency, distinct, each row joined with its entry.
pub open spec fn recent_list_ok(r: Seq<FileEntry>, store: Store) -> bool {
    &&& r.len() == vstd::math::min(crate::store::recent_cap(), store.recent@.len() as int)
    &&& (forall|j: int|
        0 <= j < r.len() ==> crate::store::some_recent_row_match(
            #[trigger] r[j],
            store.recent@,
            store.entries@,
        ))
    &&& (forall|i: int, j: int| 0 <= i <= j < r.len() ==> crate::store::fe_key_ge(r[i], r[j]))
    &&& (forall|i: int, j: int|
        0 <= i < j < r.len() ==> (#[trigger] r[i]).path@ != (#[trigger] r[j]).path@)
}

/// All shared engine state: the store model, the two caches and the two
/// in-memory fast-path engines.
pub struct AppState {
    pub store: Store,
    pub search_cache: SearchCache,
    pub regex_cache: PatternCache,
    pub fzf_engine: FzfSearchEngine,
    pub simple_engine: SimpleSearchEngine,
}

impl AppState {
    pub open spec fn wf(&self) -> bool {
        &&& self.store.wf()
        &&& self.search_cache.wf()
        &&& self.regex_cache.wf()
        &&& self.fzf_engine.wf()
        &&& self.simple_engine.wf()
    }

    /// A fresh, empty context.
    pub fn new() -> (r: AppState)
        ensures
            r.wf(),
            r.store.entries@.len() == 0,
            r.store.recent@.len() == 0,
            r.store.favorites@.len() == 0,
            r.store.roots@.len() == 0,
    {
        AppState {
            store: Store::new(),
            search_cache: SearchCache::new(),
            regex_cache: PatternCache::new(),
            fzf_engine: FzfSearchEngine::new(),
            simple_engine: SimpleSearchEngine::new(),
        }
    }

    /// The primary search, against the wall clock: at some clock reading
    /// it serves a fresh cached answer for this key, or computes, ranks
    /// and caches one (see `crate::search::search_files` for the timed
    /// core).
    pub fn search_files(&mut self, query: &str, options: Option<SearchOptions>) -> (r: Vec<
        FileEntry,
    >)
        requires
            old(self).wf(),
        ensures
            final(self).wf(),
            final(self).store == old(self).store,
            trim_of(query@).len() == 0 ==> r@.len() == 0,
            query@.len() < 2 ==> r@.len() == 0,
            trim_of(query@).len() > 0 && query@.len() >= 2 ==> exists|now: i64|
                clocked_search_outcome(
                    r@,
                    old(self).search_cache,
                    final(self).search_cache,
                    old(self).store,
                    query@,
                    crate::search::opts_of(options),
                    None,
                    now,
                ),
    {
        let now = crate::outside::now_unix_seconds();
        let r = crate::search::search_files(
            &self.store,
            &mut self.search_cache,
            &mut self.regex_cache,
            query,
            options,
            None,
            now,
        );
        proof {
            if trim_of(query@).len() > 0 && query@.len() >= 2 {
                let gopts = crate::search::opts_of(options);
                if exists|k: int|
                    0 <= k < old(self).search_cache.entries@.len() && crate::cache::same_key(
                        #[trigger] old(self).search_cache.entries@[k],
                        query@,
                        gopts,
                    ) && now - old(self).search_cache.entries@[k].stamp
                        < crate::cache::cache_ttl_secs() {
                    let k = choose|k: int|
                        0 <= k < old(self).search_cache.entries@.len() && crate::cache::same_key(
                            #[trigger] old(self).search_cache.entries@[k],
                            query@,
                            gopts,
                        ) && now - old(self).search_cache.entries@[k].stamp
                            < crate::cache::cache_ttl_secs();
                    assert(r@ == old(self).search_cache.entries@[k].results@);
                } else {
                    assert(forall|k: int|
                        0 <= k < old(self).search_cache.entries@.len() && crate::cache::same_key(
                            #[trigger] old(self).search_cache.entries@[k],
                            query@,
                            gopts,
                        ) ==> now - old(self).search_cache.entries@[k].stamp
                            >= crate::cache::cache_ttl_secs());
                    assert(crate::search::computed_outcome(
                        r@,
                        old(self).store,
                        query@,
                        gopts,
                        None,
                    ));
                }
                assert(clocked_search_outcome(
                    r@,
                    old(self).search_cache,
                    self.search_cache,
                    old(self).store,
                    query@,
                    gopts,
                    None,
                    now,
                ));
            }
        }
        r
    }

    /// The fast-path search: heuristic scan, junk filter, and a
    /// single-word fallback when filtering empties a multi-word result.
    pub fn fzf_search(&self, query: &str, limit: Option<usize>) -> (r: Vec<
        (String, String, Option<i64>),
    >)
        requires
            self.wf(),
        ensures
            query@.len() == 0 ==> r@.len() == 0,
            query@.len() > 0 ==> fzf_command_outcome(
                r@,
                self.fzf_engine,
                query@,
                limit_or(limit, 50),
                limit_or(limit, 20),
            ),
            forall|j: int|
                0 <= j < r@.len() ==> row_from_snapshot(#[trigger] r@[j], self.fzf_engine.files@),
    {
        let lim: usize = match limit {
            Some(l) => l,
            None => 50,
        };
        let results = self.fzf_engine.search(query, lim);
        if query.unicode_len() == 0 {
            return Vec::new();
        }
        let ghost engine_hits = results@;
        let qchars = crate::strutil::chars_of(query);
        let exempt = is_filter_exempt(&qchars);
        let filtered: Vec<(i64, FileIndex)> = if !exempt {
            filter_junk(results, 2000, false)
        } else {
            results
        };
        proof {
            if !exempt {
                lemma_junk_filtered_members(engine_hits, engine_hits.len() as int, 2000, false);
            }
            lemma_rows_from_hits(filtered@, engine_hits, self.fzf_engine.files@);
        }
        let mut space: Vec<char> = Vec::new();
        space.push(' ');
        proof {
            assert(space@ =~= seq![' ']);
        }
        if filtered.len() == 0 && crate::strutil::contains_sub(&qchars, &space) {
            // the multi-word pass filtered to nothing: retry with the
            // longest word alone, under the gentler filter
            let lowered = crate::outside::to_lowercase(query);
            let lchars = crate::strutil::chars_of(lowered.as_str());
            let toks = crate::strutil::tokenize(&lchars);
            let word = crate::fzf::longest_tok_exec(&toks);
            let word_string = crate::strutil::string_of(&word);
            let fb_lim: usize = match limit {
                Some(l) => l,
                None => 20,
            };
            let fb = self.fzf_engine.search(word_string.as_str(), fb_lim);
            let ghost fb_hits = fb@;
            let fb_exempt = is_filter_exempt(&word);
            let fb_filtered: Vec<(i64, FileIndex)> = if !fb_exempt {
                filter_junk(fb, 1000, true)
            } else {
                fb
            };
            proof {
                if !fb_exempt {
                    lemma_junk_filtered_members(fb_hits, fb_hits.len() as int, 1000, true);
                }
                lemma_rows_from_hits(fb_filtered@, fb_hits, self.fzf_engine.files@);
            }
            let out = format_results(&fb_filtered);
            proof {
                lemma_formatted_from_snapshot(out@, fb_filtered@, self.fzf_engine.files@);
                assert(word@ == longest_tok(tokens_of(lower_of(query@))));
                assert(formatted_rows(out@, fb_filtered@));
                assert(fzf_command_outcome(
                    out@,
                    self.fzf_engine,
                    query@,
                    limit_or(limit, 50),
                    limit_or(limit, 20),
                ));
            }
            return out;
        }
        let out = format_results(&filtered);
        proof {
            lemma_formatted_from_snapshot(out@, filtered@, self.fzf_engine.files@);
            assert(formatted_rows(out@, filtered@));
            assert(fzf_command_outcome(
                out@,
                self.fzf_engine,
                query@,
                limit_or(limit, 50),
                limit_or(limit, 20),
            ));
        }
        out
    }

    /// Reloads the heuristic engine's snapshot from the store: one row
    /// per entry, pre-folded, shortest names first.
    pub fn refresh_fzf_index(&mut self)
        requires
            old(self).wf(),
        ensures
            final(self).wf(),
            final(self).store == old(self).store,
            final(self).fzf_engine.files@.len() == old(self).store.entries@.len(),
            forall|j: int|
                0 <= j < final(self).fzf_engine.files@.len() ==> snapshot_row(
                    #[trigger] final(self).fzf_engine.files@[j],
                    old(self).store.entries@,
                ),
            // the snapshot order carries over: shortest names first, ties
            // by the name itself
            forall|i: int, j: int|
                0 <= i <= j < final(self).fzf_engine.files@.len() ==> crate::store::name_order_le(
                    #[trigger] final(self).fzf_engine.files@[i],
                    #[trigger] final(self).fzf_engine.files@[j],
                ),
    {
        let snap = self.store.snapshot();
        let now = crate::outside::now_unix_seconds();
        self.fzf_engine.load(snap, now);
        proof {
            assert forall|j: int| 0 <= j < self.fzf_engine.files@.len() implies snapshot_row(
                #[trigger] self.fzf_engine.files@[j],
                old(self).store.entries@,
            ) by {
                let k = choose|k: int|
                    0 <= k < old(self).store.entries@.len() && (
                    #[trigger] self.fzf_engine.files@[j]).name@ == old(
                        self,
                    ).store.entries@[k].name@ && self.fzf_engine.files@[j].path@ == old(
                        self,
                    ).store.entries@[k].path@ && self.fzf_engine.files@[j].modified_at == old(
                        self,
                    ).store.entries@[k].modified_at;
            }
        }
    }

    /// The simple fuzzy search: loads the snapshot on first use, goes
    /// through the token-aggregating scorer, and filters junk.
    pub fn simple_search(&mut self, query: &str, limit: Option<usize>) -> (r: Vec<
        (String, String, Option<i64>),
    >)
        requires
            old(self).wf(),
        ensures
            final(self).wf(),
            final(self).store == old(self).store,
            trim_of(query@).len() == 0 ==> r@.len() == 0,
            trim_of(query@).len() > 0 && query@.len() > 0 ==> simple_command_outcome(
                r@,
                final(self).simple_engine,
                query@,
                limit_or(limit, 20),
            ),
            forall|j: int|
                0 <= j < r@.len() ==> row_from_snapshot(
                    #[trigger] r@[j],
                    final(self).simple_engine.files@,
                ),
    {
        let qchars = crate::strutil::chars_of(query);
        if qchars.len() == 0 {
            return Vec::new();
        }
        let trimmed = crate::strutil::trim_chars(&qchars);
        if trimmed.len() == 0 {
            return Vec::new();
        }
        let lim: usize = match limit {
            Some(l) => l,
            None => 20,
        };
        if self.simple_engine.files.len() == 0 {
            let snap = self.store.snapshot();
            self.simple_engine.load(snap);
        }
        let mut space: Vec<char> = Vec::new();
        space.push(' ');
        proof {
            assert(space@ =~= seq![' ']);
        }
        let results = if crate::strutil::contains_sub(&qchars, &space) {
            self.simple_engine.multi_word_search(query, lim)
        } else {
            self.simple_engine.search(query, lim)
        };
        let ghost engine_hits = results@;
        let exempt = is_filter_exempt(&qchars);
        let filtered: Vec<(i64, FileIndex)> = if !exempt {
            filter_junk(results, 1000, true)
        } else {
            results
        };
        proof {
            if !exempt {
                lemma_junk_filtered_members(engine_hits, engine_hits.len() as int, 1000, true);
            }
            lemma_rows_from_hits(filtered@, engine_hits, self.simple_engine.files@);
        }
        let out = format_results(&filtered);
        proof {
            lemma_formatted_from_snapshot(out@, filtered@, self.simple_engine.files@);
            assert(formatted_rows(out@, filtered@));
            assert(simple_command_outcome(out@, self.simple_engine, query@, limit_or(limit, 20)));
        }
        out
    }

    /// The bounded recent list: at most the cap, by access count then
    /// recency, each row joined with its entry's modification time.
    pub fn get_recent_files(&self) -> (r: Vec<FileEntry>)
        requires
            self.wf(),
        ensures
            r@.len() == vstd::math::min(crate::store::recent_cap(), self.store.recent@.len() as int),
            forall|j: int|
                0 <= j < r@.len() ==> crate::store::some_recent_row_match(
                    #[trigger] r@[j],
                    self.store.recent@,
                    self.store.entries@,
                ),
            forall|i: int, j: int|
                0 <= i <= j < r@.len() ==> crate::store::fe_key_ge(r@[i], r@[j]),
            forall|i: int, j: int|
                0 <= i < j < r@.len() ==> (#[trigger] r@[i]).path@ != (#[trigger] r@[j]).path@,
    {
        self.store.recent_files()
    }

    /// Records that `path` was opened now: the single recency upsert the
    /// caller follows with the platform opener. A first open appends a
    /// fresh row with count 1; a later one refreshes the row and raises
    /// its count.
    pub fn record_open(&mut self, path: &String)
        requires
            old(self).wf(),
        ensures
            final(self).wf(),
            final(self).store.entries@ == old(self).store.entries@,
            final(self).store.roots@ == old(self).store.roots@,
            final(self).store.favorites@ == old(self).store.favorites@,
            !recent_has_path(old(self).store.recent@, path@) ==> exists|t: i64|
                recent_added(
                    old(self).store.recent@,
                    final(self).store.recent@,
                    path@,
                    basename_of(path@),
                    t,
                ),
            recent_has_path(old(self).store.recent@, path@) ==> exists|t: i64|
                recent_bumped(old(self).store.recent@, final(self).store.recent@, path@, t),
    {
        let pchars = crate::strutil::chars_of(path.as_str());
        let name_chars = crate::strutil::basename(&pchars);
        let name = crate::strutil::string_of(&name_chars);
        let now = crate::outside::now_unix_seconds();
        self.store.record_access(path, &name, now);
        proof {
            if !recent_has_path(old(self).store.recent@, path@) {
                assert(recent_added(
                    old(self).store.recent@,
                    self.store.recent@,
                    path@,
                    basename_of(path@),
                    now,
                ));
            } else {
                assert(recent_bumped(old(self).store.recent@, self.store.recent@, path@, now));
            }
        }
    }

    /// Flips the favorite mark of `path` and says whether it is now
    /// favorited: one row appended (with the path's file name) or the one
    /// row removed, nothing else touched, so two calls restore the set.
    pub fn toggle_favorite(&mut self, path: &String) -> (r: bool)
        requires
            old(self).wf(),
        ensures
            final(self).wf(),
            r == !fav_has_path(old(self).store.favorites@, path@),
            fav_has_path(final(self).store.favorites@, path@) == r,
            final(self).store.entries@ == old(self).store.entries@,
            final(self).store.roots@ == old(self).store.roots@,
            final(self).store.recent@ == old(self).store.recent@,
            r ==> exists|t: i64|
                fav_added(
                    old(self).store.favorites@,
                    final(self).store.favorites@,
                    path@,
                    basename_of(path@),
                    t,
                ),
            !r ==> fav_removed(old(self).store.favorites@, final(self).store.favorites@, path@),
    {
        let pchars = crate::strutil::chars_of(path.as_str());
        let name_chars = crate::strutil::basename(&pchars);
        let name = crate::strutil::string_of(&name_chars);
        let now = crate::outside::now_unix_seconds();
        let r = self.store.toggle_favorite(path, &name, now);
        proof {
            if r {
                assert(fav_added(
                    old(self).store.favorites@,
                    self.store.favorites@,
                    path@,
                    basename_of(path@),
                    now,
                ));
            }
        }
        r
    }

    /// Scores a bounded pre-filtered candidate set under the debugging
    /// options and hands back `(name, score, path)` rows.
    #[verifier::rlimit(100)]
    pub fn debug_search_scores(&self, query: &str) -> (r: Vec<(String, i64, String)>)
        requires
            self.wf(),
        ensures
            trim_of(query@).len() == 0 ==> r@.len() == 0,
            trim_of(query@).len() > 0 ==> debug_outcome(r@, self.store, query@),
    {
        let lowered = crate::outside::to_lowercase(query);
        let lchars = crate::strutil::chars_of(lowered.as_str());
        let mut pat: Vec<char> = Vec::new();
        pat.push('%');
        crate::pattern::append_all(&mut pat, &lchars);
        pat.push('%');
        proof {
            assert(pat@ =~= seq!['%'] + lower_of(query@) + seq!['%']);
        }
        let cands = self.store.prefilter(&pat, 20);
        let pairs = crate::search::to_pairs(&cands);
        let ghost gpairs = pairs@;
        let options = SearchOptions {
            search_folders: false,
            enable_fuzzy: true,
            strict_mode: false,
            filename_only: true,
        };
        let empty_recent: Vec<String> = Vec::new();
        let empty_favs: Vec<String> = Vec::new();
        let scored = crate::score::fuzzy_search_files(
            pairs,
            query,
            &empty_recent,
            &empty_favs,
            &options,
        );
        let mut out: Vec<(String, i64, String)> = Vec::new();
        let mut j: usize = 0;
        while j < scored.len()
            invariant
                0 <= j <= scored@.len(),
                out@.len() == j,
                forall|t: int|
                    0 <= t < j ==> (#[trigger] out@[t]).0@ == scored@[t].1.name@ && out@[t].1
                        == scored@[t].0 && out@[t].2@ == scored@[t].1.path@,
            decreases scored@.len() - j,
        {
            let e = &scored[j];
            out.push((e.1.name.clone(), e.0, e.1.path.clone()));
            j += 1;
        }
        proof {
            if trim_of(query@).len() > 0 {
                assert(crate::search::pairs_of(gpairs, cands@));
                assert(crate::search::fuzzy_outcome(
                    scored@,
                    cands@,
                    query@,
                    debug_options(),
                    Seq::<String>::empty(),
                    Seq::<String>::empty(),
                ));
                assert(debug_outcome(out@, self.store, query@));
            }
        }
        out
    }

    /// Runs a natural-language query through the offline parse, the
    /// rewrite, and — for a bare time query — the recent list; otherwise
    /// the search proper on the rewritten query, carrying the parsed
    /// time bound, at some clock reading.
    pub fn natural_search(&mut self, query: &str) -> (r: Vec<FileEntry>)
        requires
            old(self).wf(),
        ensures
            final(self).wf(),
            final(self).store == old(self).store,
            crate::llm::fb_intent(lower_of(query@)) == crate::llm::QueryIntent::FindByTime
                && crate::llm::natural_rewrite(query@).len() == 0 ==> recent_list_ok(
                r@,
                old(self).store,
            ),
            !(crate::llm::fb_intent(lower_of(query@)) == crate::llm::QueryIntent::FindByTime
                && crate::llm::natural_rewrite(query@).len() == 0) && trim_of(
                crate::llm::natural_rewrite(query@),
            ).len() > 0 && crate::llm::natural_rewrite(query@).len() >= 2 ==> exists|
                now: i64,
                mm: Option<i64>,
            |
                bound_matches(mm, lower_of(query@), now) && clocked_search_outcome(
                    r@,
                    old(self).search_cache,
                    final(self).search_cache,
                    old(self).store,
                    crate::llm::natural_rewrite(query@),
                    crate::search::opts_of(None),
                    mm,
                    now,
                ),
    {
        let processor = LLMProcessor::new();
        let parsed = match processor.fallback_parse(query) {
            Ok(p) => p,
            Err(_) => {
                proof {
                    assert(false);
                }
                return Vec::new();
            },
        };
        let rewritten = processor.convert_to_search_query(&parsed);
        proof {
            crate::llm::lemma_fallback_convert(parsed, query@);
            assert(rewritten@ == crate::llm::natural_rewrite(query@));
        }
        let now = crate::outside::now_unix_seconds();
        if matches!(parsed.intent, QueryIntent::FindByTime) && rewritten.as_str().unicode_len()
            == 0 {
            // a bare time query: the recent list answers it
            return self.store.recent_files();
        }
        let cutoff: Option<i64> = match &parsed.time_constraint {
            Some(c) => time_cutoff(c.as_str(), now),
            None => None,
        };
        proof {
            assert(bound_matches(cutoff, lower_of(query@), now));
        }
        let r = crate::search::search_files(
            &self.store,
            &mut self.search_cache,
            &mut self.regex_cache,
            rewritten.as_str(),
            None,
            cutoff,
            now,
        );
        proof {
            let gq = crate::llm::natural_rewrite(query@);
            let gopts = crate::search::opts_of(None);
            if trim_of(gq).len() > 0 && gq.len() >= 2 {
                if exists|k: int|
                    0 <= k < old(self).search_cache.entries@.len() && crate::cache::same_key(
                        #[trigger] old(self).search_cache.entries@[k],
                        gq,
                        gopts,
                    ) && now - old(self).search_cache.entries@[k].stamp
                        < crate::cache::cache_ttl_secs() {
                    let k = choose|k: int|
                        0 <= k < old(self).search_cache.entries@.len() && crate::cache::same_key(
                            #[trigger] old(self).search_cache.entries@[k],
                            gq,
                            gopts,
                        ) && now - old(self).search_cache.entries@[k].stamp
                            < crate::cache::cache_ttl_secs();
                    assert(r@ == old(self).search_cache.entries@[k].results@);
                } else {
                    assert(forall|k: int|
                        0 <= k < old(self).search_cache.entries@.len() && crate::cache::same_key(
                            #[trigger] old(self).search_cache.entries@[k],
                            gq,
                            gopts,
                        ) ==> now - old(self).search_cache.entries@[k].stamp
                            >= crate::cache::cache_ttl_secs());
                    assert(crate::search::computed_outcome(r@, old(self).store, gq, gopts, cutoff));
                }
                assert(clocked_search_outcome(
                    r@,
                    old(self).search_cache,
                    self.search_cache,
                    old(self).store,
                    gq,
                    gopts,
                    cutoff,
                    now,
                ));
            }
        }
        r
    }
}

/// The options the score-debugging command runs under.}

/// The options the score-debugging command runs under.
pub open spec fn debug_options() -> SearchOptions {
    SearchOptions { search_folders: false, enable_fuzzy: true, strict_mode: false, filename_only: true }
}

/// What the score-debugging command returns: the matching engine's rows
/// over a contains-pre-filtered candidate set, without boosts.
pub open spec fn debug_outcome(r: Seq<(String, i64, String)>, store: Store, q: Seq<char>) -> bool {
    exists|cands: Seq<crate::search::Candidate>, scored: Seq<(i64, FileEntry)>|
        #![trigger cands.len(), scored.len()]
        {
            &&& crate::search::prefilter_post(
                cands,
                store.entries@,
                seq!['%'] + lower_of(q) + seq!['%'],
                20,
            )
            &&& crate::search::fuzzy_outcome(
                scored,
                cands,
                q,
                debug_options(),
                Seq::<String>::empty(),
                Seq::<String>::empty(),
            )
            &&& r.len() == scored.len()
            &&& (forall|t: int|
                0 <= t < scored.len() ==> (#[trigger] r[t]).0@ == scored[t].1.name@ && r[t].1
                    == scored[t].0 && r[t].2@ == scored[t].1.path@)
        }
}

/// The modification-time bound a parsed time constraint stands for:
/// a week back for the recent and last-week forms, a day back for
/// yesterday, saturating at the width of the clock.
pub open spec fn time_cutoff_spec(c: Seq<char>, now: int) -> Option<int> {
    if c == "recent"@ || c == "today"@ || c == "last_week"@ {
        Some(sat_i64(now - 604800))
    } else if c == "yesterday"@ {
        Some(sat_i64(now - 86400))
    } else {
        None
    }
}

pub open spec fn sat_i64(x: int) -> int {
    if x < i64::MIN {
        i64::MIN as int
    } else {
        x
    }
}

/// Derives the modification-time bound of a parsed time constraint.
pub fn time_cutoff(c: &str, now: i64) -> (r: Option<i64>)
    ensures
        match r {
            Some(t) => time_cutoff_spec(c@, now as int) == Some(t as int),
            None => time_cutoff_spec(c@, now as int) is None,
        },
{
    let week = crate::strutil::str_eq(c, "recent") || crate::strutil::str_eq(c, "today")
        || crate::strutil::str_eq(c, "last_week");
    if week {
        let cut = (now as i128) - 604800;
        if cut < (i64::MIN as i128) {
            Some(i64::MIN)
        } else {
            Some(cut as i64)
        }
    } else if crate::strutil::str_eq(c, "yesterday") {
        let cut = (now as i128) - 86400;
        if cut < (i64::MIN as i128) {
            Some(i64::MIN)
        } else {
            Some(cut as i64)
        }
    } else {
        None
    }
}

} // verus!
