//! The token-aggregating fuzzy scorer: one fuzzy score against
//! `name path` as a single string, per-token aggregation for multi-word
//! queries.
use vstd::prelude::*;

use crate::fzf::{from_files, required_of, FileIndex};
use crate::outside::nucleo_score;
use crate::strutil::tokens_of;

verus! {

/// Where the per-token score total saturates.
pub open spec fn total_cap() -> int {
    1000000000000
}

/// Where the matched-token multiplier saturates.
pub open spec fn matched_cap() -> int {
    1000
}

/// The combined haystack one row is scored against.
pub open spec fn combined_of(f: FileIndex) -> Seq<char> {
    f.name@ + seq![' '] + f.path@
}

/// The fuzzy score of one row: the matcher's score against the combined
/// string; a row whose combined string would overflow the matcher's
/// width is passed over.
pub open spec fn entry_score(f: FileIndex, q: Seq<char>) -> Option<int> {
    if combined_of(f).len() > u32::MAX {
        None
    } else {
        nucleo_score(combined_of(f), q)
    }
}

/// How many of the first `n` rows the matcher scores.
pub open spec fn count_scored(files: Seq<FileIndex>, n: int, q: Seq<char>) -> int
    decreases n,
{
    if n <= 0 {
        0
    } else {
        count_scored(files, n - 1, q) + (if entry_score(files[n - 1], q) is Some {
            1int
        } else {
            0int
        })
    }
}

/// The saturating sum of the scores of the first `i` words against `f`,
/// and how many words scored at all.
pub open spec fn word_total(f: FileIndex, words: Seq<Seq<char>>, i: int, acc: int) -> int
    decreases i,
{
    if i <= 0 {
        acc
    } else {
        let prev = word_total(f, words, i - 1, acc);
        match word_score(f, words[i - 1]) {
            Some(s) => if prev + s > total_cap() {
                total_cap()
            } else {
                prev + s
            },
            None => prev,
        }
    }
}

/// One word's score against the combined string.
pub open spec fn word_score(f: FileIndex, w: Seq<char>) -> Option<int> {
    entry_score(f, w)
}

pub open spec fn word_matched(f: FileIndex, words: Seq<Seq<char>>, i: int) -> int
    decreases i,
{
    if i <= 0 {
        0
    } else {
        word_matched(f, words, i - 1) + (if word_score(f, words[i - 1]) is Some {
            1int
        } else {
            0int
        })
    }
}

/// The aggregated multi-word score: the saturating score total weighted
/// by the (saturated) number of matched words.
pub open spec fn mw_score(f: FileIndex, words: Seq<Seq<char>>) -> int {
    let total = word_total(f, words, words.len() as int, 0);
    let matched = word_matched(f, words, words.len() as int);
    total * (if matched > matched_cap() {
        matched_cap()
    } else {
        matched
    })
}

/// Whether a row passes the multi-word relaxation: all words for one or
/// two, all but one otherwise.
pub open spec fn mw_accepted(f: FileIndex, words: Seq<Seq<char>>) -> bool {
    word_matched(f, words, words.len() as int) >= required_of(words.len() as int)
}

pub open spec fn count_mw(files: Seq<FileIndex>, n: int, words: Seq<Seq<char>>) -> int
    decreases n,
{
    if n <= 0 {
        0
    } else {
        count_mw(files, n - 1, words) + (if mw_accepted(files[n - 1], words) {
            1int
        } else {
            0int
        })
    }
}

/// `f` appears among the returned rows.
pub open spec fn row_included(f: FileIndex, r: Seq<(i64, FileIndex)>) -> bool {
    exists|j: int| 0 <= j < r.len() && (#[trigger] r[j]).1 == f
}

/// `f` appears among the rows with score `s`.
pub open spec fn scored_included(f: FileIndex, s: int, r: Seq<(i64, FileIndex)>) -> bool {
    exists|j: int| 0 <= j < r.len() && (#[trigger] r[j]).1 == f && r[j].0 as int == s
}

/// The rows are drawn off pairwise distinct snapshot positions: no
/// snapshot row is returned twice.
pub open spec fn drawn_distinct(r: Seq<(i64, FileIndex)>, files: Seq<FileIndex>) -> bool {
    exists|src: Seq<int>|
        #![trigger src.len()]
        {
            &&& src.len() == r.len()
            &&& (forall|j: int|
                0 <= j < src.len() ==> 0 <= #[trigger] src[j] < files.len() && r[j].1 == files[
                    src[j]
                ])
            &&& (forall|i: int, j: int|
                0 <= i < j < src.len() ==> #[trigger] src[i] != #[trigger] src[j])
        }
}

/// The single-word result shape: every returned row stems from the
/// snapshot and carries exactly the matcher's score, best first, and no
/// row scoring above the last kept row is left out.
pub open spec fn simple_results_ok(
    r: Seq<(i64, FileIndex)>,
    files: Seq<FileIndex>,
    q: Seq<char>,
    limit: int,
) -> bool {
    &&& r.len() == vstd::math::min(limit, count_scored(files, files.len() as int, q))
    &&& (forall|j: int| 0 <= j < r.len() ==> from_files((#[trigger] r[j]).1, files))
    &&& (forall|j: int|
        0 <= j < r.len() ==> entry_score((#[trigger] r[j]).1, q) == Some(r[j].0 as int))
    &&& crate::rank::sorted_desc(r)
    &&& drawn_distinct(r, files)
    &&& (forall|k: int|
        0 <= k < files.len() && entry_score(#[trigger] files[k], q) is Some && r.len() > 0
            && entry_score(files[k], q)->0 > r[r.len() - 1].0 as int ==> row_included(files[k], r))
}

/// The multi-word result shape: rows passing the relaxation, each with
/// its aggregated score, best first, and no accepted row scoring above
/// the last kept row is left out.
pub open spec fn mw_results_ok(
    r: Seq<(i64, FileIndex)>,
    files: Seq<FileIndex>,
    words: Seq<Seq<char>>,
    limit: int,
) -> bool {
    &&& r.len() == vstd::math::min(limit, count_mw(files, files.len() as int, words))
    &&& (forall|j: int| 0 <= j < r.len() ==> from_files((#[trigger] r[j]).1, files))
    &&& (forall|j: int|
        0 <= j < r.len() ==> mw_accepted((#[trigger] r[j]).1, words) && r[j].0 as int == mw_score(
            r[j].1,
            words,
        ))
    &&& crate::rank::sorted_desc(r)
    &&& drawn_distinct(r, files)
    &&& (forall|k: int|
        0 <= k < files.len() && mw_accepted(#[trigger] files[k], words) && r.len() > 0 && mw_score(
            files[k],
            words,
        ) > r[r.len() - 1].0 as int ==> row_included(files[k], r))
}

/// The token-aggregating fuzzy engine over a full snapshot.
pub struct SimpleSearchEngine {
    pub files: Vec<FileIndex>,
}

impl SimpleSearchEngine {
    pub open spec fn wf(&self) -> bool {
        forall|k: int| 0 <= k < self.files@.len() ==> (#[trigger] self.files@[k]).wf()
    }

    /// An empty engine.
    pub fn new() -> (r: SimpleSearchEngine)
        ensures
            r.wf(),
            r.files@.len() == 0,
    {
        SimpleSearchEngine { files: Vec::new() }
    }

    /// Replaces the snapshot wholesale.
    pub fn load(&mut self, files: Vec<FileIndex>)
        requires
            forall|k: int| 0 <= k < files@.len() ==> (#[trigger] files@[k]).wf(),
        ensures
            final(self).wf(),
            final(self).files@ == files@,
    {
        self.files = files;
    }

    /// Scores every row's `name path` string against the query and keeps
    /// the best `limit`.
    pub fn search(&self, query: &str, limit: usize) -> (r: Vec<(i64, FileIndex)>)
        ensures
            query@.len() == 0 ==> r@.len() == 0,
            query@.len() > 0 ==> simple_results_ok(r@, self.files@, query@, limit as int),
    {
        let mut out: Vec<(i64, FileIndex)> = Vec::new();
        if query.unicode_len() == 0 {
            return out;
        }
        let ghost mut idxs: Seq<int> = Seq::empty();
        let mut i: usize = 0;
        while i < self.files.len()
            invariant
                0 <= i <= self.files@.len(),
                out@.len() == count_scored(self.files@, i as int, query@),
                idxs.len() == out@.len(),
                forall|t: int|
                    0 <= t < idxs.len() ==> 0 <= #[trigger] idxs[t] < i && out@[t].1 == self.files@[
                        idxs[t]
                    ],
                forall|a: int, b: int| 0 <= a < b < idxs.len() ==> idxs[a] < idxs[b],
                forall|j: int| 0 <= j < out@.len() ==> from_files((#[trigger] out@[j]).1, self.files@),
                forall|j: int|
                    0 <= j < out@.len() ==> entry_score((#[trigger] out@[j]).1, query@) == Some(
                        out@[j].0 as int,
                    ),
                forall|k: int|
                    0 <= k < i && entry_score(#[trigger] self.files@[k], query@) is Some
                        ==> scored_included(
                        self.files@[k],
                        entry_score(self.files@[k], query@)->0,
                        out@,
                    ),
            decreases self.files@.len() - i,
        {
            let f = &self.files[i];
            let ghost old_out = out@;
            match score_row(f, query) {
                Some(s) => {
                    proof {
                        assert(from_files(self.files@[i as int], self.files@));
                        idxs = idxs.push(i as int);
                    }
                    out.push((s, f.clone_row()));
                },
                None => {},
            }
            proof {
                assert forall|k: int|
                    0 <= k < i + 1 && entry_score(#[trigger] self.files@[k], query@) is Some
                    implies scored_included(
                    self.files@[k],
                    entry_score(self.files@[k], query@)->0,
                    out@,
                ) by {
                    if k == i {
                        assert(out@[out@.len() - 1].1 == self.files@[k]);
                    } else {
                        let j = choose|j: int|
                            0 <= j < old_out.len() && (#[trigger] old_out[j]).1 == self.files@[k]
                                && old_out[j].0 as int == entry_score(self.files@[k], query@)->0;
                        assert(out@[j].1 == self.files@[k]);
                    }
                }
            }
            i += 1;
        }
        let ghost collected = out@;
        let ranked = crate::rank::rank_descending(out, limit);
        proof {
            lemma_count_scored_bounds(self.files@, self.files@.len() as int, query@);
            carry_over(collected, ranked@, self.files@, query@);
            lemma_drawn_distinct(collected, ranked@, self.files@, idxs, limit as int);
            broadcast use vstd::seq_lib::group_to_multiset_ensures;

            assert forall|k: int|
                0 <= k < self.files@.len() && entry_score(#[trigger] self.files@[k], query@)
                is Some && ranked@.len() > 0 && entry_score(self.files@[k], query@)->0 > ranked@[
                ranked@.len() - 1
            ].0 as int implies row_included(self.files@[k], ranked@) by {
                let j = choose|j: int|
                    0 <= j < collected.len() && (#[trigger] collected[j]).1 == self.files@[k]
                        && collected[j].0 as int == entry_score(self.files@[k], query@)->0;
                let e = collected[j];
                assert(collected.contains(e));
                assert(collected.to_multiset().count(e) > 0);
                if ranked@.to_multiset().count(e) == 0 {
                    assert(e.0 <= ranked@[ranked@.len() - 1].0);
                } else {
                    assert(ranked@.contains(e));
                    let j2 = choose|j2: int| 0 <= j2 < ranked@.len() && ranked@[j2] == e;
                    assert(ranked@[j2].1 == self.files@[k]);
                }
            }
        }
        ranked
    }

    /// Scores each word independently against every row's `name path`
    /// string and aggregates, requiring most words to match.
    pub fn multi_word_search(&self, query: &str, limit: usize) -> (r: Vec<(i64, FileIndex)>)
        ensures
            query@.len() == 0 ==> r@.len() == 0,
            query@.len() > 0 && tokens_of(query@).len() <= 1 ==> simple_results_ok(
                r@,
                self.files@,
                query@,
                limit as int,
            ),
            query@.len() > 0 && tokens_of(query@).len() > 1 ==> mw_results_ok(
                r@,
                self.files@,
                tokens_of(query@),
                limit as int,
            ),
    {
        if query.unicode_len() == 0 {
            return Vec::new();
        }
        let qchars = crate::strutil::chars_of(query);
        let words = crate::strutil::tokenize(&qchars);
        if words.len() <= 1 {
            return self.search(query, limit);
        }
        let ghost gw = tokens_of(query@);
        let mut out: Vec<(i64, FileIndex)> = Vec::new();
        let ghost mut idxs: Seq<int> = Seq::empty();
        let mut i: usize = 0;
        while i < self.files.len()
            invariant
                0 <= i <= self.files@.len(),
                words.deep_view() == gw,
                words@.len() == gw.len(),
                out@.len() == count_mw(self.files@, i as int, gw),
                idxs.len() == out@.len(),
                forall|t: int|
                    0 <= t < idxs.len() ==> 0 <= #[trigger] idxs[t] < i && out@[t].1 == self.files@[
                        idxs[t]
                    ],
                forall|a: int, b: int| 0 <= a < b < idxs.len() ==> idxs[a] < idxs[b],
                forall|j: int| 0 <= j < out@.len() ==> from_files((#[trigger] out@[j]).1, self.files@),
                forall|j: int|
                    0 <= j < out@.len() ==> mw_accepted((#[trigger] out@[j]).1, gw) && out@[j].0 as int
                        == mw_score(out@[j].1, gw),
                forall|k: int|
                    0 <= k < i && mw_accepted(#[trigger] self.files@[k], gw) ==> scored_included(
                        self.files@[k],
                        mw_score(self.files@[k], gw),
                        out@,
                    ),
            decreases self.files@.len() - i,
        {
            let ghost old_out = out@;
            let f = &self.files[i];
            let mut total: i64 = 0;
            let mut matched: usize = 0;
            let mut w: usize = 0;
            while w < words.len()
                invariant
                    0 <= w <= words@.len(),
                    words.deep_view() == gw,
                    words@.len() == gw.len(),
                    matched <= w,
                    total as int == word_total(*f, gw, w as int, 0),
                    matched as int == word_matched(*f, gw, w as int),
                    0 <= total <= total_cap(),
                decreases words@.len() - w,
            {
                proof {
                    crate::strutil::vec_deep_view_is_view(words@[w as int]);
                }
                let word_str = crate::strutil::string_of(&words[w]);
                match score_row(f, word_str.as_str()) {
                    Some(s) => {
                        let sum = total + s;
                        total = if sum > 1000000000000 {
                            1000000000000
                        } else {
                            sum
                        };
                        matched += 1;
                    },
                    None => {},
                }
                w += 1;
            }
            let required: usize = if words.len() <= 2 {
                words.len()
            } else {
                words.len() - 1
            };
            if matched >= required {
                let mult: i64 = if matched > 1000 {
                    1000
                } else {
                    matched as i64
                };
                proof {
                    assert(0 <= total as int * mult as int <= 1000000000000000int)
                        by (nonlinear_arith)
                        requires
                            0 <= total as int <= 1000000000000int,
                            0 <= mult as int <= 1000int,
                    ;
                }
                let score: i64 = total * mult;
                proof {
                    assert(from_files(self.files@[i as int], self.files@));
                    assert(score as int == mw_score(*f, gw));
                    idxs = idxs.push(i as int);
                }
                out.push((score, f.clone_row()));
            }
            proof {
                assert forall|k: int|
                    0 <= k < i + 1 && mw_accepted(#[trigger] self.files@[k], gw)
                    implies scored_included(self.files@[k], mw_score(self.files@[k], gw), out@) by {
                    if k == i {
                        assert(out@[out@.len() - 1].1 == self.files@[k]);
                    } else {
                        let j = choose|j: int|
                            0 <= j < old_out.len() && (#[trigger] old_out[j]).1 == self.files@[k]
                                && old_out[j].0 as int == mw_score(self.files@[k], gw);
                        assert(out@[j].1 == self.files@[k]);
                    }
                }
            }
            i += 1;
        }
        let ghost collected = out@;
        let ranked = crate::rank::rank_descending(out, limit);
        proof {
            lemma_count_mw_bounds(self.files@, self.files@.len() as int, gw);
            carry_over_mw(collected, ranked@, self.files@, gw);
            lemma_drawn_distinct(collected, ranked@, self.files@, idxs, limit as int);
            broadcast use vstd::seq_lib::group_to_multiset_ensures;

            assert forall|k: int|
                0 <= k < self.files@.len() && mw_accepted(#[trigger] self.files@[k], gw)
                && ranked@.len() > 0 && mw_score(self.files@[k], gw) > ranked@[
                ranked@.len() - 1
            ].0 as int implies row_included(self.files@[k], ranked@) by {
                let j = choose|j: int|
                    0 <= j < collected.len() && (#[trigger] collected[j]).1 == self.files@[k]
                        && collected[j].0 as int == mw_score(self.files@[k], gw);
                let e = collected[j];
                assert(collected.contains(e));
                assert(collected.to_multiset().count(e) > 0);
                if ranked@.to_multiset().count(e) == 0 {
                    assert(e.0 <= ranked@[ranked@.len() - 1].0);
                } else {
                    assert(ranked@.contains(e));
                    let j2 = choose|j2: int| 0 <= j2 < ranked@.len() && ranked@[j2] == e;
                    assert(ranked@[j2].1 == self.files@[k]);
                }
            }
        }
        ranked
    }
}

/// The matcher's score of one row, passing over rows whose combined
/// string would overflow the matcher's width.
fn score_row(f: &FileIndex, needle: &str) -> (r: Option<i64>)
    ensures
        match r {
            Some(s) => entry_score(*f, needle@) == Some(s as int) && 0 <= s <= u16::MAX,
            None => entry_score(*f, needle@) is None,
        },
{
    let mut text = f.name.clone();
    text.append(" ");
    text.append(f.path.as_str());
    proof {
        reveal_strlit(" ");
        assert(" "@ =~= seq![' ']);
        assert(text@ == combined_of(*f));
    }
    let n = text.as_str().unicode_len();
    if n > (u32::MAX as usize) {
        return None;
    }
    match crate::outside::nucleo_fuzzy_match(text.as_str(), needle) {
        Some(s) => Some(s as i64),
        None => None,
    }
}

proof fn lemma_count_scored_bounds(files: Seq<FileIndex>, n: int, q: Seq<char>)
    requires
        0 <= n <= files.len(),
    ensures
        0 <= count_scored(files, n, q) <= n,
    decreases n,
{
    if n > 0 {
        lemma_count_scored_bounds(files, n - 1, q);
    }
}

proof fn lemma_count_mw_bounds(files: Seq<FileIndex>, n: int, words: Seq<Seq<char>>)
    requires
        0 <= n <= files.len(),
    ensures
        0 <= count_mw(files, n, words) <= n,
    decreases n,
{
    if n > 0 {
        lemma_count_mw_bounds(files, n - 1, words);
    }
}

/// Every ranked element keeps the provenance and score facts it was
/// collected with.
proof fn carry_over(
    collected: Seq<(i64, FileIndex)>,
    ranked: Seq<(i64, FileIndex)>,
    files: Seq<FileIndex>,
    q: Seq<char>,
)
    requires
        ranked.to_multiset().subset_of(collected.to_multiset()),
        forall|j: int| 0 <= j < collected.len() ==> from_files((#[trigger] collected[j]).1, files),
        forall|j: int|
            0 <= j < collected.len() ==> entry_score((#[trigger] collected[j]).1, q) == Some(
                collected[j].0 as int,
            ),
    ensures
        forall|j: int| 0 <= j < ranked.len() ==> from_files((#[trigger] ranked[j]).1, files),
        forall|j: int|
            0 <= j < ranked.len() ==> entry_score((#[trigger] ranked[j]).1, q) == Some(
                ranked[j].0 as int,
            ),
{
    broadcast use vstd::seq_lib::group_to_multiset_ensures;

    assert forall|j: int| 0 <= j < ranked.len() implies from_files(
        (#[trigger] ranked[j]).1,
        files,
    ) && entry_score(ranked[j].1, q) == Some(ranked[j].0 as int) by {
        assert(ranked.contains(ranked[j]));
        assert(ranked.to_multiset().count(ranked[j]) > 0);
        assert(collected.to_multiset().count(ranked[j]) > 0);
        assert(collected.contains(ranked[j]));
        let t = choose|t: int| 0 <= t < collected.len() && collected[t] == ranked[j];
        assert(from_files(collected[t].1, files));
    }
}

/// A stable ranking of rows drawn off strictly increasing snapshot
/// positions is itself drawn off pairwise distinct positions.
proof fn lemma_drawn_distinct(
    collected: Seq<(i64, FileIndex)>,
    ranked: Seq<(i64, FileIndex)>,
    files: Seq<FileIndex>,
    idxs: Seq<int>,
    limit: int,
)
    requires
        crate::rank::ranked_of(ranked, collected, limit),
        idxs.len() == collected.len(),
        forall|t: int|
            0 <= t < idxs.len() ==> 0 <= #[trigger] idxs[t] < files.len() && collected[t].1
                == files[idxs[t]],
        forall|a: int, b: int| 0 <= a < b < idxs.len() ==> idxs[a] < idxs[b],
    ensures
        drawn_distinct(ranked, files),
{
    assert(exists|rsrc: Seq<int>| crate::rank::stable_from(ranked, collected, rsrc));
    let rsrc = choose|rsrc: Seq<int>| crate::rank::stable_from(ranked, collected, rsrc);
    let src = Seq::new(ranked.len(), |j: int| idxs[rsrc[j]]);
    assert(src.len() == ranked.len());
    assert forall|j: int|
        0 <= j < src.len() implies 0 <= #[trigger] src[j] < files.len() && ranked[j].1 == files[
        src[j]
    ] by {
        assert(ranked[j] == collected[rsrc[j]]);
    }
    assert forall|i: int, j: int| 0 <= i < j < src.len() implies #[trigger] src[i] != #[trigger] src[
    j
    ] by {
        assert(rsrc[i] != rsrc[j]);
        if rsrc[i] < rsrc[j] {
            assert(idxs[rsrc[i]] < idxs[rsrc[j]]);
        } else {
            assert(idxs[rsrc[j]] < idxs[rsrc[i]]);
        }
    }
    assert(drawn_distinct(ranked, files));
}

/// The multi-word variant of `carry_over`.
proof fn carry_over_mw(
    collected: Seq<(i64, FileIndex)>,
    ranked: Seq<(i64, FileIndex)>,
    files: Seq<FileIndex>,
    words: Seq<Seq<char>>,
)
    requires
        ranked.to_multiset().subset_of(collected.to_multiset()),
        forall|j: int| 0 <= j < collected.len() ==> from_files((#[trigger] collected[j]).1, files),
        forall|j: int|
            0 <= j < collected.len() ==> mw_accepted((#[trigger] collected[j]).1, words) && collected[
                j
            ].0 as int == mw_score(collected[j].1, words),
    ensures
        forall|j: int| 0 <= j < ranked.len() ==> from_files((#[trigger] ranked[j]).1, files),
        forall|j: int|
            0 <= j < ranked.len() ==> mw_accepted((#[trigger] ranked[j]).1, words) && ranked[
                j
            ].0 as int == mw_score(ranked[j].1, words),
{
    broadcast use vstd::seq_lib::group_to_multiset_ensures;

    assert forall|j: int| 0 <= j < ranked.len() implies from_files(
        (#[trigger] ranked[j]).1,
        files,
    ) && mw_accepted(ranked[j].1, words) && ranked[j].0 as int == mw_score(ranked[j].1, words) by {
        assert(ranked.contains(ranked[j]));
        assert(ranked.to_multiset().count(ranked[j]) > 0);
        assert(collected.to_multiset().count(ranked[j]) > 0);
        assert(collected.contains(ranked[j]));
        let t = choose|t: int| 0 <= t < collected.len() && collected[t] == ranked[j];
        assert(from_files(collected[t].1, files));
    }
}

} // verus!
