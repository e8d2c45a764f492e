//! The heuristic multi-phase in-memory engine: a full snapshot of the
//! index scanned in staged passes — two-word variant probes, exact,
//! prefix, relaxed substring, single-word fallback and a bounded fuzzy
//! pass — each scan-budgeted.
use vstd::prelude::*;

use crate::outside::{is_upper, lower_of, skim_score};
use crate::score::cap_below_exact;
use crate::strutil::{contains_seq, starts_with_seq, tokens_of};

verus! {

/// One snapshot row: a name with its folded form, and the path.
pub struct FileIndex {
    pub name: String,
    pub path: String,
    pub name_lower: String,
    pub modified_at: Option<i64>,
}

impl FileIndex {
    /// The folded name really is the folded name.
    pub open spec fn wf(&self) -> bool {
        self.name_lower@ == lower_of(self.name@)
    }

    /// Builds a row, folding the name.
    pub fn new(name: String, path: String, modified_at: Option<i64>) -> (r: FileIndex)
        ensures
            r.wf(),
            r.name@ == name@,
            r.path@ == path@,
            r.modified_at == modified_at,
    {
        let name_lower = crate::outside::to_lowercase(name.as_str());
        FileIndex { name, path, name_lower, modified_at }
    }

    /// A value copy of this row.
    pub fn clone_row(&self) -> (r: FileIndex)
        ensures
            r == *self,
    {
        FileIndex {
            name: self.name.clone(),
            path: self.path.clone(),
            name_lower: self.name_lower.clone(),
            modified_at: self.modified_at,
        }
    }
}

/// The ASCII-folded character used when splitting camel case.
pub open spec fn ascii_fold(c: char) -> char {
    if 'A' <= c && c <= 'Z' {
        (((c as u8) + 32) as char)
    } else {
        c
    }
}

/// The camel-case words of `s` from `i` on, each ASCII-folded, with `cur`
/// the word being built.
pub open spec fn camel_acc(s: Seq<char>, i: int, cur: Seq<char>) -> Seq<Seq<char>>
    decreases s.len() - i when 0 <= i <= s.len()
{
    if i >= s.len() {
        if cur.len() > 0 {
            seq![cur]
        } else {
            Seq::empty()
        }
    } else if is_upper(s[i]) && cur.len() > 0 {
        seq![cur] + camel_acc(s, i + 1, seq![ascii_fold(s[i])])
    } else {
        camel_acc(s, i + 1, cur.push(ascii_fold(s[i])))
    }
}

/// The camel-case words of `s`, folded.
pub open spec fn camel_words_of(s: Seq<char>) -> Seq<Seq<char>> {
    camel_acc(s, 0, Seq::empty())
}

/// Splits camelCase and PascalCase into folded words.
pub fn split_camel_case(s: &Vec<char>) -> (r: Vec<Vec<char>>)
    ensures
        r.deep_view() == camel_words_of(s@),
{
    let mut r: Vec<Vec<char>> = Vec::new();
    let mut cur: Vec<char> = Vec::new();
    let mut i: usize = 0;
    proof {
        assert(r.deep_view() + camel_acc(s@, 0, cur@) =~= camel_words_of(s@));
    }
    while i < s.len()
        invariant
            0 <= i <= s@.len(),
            r.deep_view() + camel_acc(s@, i as int, cur@) == camel_words_of(s@),
        decreases s@.len() - i,
    {
        let c = s[i];
        let upper = c.is_uppercase();
        let folded: char = {
            let u = c as u32;
            if 65 <= u && u <= 90 {
                ((u + 32) as u8) as char
            } else {
                c
            }
        };
        proof {
            assert(folded == ascii_fold(s@[i as int]));
        }
        if upper && cur.len() > 0 {
            let ghost old_rv = r@;
            let ghost old_r = r.deep_view();
            let ghost old_cur = cur@;
            r.push(cur);
            cur = Vec::new();
            cur.push(folded);
            proof {
                crate::strutil::lemma_deep_view_push(old_rv, old_r, r@, r.deep_view(), old_cur);
                assert(cur@ =~= seq![ascii_fold(s@[i as int])]);
                assert(old_r + (seq![old_cur] + camel_acc(s@, i + 1, cur@)) =~= r.deep_view()
                    + camel_acc(s@, i + 1, cur@));
            }
        } else {
            cur.push(folded);
        }
        i += 1;
    }
    if cur.len() > 0 {
        let ghost old_rv = r@;
        let ghost old_r = r.deep_view();
        let ghost old_cur = cur@;
        r.push(cur);
        proof {
            crate::strutil::lemma_deep_view_push(old_rv, old_r, r@, r.deep_view(), old_cur);
            assert(camel_acc(s@, s@.len() as int, old_cur) == seq![old_cur]);
            assert(r.deep_view() =~= old_r + seq![old_cur]);
            assert(r.deep_view() =~= camel_words_of(s@));
        }
    } else {
        proof {
            assert(camel_acc(s@, s@.len() as int, cur@) =~= Seq::<Seq<char>>::empty());
            assert(r.deep_view() + camel_acc(s@, s@.len() as int, cur@) =~= r.deep_view());
        }
    }
    r
}

/// A token is found for the relaxed substring pass when it occurs in the
/// folded name, the folded path, or starts one of the name's camel words.
pub open spec fn cam_hit(cam: Seq<Seq<char>>, t: Seq<char>) -> bool {
    exists|k: int| 0 <= k < cam.len() && starts_with_seq(#[trigger] cam[k], t)
}

pub open spec fn tok_found(t: Seq<char>, nl: Seq<char>, pl: Seq<char>, cam: Seq<Seq<char>>) -> bool {
    contains_seq(nl, t) || contains_seq(pl, t) || cam_hit(cam, t)
}

/// How many of the first `i` tokens are found at all.
pub open spec fn count_found(
    toks: Seq<Seq<char>>,
    i: int,
    nl: Seq<char>,
    pl: Seq<char>,
    cam: Seq<Seq<char>>,
) -> int
    decreases i,
{
    if i <= 0 {
        0
    } else {
        count_found(toks, i - 1, nl, pl, cam) + (if tok_found(toks[i - 1], nl, pl, cam) {
            1int
        } else {
            0int
        })
    }
}

/// How many of the first `i` tokens occur in the folded name.
pub open spec fn count_in(toks: Seq<Seq<char>>, i: int, hay: Seq<char>) -> int
    decreases i,
{
    if i <= 0 {
        0
    } else {
        count_in(toks, i - 1, hay) + (if contains_seq(hay, toks[i - 1]) {
            1int
        } else {
            0int
        })
    }
}

/// The multi-word relaxation: all tokens for one or two, all but one
/// otherwise.
pub open spec fn required_of(n: int) -> int {
    if n <= 2 {
        n
    } else {
        n - 1
    }
}

/// The longest token, earliest among equals — the single-word fallback.
pub open spec fn longest_tok(toks: Seq<Seq<char>>) -> Seq<char>
    decreases toks.len(),
{
    if toks.len() == 0 {
        Seq::empty()
    } else if toks.len() == 1 {
        toks[0]
    } else {
        let rest = longest_tok(toks.drop_first());
        if rest.len() > toks[0].len() {
            rest
        } else {
            toks[0]
        }
    }
}

/// The row is one of the snapshot's rows.
pub open spec fn from_files(row: FileIndex, files: Seq<FileIndex>) -> bool {
    exists|k: int| 0 <= k < files.len() && row == #[trigger] files[k]
}

/// One two-word variant probe: what a hit scores.
pub open spec fn variant_hit(s: int, nl: Seq<char>, pl: Seq<char>, v: Seq<char>) -> bool {
    ||| (nl == v && s == 20000)
    ||| (contains_seq(nl, v) && s == 15000)
    ||| (contains_seq(pl, seq!['\\'] + v + seq!['\\']) && s == 12000)
    ||| (contains_seq(pl, v) && s == 8000)
}

/// Why a returned hit carries its score: one of the engine's phases
/// accepted the file at exactly this tier. `q` is the raw query.
pub open spec fn fzf_hit_ok(s: int, f: FileIndex, q: Seq<char>) -> bool {
    let ql = lower_of(q);
    let nl = lower_of(f.name@);
    let pl = lower_of(f.path@);
    let toks = tokens_of(ql);
    let cam = camel_words_of(f.name@);
    let multi = toks.len() > 1;
    ||| (toks.len() == 2 && {
        let v1 = toks[0] + seq!['-'] + toks[1];
        let v2 = toks[0] + seq!['_'] + toks[1];
        let v3 = toks[0] + toks[1];
        variant_hit(s, nl, pl, v1) || variant_hit(s, nl, pl, v2) || variant_hit(s, nl, pl, v3)
    })
    ||| (nl == ql && s == 10000)
    ||| (starts_with_seq(nl, ql) && s == 5000)
    ||| (!multi && (contains_seq(nl, ql) || contains_seq(pl, ql)) && s == 1000)
    ||| (multi && count_found(toks, toks.len() as int, nl, pl, cam) >= required_of(
        toks.len() as int,
    ) && s == (if count_in(toks, toks.len() as int, nl) >= 1 && count_in(
        toks,
        toks.len() as int,
        pl,
    ) >= 1 {
        4000int
    } else {
        2000int
    }))
    ||| (multi && (contains_seq(nl, longest_tok(toks)) || contains_seq(pl, longest_tok(toks)))
        && s == 1500)
    ||| (!multi && q.len() <= 10 && skim_score(nl, ql) is Some && skim_score(nl, ql)->0 > 20 && s
        == cap_below_exact(skim_score(nl, ql)->0))
}

/// Some returned row holds this path.
pub open spec fn path_present(p: Seq<char>, r: Seq<(i64, FileIndex)>) -> bool {
    exists|j: int| 0 <= j < r.len() && (#[trigger] r[j]).1.path@ == p
}

/// Some returned row holds this path at exactly this score.
pub open spec fn path_scored(p: Seq<char>, s: int, r: Seq<(i64, FileIndex)>) -> bool {
    exists|j: int| 0 <= j < r.len() && (#[trigger] r[j]).1.path@ == p && r[j].0 as int == s
}

/// Whether one two-word variant hits the row: by folded name, by a
/// backslash-wrapped path component, or anywhere in the folded path.
pub open spec fn one_variant_hit(f: FileIndex, v: Seq<char>) -> bool {
    ||| lower_of(f.name@) == v
    ||| contains_seq(lower_of(f.name@), v)
    ||| contains_seq(lower_of(f.path@), seq!['\\'] + v + seq!['\\'])
    ||| contains_seq(lower_of(f.path@), v)
}

/// Whether the variant probes of a two-word query accept the row.
pub open spec fn variant_accepts(f: FileIndex, q: Seq<char>) -> bool {
    let toks = tokens_of(lower_of(q));
    ||| one_variant_hit(f, toks[0] + seq!['-'] + toks[1])
    ||| one_variant_hit(f, toks[0] + seq!['_'] + toks[1])
    ||| one_variant_hit(f, toks[0] + toks[1])
}

/// Whether the substring phase accepts the row: at least all-but-one
/// token found for a multi-word query, plain containment otherwise.
pub open spec fn contains_accepts(f: FileIndex, q: Seq<char>) -> bool {
    let ql = lower_of(q);
    let toks = tokens_of(ql);
    if toks.len() > 1 {
        count_found(
            toks,
            toks.len() as int,
            lower_of(f.name@),
            lower_of(f.path@),
            camel_words_of(f.name@),
        ) >= required_of(toks.len() as int)
    } else {
        contains_seq(lower_of(f.name@), ql) || contains_seq(lower_of(f.path@), ql)
    }
}

/// Whether the single-word fallback accepts the row: the longest token
/// occurs in the folded name or path.
pub open spec fn fallback_accepts(f: FileIndex, q: Seq<char>) -> bool {
    let w = longest_tok(tokens_of(lower_of(q)));
    contains_seq(lower_of(f.name@), w) || contains_seq(lower_of(f.path@), w)
}

/// The exact phase misses nothing it could reach: when fewer rows come
/// back than the exact phase alone may keep, every file within its scan
/// budget whose folded name equals the folded query is among them — and
/// for a single-word query, at the exact tier itself, which pins exact
/// matches strictly first in the sorted result.
pub open spec fn exact_phase_complete(
    r: Seq<(i64, FileIndex)>,
    files: Seq<FileIndex>,
    q: Seq<char>,
    limit: int,
) -> bool {
    q.len() > 0 && r.len() < vstd::math::min(limit, 20) ==> forall|k: int|
        0 <= k < vstd::math::min(files.len() as int, 50000) && (#[trigger] files[k]).name_lower@
            == lower_of(q) ==> path_present(files[k].path@, r) && (tokens_of(lower_of(q)).len()
            <= 1 ==> path_scored(files[k].path@, 10000, r))
}

/// The two-word variant probes miss nothing within their budget while
/// fewer rows come back than the probes alone may keep.
pub open spec fn variant_phase_complete(
    r: Seq<(i64, FileIndex)>,
    files: Seq<FileIndex>,
    q: Seq<char>,
    limit: int,
) -> bool {
    q.len() > 0 && tokens_of(lower_of(q)).len() == 2 && r.len() < vstd::math::min(limit, 10)
        ==> forall|k: int|
        0 <= k < vstd::math::min(files.len() as int, 100000) && variant_accepts(
            #[trigger] files[k],
            q,
        ) ==> path_present(files[k].path@, r)
}

/// What the substring phase may keep.
pub open spec fn contains_cap_of(limit: int, multi: bool) -> int {
    if multi {
        vstd::math::min(limit, 25)
    } else {
        limit
    }
}

/// The substring phase misses nothing within its budget while fewer rows
/// come back than it may keep.
pub open spec fn contains_phase_complete(
    r: Seq<(i64, FileIndex)>,
    files: Seq<FileIndex>,
    q: Seq<char>,
    limit: int,
) -> bool {
    let multi = tokens_of(lower_of(q)).len() > 1;
    q.len() > 0 && r.len() < contains_cap_of(limit, multi) ==> forall|k: int|
        0 <= k < vstd::math::min(
            files.len() as int,
            if multi {
                200000int
            } else {
                100000int
            },
        ) && contains_accepts(#[trigger] files[k], q) ==> path_present(files[k].path@, r)
}

/// When a multi-word query still comes back with fewer than three rows,
/// the single-word fallback ran and missed nothing within its budget.
pub open spec fn fallback_phase_complete(
    r: Seq<(i64, FileIndex)>,
    files: Seq<FileIndex>,
    q: Seq<char>,
    limit: int,
) -> bool {
    q.len() > 0 && tokens_of(lower_of(q)).len() > 1 && r.len() < vstd::math::min(limit, 3)
        ==> forall|k: int|
        0 <= k < vstd::math::min(files.len() as int, 25000) && fallback_accepts(
            #[trigger] files[k],
            q,
        ) ==> path_present(files[k].path@, r)
}

/// The returned rows all stem from the snapshot, each scored by the phase
/// that accepted it, without duplicate paths, best first; the list is a
/// stable ranking of some sound hit list; and each phase's completeness
/// holds within its budget and caps.
pub open spec fn fzf_results_ok(
    r: Seq<(i64, FileIndex)>,
    files: Seq<FileIndex>,
    q: Seq<char>,
    limit: int,
) -> bool {
    &&& r.len() <= limit
    &&& (forall|j: int| 0 <= j < r.len() ==> from_files((#[trigger] r[j]).1, files))
    &&& (forall|j: int| 0 <= j < r.len() ==> fzf_hit_ok((#[trigger] r[j]).0 as int, r[j].1, q))
    &&& (forall|i: int, j: int|
        0 <= i < j < r.len() ==> (#[trigger] r[i]).1.path@ != (#[trigger] r[j]).1.path@)
    &&& crate::rank::sorted_desc(r)
    &&& (exists|collected: Seq<(i64, FileIndex)>|
        #![trigger collected.len()]
        results_sound(collected, files, q) && crate::rank::ranked_of(r, collected, limit))
    &&& exact_phase_complete(r, files, q, limit)
    &&& variant_phase_complete(r, files, q, limit)
    &&& contains_phase_complete(r, files, q, limit)
    &&& fallback_phase_complete(r, files, q, limit)
}

/// Everything present in a list stays present in any permutation of a
/// list it is contained in (ranking keeps every row when nothing is cut).
proof fn lemma_present_through_rank(collected: Seq<(i64, FileIndex)>, ranked: Seq<(i64, FileIndex)>)
    requires
        ranked.to_multiset() == collected.to_multiset(),
    ensures
        forall|p: Seq<char>| #[trigger] path_present(p, collected) ==> path_present(p, ranked),
        forall|p: Seq<char>, s: int| #[trigger] path_scored(p, s, collected) ==> path_scored(
            p,
            s,
            ranked,
        ),
{
    broadcast use vstd::seq_lib::group_to_multiset_ensures;

    assert forall|p: Seq<char>| #[trigger] path_present(p, collected) implies path_present(
        p,
        ranked,
    ) by {
        let t = choose|t: int| 0 <= t < collected.len() && (#[trigger] collected[t]).1.path@ == p;
        let e = collected[t];
        assert(collected.contains(e));
        assert(collected.to_multiset().count(e) > 0);
        assert(ranked.to_multiset().count(e) > 0);
        assert(ranked.contains(e));
        let j2 = choose|j2: int| 0 <= j2 < ranked.len() && ranked[j2] == e;
        assert(ranked[j2].1.path@ == p);
    }
    assert forall|p: Seq<char>, s: int| #[trigger] path_scored(p, s, collected) implies path_scored(
        p,
        s,
        ranked,
    ) by {
        let t = choose|t: int|
            0 <= t < collected.len() && (#[trigger] collected[t]).1.path@ == p && collected[
                t
            ].0 as int == s;
        let e = collected[t];
        assert(collected.contains(e));
        assert(collected.to_multiset().count(e) > 0);
        assert(ranked.to_multiset().count(e) > 0);
        assert(ranked.contains(e));
        let j2 = choose|j2: int| 0 <= j2 < ranked.len() && ranked[j2] == e;
        assert(ranked[j2].1.path@ == p);
    }
}

/// Whether a result list already holds this path.
fn holds_path(r: &Vec<(i64, FileIndex)>, path: &String) -> (b: bool)
    ensures
        b == exists|t: int| 0 <= t < r@.len() && (#[trigger] r@[t]).1.path@ == path@,
{
    let mut t: usize = 0;
    while t < r.len()
        invariant
            0 <= t <= r@.len(),
            forall|u: int| 0 <= u < t ==> (#[trigger] r@[u]).1.path@ != path@,
        decreases r@.len() - t,
    {
        if r[t].1.path.eq(path) {
            return true;
        }
        t += 1;
    }
    false
}

/// A ranked sub-multiset of rows with pairwise distinct paths keeps them
/// distinct.
proof fn lemma_rank_keeps_distinct_paths(col: Seq<(i64, FileIndex)>, r: Seq<(i64, FileIndex)>)
    requires
        r.to_multiset().subset_of(col.to_multiset()),
        forall|i: int, j: int|
            0 <= i < j < col.len() ==> (#[trigger] col[i]).1.path@ != (#[trigger] col[j]).1.path@,
    ensures
        forall|i: int, j: int|
            0 <= i < j < r.len() ==> (#[trigger] r[i]).1.path@ != (#[trigger] r[j]).1.path@,
{
    broadcast use vstd::seq_lib::group_to_multiset_ensures;

    assert(col.no_duplicates()) by {
        assert forall|i: int, j: int|
            0 <= i < col.len() && 0 <= j < col.len() && i != j implies col[i] != col[j] by {
            if i < j {
                assert(col[i].1.path@ != col[j].1.path@);
            } else {
                assert(col[j].1.path@ != col[i].1.path@);
            }
        }
    }
    col.lemma_multiset_has_no_duplicates();
    assert forall|i: int, j: int|
        0 <= i < j < r.len() implies (#[trigger] r[i]).1.path@ != (#[trigger] r[j]).1.path@ by {
        if r[i].1.path@ == r[j].1.path@ {
            assert(r.contains(r[i]));
            assert(r.to_multiset().count(r[i]) > 0);
            assert(col.to_multiset().count(r[i]) > 0);
            assert(col.contains(r[i]));
            assert(r.contains(r[j]));
            assert(r.to_multiset().count(r[j]) > 0);
            assert(col.to_multiset().count(r[j]) > 0);
            assert(col.contains(r[j]));
            let a = choose|a: int| 0 <= a < col.len() && col[a] == r[i];
            let b = choose|b: int| 0 <= b < col.len() && col[b] == r[j];
            if a != b {
                if a < b {
                    assert(col[a].1.path@ != col[b].1.path@);
                } else {
                    assert(col[b].1.path@ != col[a].1.path@);
                }
            } else {
                // the same snapshot row twice: its count in `r` would be
                // two, above its count in `col`
                let s0 = r.subrange(0, j);
                let s1 = r.subrange(j, r.len() as int);
                assert(r =~= s0 + s1);
                vstd::seq_lib::lemma_multiset_commutative(s0, s1);
                assert(s0.contains(r[i]));
                assert(s0.to_multiset().count(r[i]) > 0);
                assert(s1.contains(r[j]));
                assert(s1.to_multiset().count(r[j]) > 0);
                assert(r.to_multiset().count(r[i]) >= 2);
                assert(col.to_multiset().count(r[i]) == 1);
            }
        }
    }
}

/// The heuristic multi-phase scanner over a full in-memory snapshot.
pub struct FzfSearchEngine {
    pub files: Vec<FileIndex>,
    pub last_update: i64,
}

impl FzfSearchEngine {
    /// Every snapshot row is well formed.
    pub open spec fn wf(&self) -> bool {
        forall|k: int| 0 <= k < self.files@.len() ==> (#[trigger] self.files@[k]).wf()
    }

    /// An empty engine.
    pub fn new() -> (r: FzfSearchEngine)
        ensures
            r.wf(),
            r.files@.len() == 0,
    {
        FzfSearchEngine { files: Vec::new(), last_update: 0 }
    }

    /// Replaces the snapshot wholesale.
    pub fn load(&mut self, files: Vec<FileIndex>, now: i64)
        requires
            forall|k: int| 0 <= k < files@.len() ==> (#[trigger] files@[k]).wf(),
        ensures
            final(self).wf(),
            final(self).files@ == files@,
            final(self).last_update == now,
    {
        self.files = files;
        self.last_update = now;
    }

    /// Whether the snapshot is older than its refresh window.
    pub fn needs_refresh(&self, now: i64) -> (b: bool)
        ensures
            b == (self.last_update <= i64::MAX - 300 && now > self.last_update + 300),
    {
        self.last_update <= i64::MAX - 300 && now > self.last_update + 300
    }

    /// The staged scan: two-word variant probes, exact, prefix, relaxed
    /// substring, single-word fallback when a multi-word pass stays under
    /// three hits, then a bounded fuzzy pass; ranked best-first. Each
    /// phase's completeness within its budget is part of
    /// `fzf_results_ok`.
    #[verifier::rlimit(100)]
    pub fn search(&self, query: &str, limit: usize) -> (r: Vec<(i64, FileIndex)>)
        requires
            self.wf(),
        ensures
            query@.len() == 0 ==> r@.len() == 0,
            fzf_results_ok(r@, self.files@, query@, limit as int),
    {
        let mut out: Vec<(i64, FileIndex)> = Vec::new();
        if query.unicode_len() == 0 {
            proof {
                let empty: Seq<(i64, FileIndex)> = Seq::empty();
                assert(results_sound(empty, self.files@, query@));
                assert(crate::rank::stable_from(empty, empty, Seq::<int>::empty()));
                assert(empty.to_multiset() =~= empty.to_multiset());
                assert(empty.to_multiset().subset_of(empty.to_multiset()));
                assert(crate::rank::ranked_of(empty, empty, limit as int));
            }
            return out;
        }
        let ghost gq = query@;
        let lowered = crate::outside::to_lowercase(query);
        let ql = crate::strutil::chars_of(lowered.as_str());
        let toks = crate::strutil::tokenize(&ql);
        let multi = toks.len() > 1;
        let toks2 = toks.len() == 2;
        let ghost scan0g = vstd::math::min(self.files@.len() as int, 100000);
        let ghost mut p0_all_full: bool = true;

        // phase 0: two-word variant probes
        if toks2 {
            let mut variants: Vec<Vec<char>> = Vec::new();
            let mut v1: Vec<char> = Vec::new();
            crate::pattern::append_all(&mut v1, &toks[0]);
            v1.push('-');
            crate::pattern::append_all(&mut v1, &toks[1]);
            let mut v2: Vec<char> = Vec::new();
            crate::pattern::append_all(&mut v2, &toks[0]);
            v2.push('_');
            crate::pattern::append_all(&mut v2, &toks[1]);
            let mut v3: Vec<char> = Vec::new();
            crate::pattern::append_all(&mut v3, &toks[0]);
            crate::pattern::append_all(&mut v3, &toks[1]);
            proof {
                crate::strutil::vec_deep_view_is_view(toks@[0]);
                crate::strutil::vec_deep_view_is_view(toks@[1]);
                assert(v1@ =~= tokens_of(lower_of(gq))[0] + seq!['-'] + tokens_of(lower_of(gq))[1]);
                assert(v2@ =~= tokens_of(lower_of(gq))[0] + seq!['_'] + tokens_of(lower_of(gq))[1]);
                assert(v3@ =~= tokens_of(lower_of(gq))[0] + tokens_of(lower_of(gq))[1]);
            }
            variants.push(v1);
            variants.push(v2);
            variants.push(v3);
            let scan: usize = if self.files.len() < 100000 {
                self.files.len()
            } else {
                100000
            };
            let mut vi: usize = 0;
            while vi < 3
                invariant
                    0 <= vi <= 3,
                    self.wf(),
                    scan as int == scan0g,
                    scan <= self.files@.len(),
                    variants@.len() == 3,
                    toks.deep_view().len() == 2,
                    tokens_of(lower_of(gq)) == toks.deep_view(),
                    variants@[0]@ == tokens_of(lower_of(gq))[0] + seq!['-'] + tokens_of(
                        lower_of(gq),
                    )[1],
                    variants@[1]@ == tokens_of(lower_of(gq))[0] + seq!['_'] + tokens_of(
                        lower_of(gq),
                    )[1],
                    variants@[2]@ == tokens_of(lower_of(gq))[0] + tokens_of(lower_of(gq))[1],
                    results_sound(out@, self.files@, gq),
                    p0_all_full || out@.len() >= 10,
                    p0_all_full ==> (forall|p: int, k: int|
                        0 <= p < vi && 0 <= k < scan0g && one_variant_hit(
                            #[trigger] self.files@[k],
                            (#[trigger] variants@[p])@,
                        ) ==> path_present(self.files@[k].path@, out@)),
                decreases 3 - vi,
            {
                let v = &variants[vi];
                let mut i: usize = 0;
                while i < scan && out.len() < 10
                    invariant
                        0 <= i <= scan <= self.files@.len(),
                        self.wf(),
                        vi < 3,
                        scan as int == scan0g,
                        toks.deep_view().len() == 2,
                        tokens_of(lower_of(gq)) == toks.deep_view(),
                        variants@.len() == 3,
                        variants@[0]@ == tokens_of(lower_of(gq))[0] + seq!['-'] + tokens_of(
                            lower_of(gq),
                        )[1],
                        variants@[1]@ == tokens_of(lower_of(gq))[0] + seq!['_'] + tokens_of(
                            lower_of(gq),
                        )[1],
                        variants@[2]@ == tokens_of(lower_of(gq))[0] + tokens_of(lower_of(gq))[1],
                        v@ == variants@[vi as int]@,
                        results_sound(out@, self.files@, gq),
                        p0_all_full || out@.len() >= 10,
                        p0_all_full ==> (forall|p: int, k: int|
                            0 <= p < vi && 0 <= k < scan0g && one_variant_hit(
                                #[trigger] self.files@[k],
                                (#[trigger] variants@[p])@,
                            ) ==> path_present(self.files@[k].path@, out@)),
                        forall|k: int|
                            0 <= k < i && one_variant_hit(#[trigger] self.files@[k], v@)
                                ==> path_present(self.files@[k].path@, out@),
                    decreases scan - i,
                {
                    let ghost body_out0 = out@;
                    let f = &self.files[i];
                    let nl = crate::strutil::chars_of(f.name_lower.as_str());
                    let path_lowered = crate::outside::to_lowercase(f.path.as_str());
                    let pl = crate::strutil::chars_of(path_lowered.as_str());
                    let mut wrapped: Vec<char> = Vec::new();
                    wrapped.push('\\');
                    crate::pattern::append_all(&mut wrapped, v);
                    wrapped.push('\\');
                    proof {
                        assert(wrapped@ =~= seq!['\\'] + v@ + seq!['\\']);
                        assert(self.files@[i as int].wf());
                    }
                    let score: i64 = if crate::strutil::eq_chars(&nl, v) {
                        20000
                    } else if crate::strutil::contains_sub(&nl, v) {
                        15000
                    } else if crate::strutil::contains_sub(&pl, &wrapped) {
                        12000
                    } else if crate::strutil::contains_sub(&pl, v) {
                        8000
                    } else {
                        0
                    };
                    if score > 0 && !holds_path(&out, &f.path) {
                        proof {
                            assert(variant_hit(score as int, lower_of(f.name@), lower_of(f.path@), v@));
                            let t0 = tokens_of(lower_of(gq))[0];
                            let t1 = tokens_of(lower_of(gq))[1];
                            if vi == 0 {
                                assert(v@ == t0 + seq!['-'] + t1);
                            } else if vi == 1 {
                                assert(v@ == t0 + seq!['_'] + t1);
                            } else {
                                assert(v@ == t0 + t1);
                            }
                            assert(fzf_hit_ok(score as int, *f, gq));
                        }
                        out.push((score, f.clone_row()));
                    }
                    proof {
                        lemma_presence_extends(body_out0, out@);
                        assert forall|k: int|
                            0 <= k < i + 1 && one_variant_hit(#[trigger] self.files@[k], v@)
                            implies path_present(self.files@[k].path@, out@) by {
                            if k == i {
                                if score == 0 {
                                    assert(!one_variant_hit(self.files@[k], v@));
                                } else if out@.len() > body_out0.len() {
                                    assert(out@[out@.len() - 1].1.path@ == self.files@[k].path@);
                                } else {
                                    assert(path_present(self.files@[k].path@, body_out0));
                                }
                            } else {
                                assert(path_present(self.files@[k].path@, body_out0));
                            }
                        }
                    }
                    i += 1;
                }
                proof {
                    p0_all_full = p0_all_full && (i >= scan);
                    assert(p0_all_full ==> i as int == scan0g);
                }
                vi += 1;
            }
        }
        proof {
            if toks2 && p0_all_full {
                // the three pass claims merge into the variant acceptance
                assert(variant_claim(out@, self.files@, gq, scan0g));
            }
            if !toks2 {
                assert(out@.len() == 0);
            }
            assert(toks2 == (tokens_of(lower_of(gq)).len() == 2));
        }
        let ghost p0_done = p0_all_full;

        // phase 1: exact folded-name matches
        let exact_cap: usize = if limit < 20 {
            limit
        } else {
            20
        };
        proof {
            assert(exact_cap as int == vstd::math::min(limit as int, 20));
            assert(!multi ==> out@.len() == 0);
        }
        let scan1: usize = if self.files.len() < 50000 {
            self.files.len()
        } else {
            50000
        };
        let ghost exact_bound = vstd::math::min(self.files@.len() as int, 50000);
        let mut i: usize = 0;
        while i < scan1 && out.len() < exact_cap
            invariant
                0 <= i <= scan1 <= self.files@.len(),
                self.wf(),
                scan1 as int == exact_bound,
                ql@ == lower_of(gq),
                multi == (tokens_of(lower_of(gq)).len() > 1),
                toks2 == (tokens_of(lower_of(gq)).len() == 2),
                results_sound(out@, self.files@, gq),
                toks2 ==> (p0_done || out@.len() >= 10),
                toks2 && p0_done ==> variant_claim(out@, self.files@, gq, scan0g),
                !multi ==> (forall|t: int| 0 <= t < out@.len() ==> (#[trigger] out@[t]).0 == 10000),
                forall|k: int|
                    0 <= k < i && (#[trigger] self.files@[k]).name_lower@ == lower_of(gq)
                        ==> path_present(self.files@[k].path@, out@),
                !multi ==> (forall|k: int|
                    0 <= k < i && (#[trigger] self.files@[k]).name_lower@ == lower_of(gq)
                        ==> path_scored(self.files@[k].path@, 10000, out@)),
            decreases scan1 - i,
        {
            let ghost body_out0 = out@;
            let f = &self.files[i];
            let nl = crate::strutil::chars_of(f.name_lower.as_str());
            if crate::strutil::eq_chars(&nl, &ql) && !holds_path(&out, &f.path) {
                proof {
                    assert(fzf_hit_ok(10000, *f, gq));
                }
                out.push((10000, f.clone_row()));
            }
            proof {
                lemma_presence_extends(body_out0, out@);
                assert forall|k: int|
                    0 <= k < i + 1 && (#[trigger] self.files@[k]).name_lower@ == lower_of(gq)
                    implies path_present(self.files@[k].path@, out@) && (!multi ==> path_scored(
                    self.files@[k].path@,
                    10000,
                    out@,
                )) by {
                    if k == i {
                        if out@.len() > body_out0.len() {
                            assert(out@[out@.len() - 1].1.path@ == self.files@[k].path@);
                            assert(out@[out@.len() - 1].0 == 10000);
                        } else {
                            let t = choose|t: int|
                                0 <= t < body_out0.len() && (#[trigger] body_out0[t]).1.path@
                                    == self.files@[k].path@;
                            assert(out@[t].1.path@ == self.files@[k].path@);
                            if !multi {
                                assert(body_out0[t].0 == 10000);
                            }
                        }
                    } else {
                        assert(path_present(self.files@[k].path@, body_out0));
                        if !multi {
                            assert(path_scored(self.files@[k].path@, 10000, body_out0));
                        }
                    }
                }
            }
            i += 1;
        }
        let ghost p1_complete = i >= scan1;
        let ghost p1_len = out@.len();
        proof {
            assert(p1_complete || out@.len() >= exact_cap);
        }

        // phase 2: folded-name prefix matches
        let prefix_cap: usize = if limit < 30 {
            limit
        } else {
            30
        };
        let scan2: usize = if self.files.len() < 100000 {
            self.files.len()
        } else {
            100000
        };
        let mut i2: usize = 0;
        while i2 < scan2 && out.len() < prefix_cap
            invariant
                0 <= i2 <= scan2 <= self.files@.len(),
                self.wf(),
                ql@ == lower_of(gq),
                multi == (tokens_of(lower_of(gq)).len() > 1),
                toks2 == (tokens_of(lower_of(gq)).len() == 2),
                results_sound(out@, self.files@, gq),
                out@.len() >= p1_len,
                p1_complete || p1_len >= vstd::math::min(limit as int, 20),
                toks2 ==> (p0_done || out@.len() >= 10),
                toks2 && p0_done ==> variant_claim(out@, self.files@, gq, scan0g),
                p1_complete ==> exact_claim(out@, self.files@, gq, exact_bound),
                p1_complete && !multi ==> exact_scored_claim(out@, self.files@, gq, exact_bound),
            decreases scan2 - i2,
        {
            let ghost body_out0 = out@;
            let f = &self.files[i2];
            let nl = crate::strutil::chars_of(f.name_lower.as_str());
            if crate::strutil::starts_with(&nl, &ql) && !holds_path(&out, &f.path) {
                proof {
                    assert(fzf_hit_ok(5000, *f, gq));
                }
                out.push((5000, f.clone_row()));
            }
            proof {
                lemma_presence_extends(body_out0, out@);
            }
            i2 += 1;
        }

        // phase 3: substring matches, relaxed for multi-word queries
        let contains_cap: usize = if multi {
            if limit < 25 {
                limit
            } else {
                25
            }
        } else {
            limit
        };
        let scan3: usize = {
            let b: usize = if multi {
                200000
            } else {
                100000
            };
            if self.files.len() < b {
                self.files.len()
            } else {
                b
            }
        };
        let ghost contains_bound = vstd::math::min(
            self.files@.len() as int,
            if multi {
                200000int
            } else {
                100000int
            },
        );
        proof {
            assert(contains_cap as int == contains_cap_of(limit as int, multi));
            assert(scan3 as int == contains_bound);
        }
        let mut i3: usize = 0;
        while i3 < scan3 && out.len() < contains_cap
            invariant
                0 <= i3 <= scan3 <= self.files@.len(),
                self.wf(),
                scan3 as int == contains_bound,
                ql@ == lower_of(gq),
                toks.deep_view() == tokens_of(lower_of(gq)),
                multi == (tokens_of(lower_of(gq)).len() > 1),
                toks2 == (tokens_of(lower_of(gq)).len() == 2),
                results_sound(out@, self.files@, gq),
                out@.len() >= p1_len,
                p1_complete || p1_len >= vstd::math::min(limit as int, 20),
                toks2 ==> (p0_done || out@.len() >= 10),
                toks2 && p0_done ==> variant_claim(out@, self.files@, gq, scan0g),
                p1_complete ==> exact_claim(out@, self.files@, gq, exact_bound),
                p1_complete && !multi ==> exact_scored_claim(out@, self.files@, gq, exact_bound),
                forall|k: int|
                    0 <= k < i3 && contains_accepts(#[trigger] self.files@[k], gq)
                        ==> path_present(self.files@[k].path@, out@),
            decreases scan3 - i3,
        {
            let ghost body_out0 = out@;
            let f = &self.files[i3];
            let nl = crate::strutil::chars_of(f.name_lower.as_str());
            let path_lowered = crate::outside::to_lowercase(f.path.as_str());
            let pl = crate::strutil::chars_of(path_lowered.as_str());
            proof {
                assert(self.files@[i3 as int].wf());
            }
            let mut accepted = false;
            if multi {
                let name_chars = crate::strutil::chars_of(f.name.as_str());
                let cam = split_camel_case(&name_chars);
                let found = count_found_exec(&toks, &nl, &pl, &cam);
                let required: usize = if toks.len() <= 2 {
                    toks.len()
                } else {
                    toks.len() - 1
                };
                if found >= required {
                    accepted = true;
                    let in_name = count_in_exec(&toks, &nl);
                    let in_path = count_in_exec(&toks, &pl);
                    let score: i64 = if in_name >= 1 && in_path >= 1 {
                        4000
                    } else {
                        2000
                    };
                    if !holds_path(&out, &f.path) {
                        proof {
                            assert(fzf_hit_ok(score as int, *f, gq));
                        }
                        out.push((score, f.clone_row()));
                    }
                }
            } else {
                if crate::strutil::contains_sub(&nl, &ql) || crate::strutil::contains_sub(
                    &pl,
                    &ql,
                ) {
                    accepted = true;
                    if !holds_path(&out, &f.path) {
                        proof {
                            assert(fzf_hit_ok(1000, *f, gq));
                        }
                        out.push((1000, f.clone_row()));
                    }
                }
            }
            proof {
                lemma_presence_extends(body_out0, out@);
                assert(accepted == contains_accepts(self.files@[i3 as int], gq));
                assert forall|k: int|
                    0 <= k < i3 + 1 && contains_accepts(#[trigger] self.files@[k], gq)
                    implies path_present(self.files@[k].path@, out@) by {
                    if k == i3 {
                        if out@.len() > body_out0.len() {
                            assert(out@[out@.len() - 1].1.path@ == self.files@[k].path@);
                        } else {
                            assert(path_present(self.files@[k].path@, body_out0));
                        }
                    } else {
                        assert(path_present(self.files@[k].path@, body_out0));
                    }
                }
            }
            i3 += 1;
        }
        let ghost p3_full = i3 >= scan3;
        let ghost p3_len = out@.len();
        proof {
            assert(p3_full || out@.len() >= contains_cap);
        }

        // phase 4: single-word fallback when the multi-word scan stayed
        // under three hits
        let fb_cond = multi && out.len() < 3;
        let ghost fb_pre_len = out@.len();
        let ghost mut fb_full: bool = true;
        let ghost mut fb_len: int = out@.len() as int;
        let ghost fallback_bound = vstd::math::min(self.files@.len() as int, 25000);
        if fb_cond {
            let fallback = longest_tok_exec(&toks);
            let scan4: usize = if self.files.len() < 25000 {
                self.files.len()
            } else {
                25000
            };
            let mut i4: usize = 0;
            while i4 < scan4 && out.len() < limit
                invariant
                    0 <= i4 <= scan4 <= self.files@.len(),
                    self.wf(),
                    scan4 as int == fallback_bound,
                    toks.deep_view() == tokens_of(lower_of(gq)),
                    multi == (tokens_of(lower_of(gq)).len() > 1),
                    toks2 == (tokens_of(lower_of(gq)).len() == 2),
                    multi,
                    fallback@ == longest_tok(tokens_of(lower_of(gq))),
                    results_sound(out@, self.files@, gq),
                    out@.len() >= p1_len,
                    out@.len() >= p3_len,
                    p1_complete || p1_len >= vstd::math::min(limit as int, 20),
                    toks2 ==> (p0_done || out@.len() >= 10),
                    toks2 && p0_done ==> variant_claim(out@, self.files@, gq, scan0g),
                    p1_complete ==> exact_claim(out@, self.files@, gq, exact_bound),
                    p3_full ==> contains_claim(out@, self.files@, gq, contains_bound),
                    forall|k: int|
                        0 <= k < i4 && fallback_accepts(#[trigger] self.files@[k], gq)
                            ==> path_present(self.files@[k].path@, out@),
                decreases scan4 - i4,
            {
                let ghost body_out0 = out@;
                let f = &self.files[i4];
                let nl = crate::strutil::chars_of(f.name_lower.as_str());
                let path_lowered = crate::outside::to_lowercase(f.path.as_str());
                let pl = crate::strutil::chars_of(path_lowered.as_str());
                proof {
                    assert(self.files@[i4 as int].wf());
                }
                let mut accepted = false;
                if crate::strutil::contains_sub(&nl, &fallback) || crate::strutil::contains_sub(
                    &pl,
                    &fallback,
                ) {
                    accepted = true;
                    if !holds_path(&out, &f.path) {
                        proof {
                            assert(fzf_hit_ok(1500, *f, gq));
                        }
                        out.push((1500, f.clone_row()));
                    }
                }
                proof {
                    lemma_presence_extends(body_out0, out@);
                    assert(accepted == fallback_accepts(self.files@[i4 as int], gq));
                    assert forall|k: int|
                        0 <= k < i4 + 1 && fallback_accepts(#[trigger] self.files@[k], gq)
                        implies path_present(self.files@[k].path@, out@) by {
                        if k == i4 {
                            if out@.len() > body_out0.len() {
                                assert(out@[out@.len() - 1].1.path@ == self.files@[k].path@);
                            } else {
                                assert(path_present(self.files@[k].path@, body_out0));
                            }
                        } else {
                            assert(path_present(self.files@[k].path@, body_out0));
                        }
                    }
                }
                i4 += 1;
            }
            proof {
                fb_full = i4 >= scan4;
                fb_len = out@.len() as int;
                assert(fb_full || out@.len() >= limit);
            }
        }

        // phase 5: bounded fuzzy pass for short single-word queries
        if !multi && query.unicode_len() <= 10 && out.len() < limit {
            let scan5: usize = if self.files.len() < 10000 {
                self.files.len()
            } else {
                10000
            };
            let mut i5: usize = 0;
            while i5 < scan5 && out.len() < limit && out.len() < 10
                invariant
                    0 <= i5 <= scan5 <= self.files@.len(),
                    self.wf(),
                    gq.len() <= 10,
                    lowered@ == lower_of(gq),
                    multi == (tokens_of(lower_of(gq)).len() > 1),
                    toks2 == (tokens_of(lower_of(gq)).len() == 2),
                    !multi,
                    results_sound(out@, self.files@, gq),
                    out@.len() >= p1_len,
                    out@.len() >= p3_len,
                    out@.len() >= fb_len,
                    p1_complete || p1_len >= vstd::math::min(limit as int, 20),
                    p1_complete ==> exact_claim(out@, self.files@, gq, exact_bound),
                    p1_complete ==> exact_scored_claim(out@, self.files@, gq, exact_bound),
                    p3_full ==> contains_claim(out@, self.files@, gq, contains_bound),
                decreases scan5 - i5,
            {
                let ghost body_out0 = out@;
                let f = &self.files[i5];
                if !holds_path(&out, &f.path) {
                    match crate::outside::skim_fuzzy_match(
                        f.name_lower.as_str(),
                        lowered.as_str(),
                    ) {
                        Some(fs) => {
                            if fs > 20 {
                                let capped: i64 = if fs > 9999 {
                                    9999
                                } else {
                                    fs
                                };
                                proof {
                                    assert(fzf_hit_ok(capped as int, *f, gq));
                                }
                                out.push((capped, f.clone_row()));
                            }
                        },
                        None => {},
                    }
                }
                proof {
                    lemma_presence_extends(body_out0, out@);
                }
                i5 += 1;
            }
        }

        let ghost collected = out@;
        let ranked = crate::rank::rank_descending(out, limit);
        proof {
            broadcast use vstd::seq_lib::group_to_multiset_ensures;

            // the stable ranking of the sound collected list
            assert(results_sound(collected, self.files@, gq));
            assert(crate::rank::ranked_of(ranked@, collected, limit as int));

            // when the ranking kept everything, a claim over the collected
            // rows carries to the ranked rows
            if ranked@.len() < limit {
                assert(collected.len() == ranked@.len());
                assert(ranked@.to_multiset() == collected.to_multiset());
                lemma_present_through_rank(collected, ranked@);
            }
            // exact-phase completeness, with the exact tier pinned for
            // single-word queries
            if gq.len() > 0 && ranked@.len() < vstd::math::min(limit as int, 20) {
                assert(collected.len() < vstd::math::min(limit as int, 20));
                assert(p1_complete);
                assert(exact_claim(collected, self.files@, gq, exact_bound));
            }
            // variant-probe completeness for two-word queries
            if gq.len() > 0 && tokens_of(lower_of(gq)).len() == 2 && ranked@.len()
                < vstd::math::min(limit as int, 10) {
                assert(collected.len() < 10);
                assert(p0_done);
                assert(variant_claim(collected, self.files@, gq, scan0g));
            }
            // substring-phase completeness
            if gq.len() > 0 && ranked@.len() < contains_cap_of(limit as int, multi) {
                assert(collected.len() < contains_cap_of(limit as int, multi));
                assert(collected.len() >= p3_len);
                assert(p3_full);
                assert(contains_claim(collected, self.files@, gq, contains_bound));
            }
            // fallback completeness
            if gq.len() > 0 && multi && ranked@.len() < vstd::math::min(limit as int, 3) {
                assert(collected.len() < 3);
                assert(fb_pre_len < 3);
                assert(fb_cond);
                assert(collected.len() >= fb_len);
                assert(fb_full);
                assert(fallback_claim(collected, self.files@, gq, fallback_bound));
            }
            lemma_rank_keeps_distinct_paths(collected, ranked@);
            assert forall|j: int| 0 <= j < ranked@.len() implies from_files(
                (#[trigger] ranked@[j]).1,
                self.files@,
            ) by {
                assert(ranked@.contains(ranked@[j]));
                assert(ranked@.to_multiset().count(ranked@[j]) > 0);
                assert(collected.to_multiset().count(ranked@[j]) > 0);
                assert(collected.contains(ranked@[j]));
                let t = choose|t: int| 0 <= t < collected.len() && collected[t] == ranked@[j];
                assert(from_files(collected[t].1, self.files@));
            }
            assert forall|j: int| 0 <= j < ranked@.len() implies fzf_hit_ok(
                (#[trigger] ranked@[j]).0 as int,
                ranked@[j].1,
                gq,
            ) by {
                assert(ranked@.contains(ranked@[j]));
                assert(ranked@.to_multiset().count(ranked@[j]) > 0);
                assert(collected.to_multiset().count(ranked@[j]) > 0);
                assert(collected.contains(ranked@[j]));
                let t = choose|t: int| 0 <= t < collected.len() && collected[t] == ranked@[j];
                assert(fzf_hit_ok(collected[t].0 as int, collected[t].1, gq));
            }
        }
        ranked
    }
}

/// Every file in the prefix of the exact scan whose folded name equals
/// the folded query is present by path.
pub open spec fn exact_claim(
    out: Seq<(i64, FileIndex)>,
    files: Seq<FileIndex>,
    q: Seq<char>,
    bound: int,
) -> bool {
    forall|k: int|
        0 <= k < bound && (#[trigger] files[k]).name_lower@ == lower_of(q) ==> path_present(
            files[k].path@,
            out,
        )
}

/// The same, pinned at the exact tier.
pub open spec fn exact_scored_claim(
    out: Seq<(i64, FileIndex)>,
    files: Seq<FileIndex>,
    q: Seq<char>,
    bound: int,
) -> bool {
    forall|k: int|
        0 <= k < bound && (#[trigger] files[k]).name_lower@ == lower_of(q) ==> path_scored(
            files[k].path@,
            10000,
            out,
        )
}

/// Every variant-accepted file within the probe budget is present.
pub open spec fn variant_claim(
    out: Seq<(i64, FileIndex)>,
    files: Seq<FileIndex>,
    q: Seq<char>,
    bound: int,
) -> bool {
    forall|k: int|
        0 <= k < bound && variant_accepts(#[trigger] files[k], q) ==> path_present(
            files[k].path@,
            out,
        )
}

/// Every substring-accepted file within the scan budget is present.
pub open spec fn contains_claim(
    out: Seq<(i64, FileIndex)>,
    files: Seq<FileIndex>,
    q: Seq<char>,
    bound: int,
) -> bool {
    forall|k: int|
        0 <= k < bound && contains_accepts(#[trigger] files[k], q) ==> path_present(
            files[k].path@,
            out,
        )
}

/// Every fallback-accepted file within the scan budget is present.
pub open spec fn fallback_claim(
    out: Seq<(i64, FileIndex)>,
    files: Seq<FileIndex>,
    q: Seq<char>,
    bound: int,
) -> bool {
    forall|k: int|
        0 <= k < bound && fallback_accepts(#[trigger] files[k], q) ==> path_present(
            files[k].path@,
            out,
        )
}

/// Whatever is present (or present at a score) in a prefix stays present
/// in any extension.
proof fn lemma_presence_extends(a: Seq<(i64, FileIndex)>, b: Seq<(i64, FileIndex)>)
    requires
        a.len() <= b.len(),
        forall|t: int| 0 <= t < a.len() ==> a[t] == b[t],
    ensures
        forall|p: Seq<char>| #[trigger] path_present(p, a) ==> path_present(p, b),
        forall|p: Seq<char>, s: int| #[trigger] path_scored(p, s, a) ==> path_scored(p, s, b),
{
    assert forall|p: Seq<char>| #[trigger] path_present(p, a) implies path_present(p, b) by {
        let t = choose|t: int| 0 <= t < a.len() && (#[trigger] a[t]).1.path@ == p;
        assert(b[t].1.path@ == p);
    }
    assert forall|p: Seq<char>, s: int| #[trigger] path_scored(p, s, a) implies path_scored(
        p,
        s,
        b,
    ) by {
        let t = choose|t: int|
            0 <= t < a.len() && (#[trigger] a[t]).1.path@ == p && a[t].0 as int == s;
        assert(b[t].1.path@ == p);
    }
}

/// Everything collected so far is a genuine, deduplicated hit.
pub open spec fn results_sound(r: Seq<(i64, FileIndex)>, files: Seq<FileIndex>, q: Seq<char>) -> bool {
    &&& (forall|j: int| 0 <= j < r.len() ==> from_files((#[trigger] r[j]).1, files))
    &&& (forall|j: int| 0 <= j < r.len() ==> fzf_hit_ok((#[trigger] r[j]).0 as int, r[j].1, q))
    &&& (forall|i: int, j: int|
        0 <= i < j < r.len() ==> (#[trigger] r[i]).1.path@ != (#[trigger] r[j]).1.path@)
}

/// Counts tokens found in the name, path or camel words.
fn count_found_exec(
    toks: &Vec<Vec<char>>,
    nl: &Vec<char>,
    pl: &Vec<char>,
    cam: &Vec<Vec<char>>,
) -> (n: usize)
    ensures
        n as int == count_found(toks.deep_view(), toks.deep_view().len() as int, nl@, pl@, cam.deep_view()),
{
    let mut n: usize = 0;
    let mut i: usize = 0;
    while i < toks.len()
        invariant
            0 <= i <= toks@.len(),
            toks.deep_view().len() == toks@.len(),
            n <= i,
            n as int == count_found(toks.deep_view(), i as int, nl@, pl@, cam.deep_view()),
        decreases toks@.len() - i,
    {
        proof {
            crate::strutil::vec_deep_view_is_view(toks@[i as int]);
        }
        let t = &toks[i];
        let hit = crate::strutil::contains_sub(nl, t) || crate::strutil::contains_sub(pl, t)
            || cam_hit_exec(cam, t);
        if hit {
            n += 1;
        }
        i += 1;
    }
    n
}

/// Counts tokens occurring in one haystack.
fn count_in_exec(toks: &Vec<Vec<char>>, hay: &Vec<char>) -> (n: usize)
    ensures
        n as int == count_in(toks.deep_view(), toks.deep_view().len() as int, hay@),
{
    let mut n: usize = 0;
    let mut i: usize = 0;
    while i < toks.len()
        invariant
            0 <= i <= toks@.len(),
            toks.deep_view().len() == toks@.len(),
            n <= i,
            n as int == count_in(toks.deep_view(), i as int, hay@),
        decreases toks@.len() - i,
    {
        proof {
            crate::strutil::vec_deep_view_is_view(toks@[i as int]);
        }
        if crate::strutil::contains_sub(hay, &toks[i]) {
            n += 1;
        }
        i += 1;
    }
    n
}

/// Whether some camel word starts with the token.
fn cam_hit_exec(cam: &Vec<Vec<char>>, t: &Vec<char>) -> (b: bool)
    ensures
        b == cam_hit(cam.deep_view(), t@),
{
    let mut k: usize = 0;
    while k < cam.len()
        invariant
            0 <= k <= cam@.len(),
            cam.deep_view().len() == cam@.len(),
            forall|u: int| 0 <= u < k ==> !starts_with_seq(#[trigger] cam.deep_view()[u], t@),
        decreases cam@.len() - k,
    {
        proof {
            crate::strutil::vec_deep_view_is_view(cam@[k as int]);
        }
        if crate::strutil::starts_with(&cam[k], t) {
            proof {
                assert(starts_with_seq(cam.deep_view()[k as int], t@));
            }
            return true;
        }
        k += 1;
    }
    false
}

/// The longest token, earliest among equals.
pub fn longest_tok_exec(toks: &Vec<Vec<char>>) -> (r: Vec<char>)
    ensures
        r@ == longest_tok(toks.deep_view()),
{
    let mut best: Vec<char> = Vec::new();
    proof {
        assert(toks.deep_view().subrange(
            toks.deep_view().len() as int,
            toks.deep_view().len() as int,
        ) =~= Seq::<Seq<char>>::empty());
    }
    // scan from the back so that the earliest longest token wins
    let mut i: usize = toks.len();
    while i > 0
        invariant
            0 <= i <= toks@.len(),
            toks.deep_view().len() == toks@.len(),
            best@ == longest_tok(
                toks.deep_view().subrange(i as int, toks.deep_view().len() as int),
            ),
        decreases i,
    {
        proof {
            crate::strutil::vec_deep_view_is_view(toks@[i - 1]);
        }
        let t = &toks[i - 1];
        if t.len() >= best.len() {
            best = crate::pattern::copy_range(t, 0, t.len());
            proof {
                assert(best@ =~= toks.deep_view()[i - 1]);
            }
        }
        proof {
            let dv = toks.deep_view();
            let tail = dv.subrange(i - 1, dv.len() as int);
            assert(tail.drop_first() =~= dv.subrange(i as int, dv.len() as int));
            if tail.len() == 1 {
                assert(longest_tok(tail) == tail[0]);
                assert(tail[0] == dv[i - 1]);
            } else {
                assert(longest_tok(tail) == (if longest_tok(tail.drop_first()).len()
                    > tail[0].len() {
                    longest_tok(tail.drop_first())
                } else {
                    tail[0]
                }));
            }
        }
        i -= 1;
    }
    proof {
        if toks.deep_view().len() == 0 {
            assert(longest_tok(toks.deep_view()) =~= Seq::<char>::empty());
            assert(best@ =~= longest_tok(toks.deep_view()));
        } else {
            assert(toks.deep_view().subrange(0, toks.deep_view().len() as int)
                =~= toks.deep_view());
        }
    }
    best
}

} // verus!
