//! The tiered matching and scoring engine for literal queries: exact,
//! normalized, ordered-token, path-component and fuzzy tiers, with
//! library-directory deprioritization and recency/favorite boosts.
use vstd::prelude::*;

use crate::libdirs::is_library_path;
use crate::outside::{is_alnum, lower_of, skim_score};
use crate::strutil::{contains_seq, matches_at, starts_with_seq, tokens_of, trim_of};

verus! {

/// No non-exact tier may reach the exact tier: every other tier saturates
/// just below it, which keeps exact matches ranked first.
pub open spec fn cap_below_exact(x: int) -> int {
    if x > 9999 {
        9999
    } else {
        x
    }
}

/// `s` with every non-alphanumeric character removed, from `i` on.
pub open spec fn norm_from(s: Seq<char>, i: int) -> Seq<char>
    decreases s.len() - i when 0 <= i <= s.len()
{
    if i >= s.len() {
        Seq::empty()
    } else {
        (if is_alnum(s[i]) {
            seq![s[i]]
        } else {
            Seq::empty()
        }) + norm_from(s, i + 1)
    }
}

/// The normalized form of an already lowercased string: only its
/// alphanumeric characters.
pub open spec fn normalize_spec(s: Seq<char>) -> Seq<char> {
    norm_from(s, 0)
}

/// Strips every non-alphanumeric character from an already lowercased
/// character vector, so that `find uname` can meet `find-uname`.
pub fn normalize_chars(s: &Vec<char>) -> (r: Vec<char>)
    ensures
        r@ == normalize_spec(s@),
{
    let mut r: Vec<char> = Vec::new();
    let mut i: usize = 0;
    proof {
        assert(r@ + norm_from(s@, 0) =~= normalize_spec(s@));
    }
    while i < s.len()
        invariant
            0 <= i <= s@.len(),
            r@ + norm_from(s@, i as int) == normalize_spec(s@),
        decreases s@.len() - i,
    {
        let c = s[i];
        let ghost before = r@;
        if c.is_alphanumeric() {
            r.push(c);
            proof {
                assert(before + (seq![s@[i as int]] + norm_from(s@, i + 1)) =~= r@ + norm_from(
                    s@,
                    i + 1,
                ));
            }
        } else {
            proof {
                assert(before + (Seq::<char>::empty() + norm_from(s@, i + 1)) =~= r@
                    + norm_from(s@, i + 1));
            }
        }
        i += 1;
    }
    proof {
        assert(r@ + norm_from(s@, s@.len() as int) =~= r@);
    }
    r
}

/// Path separators.
pub open spec fn is_sep(c: char) -> bool {
    c == '/' || c == '\\'
}

fn is_sep_char(c: char) -> (b: bool)
    ensures
        b == is_sep(c),
{
    c == '/' || c == '\\'
}

/// A possibly part-built path segment.
pub open spec fn seg_close(cur: Seq<char>) -> Seq<Seq<char>> {
    if cur.len() > 0 {
        seq![cur]
    } else {
        Seq::empty()
    }
}

/// The nonempty separator-split segments of `s` from `i` on, with `cur`
/// the segment being built.
pub open spec fn segs_acc(s: Seq<char>, i: int, cur: Seq<char>) -> Seq<Seq<char>>
    decreases s.len() - i when 0 <= i <= s.len()
{
    if i >= s.len() {
        seg_close(cur)
    } else if is_sep(s[i]) {
        seg_close(cur) + segs_acc(s, i + 1, Seq::empty())
    } else {
        segs_acc(s, i + 1, cur.push(s[i]))
    }
}

/// The nonempty path components of `s`.
pub open spec fn segs_of(s: Seq<char>) -> Seq<Seq<char>> {
    segs_acc(s, 0, Seq::empty())
}

/// The first `n` segments joined with `/`.
pub open spec fn join_prefix(segs: Seq<Seq<char>>, n: int) -> Seq<char>
    decreases n,
{
    if n <= 0 {
        Seq::empty()
    } else if n == 1 {
        segs[0]
    } else {
        join_prefix(segs, n - 1) + seq!['/'] + segs[n - 1]
    }
}

/// The path's nonempty components joined with `/`: the folder string the
/// path-component tier matches against.
pub open spec fn components_joined(path_l: Seq<char>) -> Seq<char> {
    join_prefix(segs_of(path_l), segs_of(path_l).len() as int)
}

/// Splits on path separators, dropping empty segments.
pub fn split_segments(s: &Vec<char>) -> (r: Vec<Vec<char>>)
    ensures
        r.deep_view() == segs_of(s@),
{
    let mut r: Vec<Vec<char>> = Vec::new();
    let mut cur: Vec<char> = Vec::new();
    let mut i: usize = 0;
    proof {
        assert(r.deep_view() + segs_acc(s@, 0, cur@) =~= segs_of(s@));
    }
    while i < s.len()
        invariant
            0 <= i <= s@.len(),
            r.deep_view() + segs_acc(s@, i as int, cur@) == segs_of(s@),
        decreases s@.len() - i,
    {
        let c = s[i];
        if is_sep_char(c) {
            if cur.len() > 0 {
                let ghost old_rv = r@;
                let ghost old_r = r.deep_view();
                let ghost old_cur = cur@;
                r.push(cur);
                cur = Vec::new();
                proof {
                    crate::strutil::lemma_deep_view_push(old_rv, old_r, r@, r.deep_view(), old_cur);
                    assert(cur@ =~= Seq::<char>::empty());
                    assert(old_r + (seg_close(old_cur) + segs_acc(s@, i + 1, cur@)) =~= r.deep_view()
                        + segs_acc(s@, i + 1, cur@));
                }
            } else {
                proof {
                    assert(cur@ =~= Seq::<char>::empty());
                    assert(r.deep_view() + (seg_close(cur@) + segs_acc(s@, i + 1, cur@))
                        =~= r.deep_view() + segs_acc(s@, i + 1, cur@));
                }
            }
        } else {
            cur.push(c);
        }
        i += 1;
    }
    if cur.len() > 0 {
        let ghost old_rv = r@;
        let ghost old_r = r.deep_view();
        let ghost old_cur = cur@;
        r.push(cur);
        proof {
            crate::strutil::lemma_deep_view_push(old_rv, old_r, r@, r.deep_view(), old_cur);
            assert(r.deep_view() =~= old_r + seg_close(old_cur));
            assert(r.deep_view() =~= segs_of(s@));
        }
    } else {
        proof {
            assert(r.deep_view() + seg_close(cur@) =~= r.deep_view());
        }
    }
    r
}

/// Joins segments with `/`.
pub fn join_segments(segs: &Vec<Vec<char>>) -> (r: Vec<char>)
    ensures
        r@ == join_prefix(segs.deep_view(), segs.deep_view().len() as int),
{
    let mut r: Vec<char> = Vec::new();
    let mut i: usize = 0;
    while i < segs.len()
        invariant
            0 <= i <= segs@.len(),
            segs.deep_view().len() == segs@.len(),
            r@ == join_prefix(segs.deep_view(), i as int),
        decreases segs@.len() - i,
    {
        let ghost before = r@;
        if i > 0 {
            r.push('/');
        }
        crate::pattern::append_all(&mut r, &segs[i]);
        proof {
            crate::strutil::vec_deep_view_is_view(segs@[i as int]);
            if i == 0 {
                assert(r@ =~= join_prefix(segs.deep_view(), 1));
            } else {
                assert(r@ =~= join_prefix(segs.deep_view(), i + 1));
            }
        }
        i += 1;
    }
    r
}

/// The least position at or after `pos` where `n` matches in `h`, or -1.
pub open spec fn first_match_from(h: Seq<char>, n: Seq<char>, pos: int) -> int
    decreases h.len() - pos when 0 <= pos <= h.len()
{
    if matches_at(h, n, pos) {
        pos
    } else if pos >= h.len() {
        -1
    } else {
        first_match_from(h, n, pos + 1)
    }
}

pub proof fn lemma_first_match_from(h: Seq<char>, n: Seq<char>, pos: int)
    requires
        0 <= pos <= h.len(),
    ensures
        first_match_from(h, n, pos) == -1 ==> forall|k: int| pos <= k ==> !matches_at(h, n, k),
        first_match_from(h, n, pos) != -1 ==> pos <= first_match_from(h, n, pos) && matches_at(
            h,
            n,
            first_match_from(h, n, pos),
        ) && (forall|k: int| pos <= k < first_match_from(h, n, pos) ==> !matches_at(h, n, k)),
    decreases h.len() - pos,
{
    if !matches_at(h, n, pos) && pos < h.len() {
        lemma_first_match_from(h, n, pos + 1);
    }
}

/// The positional bonus one found token earns: higher when nearer the
/// start.
pub open spec fn bonus_term(f: int) -> int {
    if f >= 1000 {
        0
    } else {
        1000 - f
    }
}

/// The ordered-token walk: every token from `ti` on must occur, in order,
/// each search starting where the previous match ended; `acc` carries the
/// saturating positional bonus collected so far.
pub open spec fn ordered_bonus(h: Seq<char>, toks: Seq<Seq<char>>, ti: int, pos: int, acc: int) -> Option<int>
    decreases toks.len() - ti when 0 <= ti <= toks.len()
{
    if ti >= toks.len() {
        Some(acc)
    } else {
        let f = first_match_from(h, toks[ti], pos);
        if f < 0 {
            None
        } else {
            ordered_bonus(h, toks, ti + 1, f + toks[ti].len(), cap_below_exact(acc + bonus_term(f)))
        }
    }
}

pub proof fn lemma_ordered_bonus_bounds(
    h: Seq<char>,
    toks: Seq<Seq<char>>,
    ti: int,
    pos: int,
    acc: int,
)
    requires
        0 <= ti <= toks.len(),
        0 <= acc <= 9999,
    ensures
        ordered_bonus(h, toks, ti, pos, acc) is Some ==> 0 <= ordered_bonus(h, toks, ti, pos, acc)->0
            <= 9999,
    decreases toks.len() - ti,
{
    if ti < toks.len() {
        let f = first_match_from(h, toks[ti], pos);
        if f >= 0 {
            lemma_ordered_bonus_bounds(
                h,
                toks,
                ti + 1,
                f + toks[ti].len(),
                cap_below_exact(acc + bonus_term(f)),
            );
        }
    }
}

/// Walks the tokens through `h` in order, collecting the positional bonus.
pub fn in_order_in(h: &Vec<char>, toks: &Vec<Vec<char>>) -> (r: Option<i64>)
    ensures
        match r {
            Some(b) => ordered_bonus(h@, toks.deep_view(), 0, 0, 0) == Some(b as int) && 0 <= b
                <= 9999,
            None => ordered_bonus(h@, toks.deep_view(), 0, 0, 0) is None,
        },
{
    let ghost tdv = toks.deep_view();
    let hl = h.len();
    let mut ti: usize = 0;
    let mut pos: usize = 0;
    let mut acc: i64 = 0;
    proof {
        assert(tdv.len() == toks@.len());
    }
    while ti < toks.len()
        invariant
            0 <= ti <= toks@.len(),
            tdv == toks.deep_view(),
            tdv.len() == toks@.len(),
            hl == h@.len(),
            0 <= pos <= h@.len(),
            0 <= acc <= 9999,
            ordered_bonus(h@, tdv, ti as int, pos as int, acc as int) == ordered_bonus(
                h@,
                tdv,
                0,
                0,
                0,
            ),
        decreases toks@.len() - ti,
    {
        let tok = &toks[ti];
        proof {
            crate::strutil::vec_deep_view_is_view(toks@[ti as int]);
            lemma_first_match_from(h@, tok@, pos as int);
        }
        match crate::strutil::find_sub_from(h, tok, pos) {
            Some(f) => {
                proof {
                    let sf = first_match_from(h@, tok@, pos as int);
                    if sf == -1 {
                        assert(!matches_at(h@, tok@, f as int));
                    } else {
                        if sf < f {
                            assert(!matches_at(h@, tok@, sf));
                        }
                        if sf > f {
                            assert(!matches_at(h@, tok@, f as int));
                        }
                    }
                    assert(sf == f as int);
                }
                let term: i64 = if f >= 1000 {
                    0
                } else {
                    1000 - (f as i64)
                };
                let sum = acc + term;
                acc = if sum > 9999 {
                    9999
                } else {
                    sum
                };
                proof {
                    assert(f + tok@.len() <= h@.len());
                }
                pos = f + tok.len();
                ti += 1;
            },
            None => {
                proof {
                    assert(first_match_from(h@, tok@, pos as int) == -1);
                }
                return None;
            },
        }
    }
    Some(acc)
}

/// Whether the query carries a literal extension marker: a `.` anywhere.
pub open spec fn query_has_extension(q: Seq<char>) -> bool {
    contains_seq(q, seq!['.'])
}

/// The best filename-tier score of a candidate, before adjustments.
/// `q` is the trimmed raw query; everything else derives from it.
pub open spec fn filename_tier(
    name_l: Seq<char>,
    name_norm: Seq<char>,
    q: Seq<char>,
    q_l: Seq<char>,
    q_norm: Seq<char>,
    toks: Seq<Seq<char>>,
    opts: crate::SearchOptions,
) -> Option<int> {
    if name_l == q_l {
        Some(10000)
    } else if query_has_extension(q) {
        // with an extension marker, only a literal substring of the whole
        // query counts; strict mode keeps the prefix case alone
        if contains_seq(name_l, q_l) {
            if starts_with_seq(name_l, q_l) {
                Some(4500)
            } else if opts.strict_mode {
                None
            } else if contains_seq(name_l, seq!['/'] + q_l) || contains_seq(name_l, seq!['\\'] + q_l)
                || contains_seq(name_l, seq!['-'] + q_l) || contains_seq(name_l, seq!['_'] + q_l) {
                Some(3800)
            } else {
                Some(3000)
            }
        } else {
            None
        }
    } else {
        let norm_score: Option<int> = if !opts.strict_mode && q_norm.len() > 0 && contains_seq(
            name_norm,
            q_norm,
        ) {
            Some(
                2900 + if starts_with_seq(name_norm, q_norm) {
                    500int
                } else {
                    0int
                },
            )
        } else {
            None
        };
        let tok_score: Option<int> = match ordered_bonus(name_l, toks, 0, 0, 0) {
            Some(b) => {
                let contig: int = if contains_seq(name_l, q) {
                    1200
                } else {
                    0
                };
                if opts.strict_mode {
                    if starts_with_seq(name_l, q_l) {
                        Some(cap_below_exact(3000 + b + contig))
                    } else {
                        None
                    }
                } else {
                    Some(cap_below_exact(3000 + b + contig))
                }
            },
            None => None,
        };
        match (norm_score, tok_score) {
            (Some(a), Some(b)) => Some(
                if b > a {
                    b
                } else {
                    a
                },
            ),
            (Some(a), None) => Some(a),
            (None, Some(b)) => Some(b),
            (None, None) => None,
        }
    }
}

/// The folder-components tier score, before adjustments.
pub open spec fn path_tier(joined: Seq<char>, q_l: Seq<char>, toks: Seq<Seq<char>>) -> Option<
    int,
> {
    match ordered_bonus(joined, toks, 0, 0, 0) {
        Some(b) => Some(
            cap_below_exact(
                2000 + b + if contains_seq(joined, q_l) {
                    800int
                } else {
                    0int
                },
            ),
        ),
        None => None,
    }
}

/// The weak fuzzy fallback against the filename, gated by its threshold.
pub open spec fn fuzzy_name_tier(name: Seq<char>, q: Seq<char>) -> Option<int> {
    match skim_score(name, q) {
        Some(fs) => if fs >= 60 {
            Some(cap_below_exact(fs + 500))
        } else {
            None
        },
        None => None,
    }
}

/// The last-resort fuzzy match against the full path, higher bar and
/// halved weight.
pub open spec fn fuzzy_path_tier(path: Seq<char>, q: Seq<char>) -> Option<int> {
    match skim_score(path, q) {
        Some(ps) => if ps >= 80 {
            Some(cap_below_exact(ps / 2))
        } else {
            None
        },
        None => None,
    }
}

/// The cross-cutting adjustments, in order: library deprioritization
/// (exact matches exempt), then the recency and favorite boosts.
pub open spec fn adjusted(score: int, is_exact: bool, in_lib: bool, is_recent: bool, is_fav: bool) -> int {
    let s1: int = if in_lib && !is_exact {
        score / 4
    } else {
        score
    };
    let s2: int = if is_recent {
        2 * s1
    } else {
        s1
    };
    if is_fav {
        3 * s2
    } else {
        s2
    }
}

/// The complete score of one candidate under a literal query, or `None`
/// when no tier accepts it. `q` is the trimmed raw query.
pub open spec fn literal_score(
    name: Seq<char>,
    path: Seq<char>,
    q: Seq<char>,
    opts: crate::SearchOptions,
    is_recent: bool,
    is_fav: bool,
) -> Option<int> {
    let name_l = lower_of(name);
    let path_l = lower_of(path);
    let q_l = lower_of(q);
    let toks = tokens_of(q_l);
    let q_norm = normalize_spec(q_l);
    let name_norm = normalize_spec(name_l);
    let in_lib = is_library_path(path);
    match filename_tier(name_l, name_norm, q, q_l, q_norm, toks, opts) {
        Some(s) => Some(adjusted(s, name_l == q_l, in_lib, is_recent, is_fav)),
        None => {
            // strict mode restricts acceptance to the exact and prefix
            // tiers, so the folder tier stays out of it too
            let folder: Option<int> = if opts.search_folders && !opts.filename_only
                && !opts.strict_mode {
                path_tier(components_joined(path_l), q_l, toks)
            } else {
                None
            };
            match folder {
                Some(s) => Some(adjusted(s, false, in_lib, is_recent, is_fav)),
                None => {
                    if opts.enable_fuzzy && !opts.strict_mode && !query_has_extension(q) {
                        match fuzzy_name_tier(name, q) {
                            Some(s) => Some(adjusted(s, false, in_lib, is_recent, is_fav)),
                            None => {
                                if !opts.filename_only {
                                    match fuzzy_path_tier(path, q) {
                                        Some(s) => Some(
                                            adjusted(s, false, in_lib, is_recent, is_fav),
                                        ),
                                        None => None,
                                    }
                                } else {
                                    None
                                }
                            },
                        }
                    } else {
                        None
                    }
                },
            }
        },
    }
}

/// Everything the scorer derives from the query once, shared by all
/// candidates.
pub struct QueryCtx {
    /// the trimmed raw query
    pub q: String,
    /// its characters
    pub qv: Vec<char>,
    /// lowercased characters
    pub ql: Vec<char>,
    /// lowercased whitespace tokens
    pub toks: Vec<Vec<char>>,
    /// lowercased alphanumeric-only form
    pub qnorm: Vec<char>,
    /// whether the query carries a `.`
    pub has_ext: bool,
}

impl QueryCtx {
    /// All derived fields agree with the trimmed query `self.q`.
    pub open spec fn wf(&self) -> bool {
        &&& self.qv@ == self.q@
        &&& self.ql@ == lower_of(self.q@)
        &&& self.toks.deep_view() == tokens_of(lower_of(self.q@))
        &&& self.qnorm@ == normalize_spec(lower_of(self.q@))
        &&& self.has_ext == query_has_extension(self.q@)
    }

    /// Derives the per-query matching data from the raw query.
    pub fn new(query: &str) -> (r: QueryCtx)
        ensures
            r.wf(),
            r.q@ == trim_of(query@),
    {
        let raw = crate::strutil::chars_of(query);
        let qv = crate::strutil::trim_chars(&raw);
        let q = crate::strutil::string_of(&qv);
        let ql_string = crate::outside::to_lowercase(q.as_str());
        let ql = crate::strutil::chars_of(ql_string.as_str());
        let toks = crate::strutil::tokenize(&ql);
        let qnorm = normalize_chars(&ql);
        let mut dot: Vec<char> = Vec::new();
        dot.push('.');
        proof {
            assert(dot@ =~= seq!['.']);
        }
        let has_ext = crate::strutil::contains_sub(&qv, &dot);
        QueryCtx { q, qv, ql, toks, qnorm, has_ext }
    }
}

/// Applies the adjustment pipeline to a tier score.
fn apply_adjust(score: i64, is_exact: bool, in_lib: bool, is_recent: bool, is_fav: bool) -> (r:
    i64)
    requires
        0 <= score <= 10000,
    ensures
        r as int == adjusted(score as int, is_exact, in_lib, is_recent, is_fav),
        0 <= r <= 60000,
{
    let mut s = score;
    if in_lib && !is_exact {
        s = s / 4;
    }
    if is_recent {
        s = s * 2;
    }
    if is_fav {
        s = s * 3;
    }
    s
}

/// Scores one candidate under a literal query: `Some(score)` when a tier
/// accepts it, `None` when no tier does.
pub fn score_candidate(
    path: &String,
    name: &String,
    ctx: &QueryCtx,
    options: &crate::SearchOptions,
    is_recent: bool,
    is_fav: bool,
) -> (r: Option<i64>)
    requires
        ctx.wf(),
    ensures
        match r {
            Some(s) => literal_score(name@, path@, ctx.q@, *options, is_recent, is_fav) == Some(
                s as int,
            ) && 0 <= s <= 60000,
            None => literal_score(name@, path@, ctx.q@, *options, is_recent, is_fav) is None,
        },
{
    let name_l_string = crate::outside::to_lowercase(name.as_str());
    let name_l = crate::strutil::chars_of(name_l_string.as_str());
    let in_lib = crate::libdirs::is_library_file(path.as_str());
    let ghost gname_l = lower_of(name@);
    let ghost gq_l = lower_of(ctx.q@);
    let is_exact = crate::strutil::eq_chars(&name_l, &ctx.ql);

    // filename tier
    let mut tier: Option<i64> = None;
    if is_exact {
        tier = Some(10000);
    } else if ctx.has_ext {
        if crate::strutil::contains_sub(&name_l, &ctx.ql) {
            if crate::strutil::starts_with(&name_l, &ctx.ql) {
                tier = Some(4500);
            } else if options.strict_mode {
                tier = None;
            } else if boundary_match(&name_l, &ctx.ql) {
                tier = Some(3800);
            } else {
                tier = Some(3000);
            }
        }
    } else {
        let mut best: Option<i64> = None;
        if !options.strict_mode && ctx.qnorm.len() > 0 {
            let name_norm = normalize_chars(&name_l);
            if crate::strutil::contains_sub(&name_norm, &ctx.qnorm) {
                if crate::strutil::starts_with(&name_norm, &ctx.qnorm) {
                    best = Some(3400);
                } else {
                    best = Some(2900);
                }
            }
        }
        match in_order_in(&name_l, &ctx.toks) {
            Some(b) => {
                let allowed = if options.strict_mode {
                    crate::strutil::starts_with(&name_l, &ctx.ql)
                } else {
                    true
                };
                if allowed {
                    let contig: i64 = if crate::strutil::contains_sub(&name_l, &ctx.qv) {
                        1200
                    } else {
                        0
                    };
                    let raw = 3000 + b + contig;
                    let ts: i64 = if raw > 9999 {
                        9999
                    } else {
                        raw
                    };
                    best = match best {
                        Some(a) => Some(
                            if ts > a {
                                ts
                            } else {
                                a
                            },
                        ),
                        None => Some(ts),
                    };
                }
            },
            None => {},
        }
        tier = best;
    }
    proof {
        match tier {
            Some(s) => {
                assert(filename_tier(
                    gname_l,
                    normalize_spec(gname_l),
                    ctx.q@,
                    gq_l,
                    normalize_spec(gq_l),
                    tokens_of(gq_l),
                    *options,
                ) == Some(s as int));
            },
            None => {
                assert(filename_tier(
                    gname_l,
                    normalize_spec(gname_l),
                    ctx.q@,
                    gq_l,
                    normalize_spec(gq_l),
                    tokens_of(gq_l),
                    *options,
                ) is None);
            },
        }
    }
    if let Some(s) = tier {
        proof {
            if !is_exact {
                assert(s <= 9999);
            }
        }
        return Some(apply_adjust(s, is_exact, in_lib, is_recent, is_fav));
    }

    // folder-components tier
    if options.search_folders && !options.filename_only && !options.strict_mode {
        let path_l_string = crate::outside::to_lowercase(path.as_str());
        let path_l = crate::strutil::chars_of(path_l_string.as_str());
        let segs = split_segments(&path_l);
        let joined = join_segments(&segs);
        match in_order_in(&joined, &ctx.toks) {
            Some(b) => {
                let contig: i64 = if crate::strutil::contains_sub(&joined, &ctx.ql) {
                    800
                } else {
                    0
                };
                let raw = 2000 + b + contig;
                let ts: i64 = if raw > 9999 {
                    9999
                } else {
                    raw
                };
                proof {
                    assert(path_tier(components_joined(lower_of(path@)), gq_l, tokens_of(gq_l))
                        == Some(ts as int));
                }
                return Some(apply_adjust(ts, false, in_lib, is_recent, is_fav));
            },
            None => {},
        }
    }

    // weak fuzzy fallback
    if options.enable_fuzzy && !options.strict_mode && !ctx.has_ext {
        match crate::outside::skim_fuzzy_match(name.as_str(), ctx.q.as_str()) {
            Some(fs) => {
                if fs >= 60 {
                    let raw = if fs > 9499 {
                        9999
                    } else {
                        fs + 500
                    };
                    proof {
                        assert(fuzzy_name_tier(name@, ctx.q@) == Some(raw as int));
                    }
                    return Some(apply_adjust(raw, false, in_lib, is_recent, is_fav));
                }
            },
            None => {},
        }
        if !options.filename_only {
            match crate::outside::skim_fuzzy_match(path.as_str(), ctx.q.as_str()) {
                Some(ps) => {
                    if ps >= 80 {
                        let half = ps / 2;
                        let raw = if half > 9999 {
                            9999
                        } else {
                            half
                        };
                        proof {
                            assert(fuzzy_path_tier(path@, ctx.q@) == Some(raw as int));
                        }
                        return Some(apply_adjust(raw, false, in_lib, is_recent, is_fav));
                    }
                },
                None => {},
            }
        }
    }
    None
}

/// Membership of a path in a set of paths (the recent or favorite set).
pub open spec fn in_str_set(v: Seq<String>, s: Seq<char>) -> bool {
    exists|k: int| 0 <= k < v.len() && v[k]@ == s
}

/// Checks membership of `s` among the strings of `v`.
pub fn contains_string(v: &Vec<String>, s: &String) -> (b: bool)
    ensures
        b == in_str_set(v@, s@),
{
    let mut i: usize = 0;
    while i < v.len()
        invariant
            0 <= i <= v@.len(),
            forall|k: int| 0 <= k < i ==> v@[k]@ != s@,
        decreases v@.len() - i,
    {
        if s.eq(&v[i]) {
            return true;
        }
        i += 1;
    }
    false
}

/// `s` with every space removed, from `i` on.
pub open spec fn nospace_from(s: Seq<char>, i: int) -> Seq<char>
    decreases s.len() - i when 0 <= i <= s.len()
{
    if i >= s.len() {
        Seq::empty()
    } else {
        (if s[i] == ' ' {
            Seq::empty()
        } else {
            seq![s[i]]
        }) + nospace_from(s, i + 1)
    }
}

/// Removes every space.
fn strip_spaces(s: &Vec<char>) -> (r: Vec<char>)
    ensures
        r@ == nospace_from(s@, 0),
{
    let mut r: Vec<char> = Vec::new();
    let mut i: usize = 0;
    proof {
        assert(r@ + nospace_from(s@, 0) =~= nospace_from(s@, 0));
    }
    while i < s.len()
        invariant
            0 <= i <= s@.len(),
            r@ + nospace_from(s@, i as int) == nospace_from(s@, 0),
        decreases s@.len() - i,
    {
        let c = s[i];
        let ghost before = r@;
        if c != ' ' {
            r.push(c);
            proof {
                assert(before + (seq![s@[i as int]] + nospace_from(s@, i + 1)) =~= r@
                    + nospace_from(s@, i + 1));
            }
        } else {
            proof {
                assert(before + (Seq::<char>::empty() + nospace_from(s@, i + 1)) =~= r@
                    + nospace_from(s@, i + 1));
            }
        }
        i += 1;
    }
    proof {
        assert(r@ + nospace_from(s@, s@.len() as int) =~= r@);
    }
    r
}

/// How many candidates the fuzzy pass may examine: more when the query
/// looks like it needs normalization.
pub open spec fn fuzzy_scan_limit(q: Seq<char>) -> int {
    if normalize_spec(lower_of(q)) != nospace_from(lower_of(q), 0) {
        1000
    } else {
        300
    }
}

/// The scored results over the first `n` candidates, in scan order:
/// each pair holds the adjusted score and the candidate's index.
pub open spec fn scored_prefix(
    files: Seq<(String, String)>,
    n: int,
    q: Seq<char>,
    opts: crate::SearchOptions,
    recent: Seq<String>,
    favs: Seq<String>,
) -> Seq<(int, int)>
    decreases n,
{
    if n <= 0 {
        Seq::empty()
    } else {
        let prev = scored_prefix(files, n - 1, q, opts, recent, favs);
        let p = files[n - 1].0;
        let nm = files[n - 1].1;
        match literal_score(nm@, p@, q, opts, in_str_set(recent, p@), in_str_set(favs, p@)) {
            Some(s) => prev.push((s, n - 1)),
            None => prev,
        }
    }
}

/// The result list agrees with the scored prefix: same scores, entries
/// holding the corresponding path and name, bare ranking signals.
pub open spec fn results_match_prefix(
    r: Seq<(i64, crate::FileEntry)>,
    files: Seq<(String, String)>,
    sp: Seq<(int, int)>,
) -> bool {
    &&& r.len() == sp.len()
    &&& forall|j: int| 0 <= j < sp.len() ==> {
        &&& (#[trigger] r[j]).0 as int == sp[j].0
        &&& 0 <= sp[j].1 < files.len()
        &&& r[j].1.path@ == files[sp[j].1].0@
        &&& r[j].1.name@ == files[sp[j].1].1@
        &&& r[j].1.last_accessed is None
        &&& r[j].1.access_count == 0
        &&& r[j].1.modified_at is None
    }
}

/// Matches and scores candidates against a literal query: ordered-token,
/// normalized, path-component and fuzzy tiers with deprioritization and
/// boosts, over a scan-budgeted prefix of the candidates.
pub fn fuzzy_search_files(
    files: Vec<(String, String)>,
    query: &str,
    recent: &Vec<String>,
    favorites: &Vec<String>,
    options: &crate::SearchOptions,
) -> (r: Vec<(i64, crate::FileEntry)>)
    ensures
        trim_of(query@).len() == 0 ==> r@.len() == 0,
        trim_of(query@).len() > 0 ==> results_match_prefix(
            r@,
            files@,
            scored_prefix(
                files@,
                vstd::math::min(fuzzy_scan_limit(trim_of(query@)), files@.len() as int),
                trim_of(query@),
                *options,
                recent@,
                favorites@,
            ),
        ),
{
    let ctx = QueryCtx::new(query);
    let mut r: Vec<(i64, crate::FileEntry)> = Vec::new();
    if ctx.qv.len() == 0 {
        return r;
    }
    let nospace = strip_spaces(&ctx.ql);
    let limit: usize = if !crate::strutil::eq_chars(&ctx.qnorm, &nospace) {
        1000
    } else {
        300
    };
    let n: usize = if limit < files.len() {
        limit
    } else {
        files.len()
    };
    let ghost gq = trim_of(query@);
    let mut i: usize = 0;
    while i < n
        invariant
            0 <= i <= n <= files@.len(),
            ctx.wf(),
            ctx.q@ == gq,
            results_match_prefix(
                r@,
                files@,
                scored_prefix(files@, i as int, gq, *options, recent@, favorites@),
            ),
        decreases n - i,
    {
        let path = files[i].0.clone();
        let name = files[i].1.clone();
        let is_recent = contains_string(recent, &path);
        let is_fav = contains_string(favorites, &path);
        let ghost sp_before = scored_prefix(files@, i as int, gq, *options, recent@, favorites@);
        match score_candidate(&path, &name, &ctx, options, is_recent, is_fav) {
            Some(s) => {
                r.push(
                    (
                        s,
                        crate::FileEntry {
                            path: path.clone(),
                            name,
                            last_accessed: None,
                            access_count: 0,
                            modified_at: None,
                        },
                    ),
                );
            },
            None => {},
        }
        i += 1;
        proof {
            let sp_after = scored_prefix(files@, i as int, gq, *options, recent@, favorites@);
            assert(results_match_prefix(r@, files@, sp_after));
        }
    }
    r
}

/// Whether the lowercased query occurs right after a separator character
/// in the lowercased name.
fn boundary_match(name_l: &Vec<char>, ql: &Vec<char>) -> (b: bool)
    ensures
        b == (contains_seq(name_l@, seq!['/'] + ql@) || contains_seq(name_l@, seq!['\\'] + ql@)
            || contains_seq(name_l@, seq!['-'] + ql@) || contains_seq(name_l@, seq!['_'] + ql@)),
{
    let mut probe: Vec<char> = Vec::new();
    probe.push('/');
    crate::pattern::append_all(&mut probe, ql);
    proof {
        assert(probe@ =~= seq!['/'] + ql@);
    }
    if crate::strutil::contains_sub(name_l, &probe) {
        return true;
    }
    let mut probe2: Vec<char> = Vec::new();
    probe2.push('\\');
    crate::pattern::append_all(&mut probe2, ql);
    proof {
        assert(probe2@ =~= seq!['\\'] + ql@);
    }
    if crate::strutil::contains_sub(name_l, &probe2) {
        return true;
    }
    let mut probe3: Vec<char> = Vec::new();
    probe3.push('-');
    crate::pattern::append_all(&mut probe3, ql);
    proof {
        assert(probe3@ =~= seq!['-'] + ql@);
    }
    if crate::strutil::contains_sub(name_l, &probe3) {
        return true;
    }
    let mut probe4: Vec<char> = Vec::new();
    probe4.push('_');
    crate::pattern::append_all(&mut probe4, ql);
    proof {
        assert(probe4@ =~= seq!['_'] + ql@);
    }
    crate::strutil::contains_sub(name_l, &probe4)
}

} // verus!
