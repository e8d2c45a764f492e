//! The in-memory model of the persistent store: indexed entries, indexed
//! roots, recent-access history and favorites, each keyed by path. All
//! reading and writing semantics of the engine are defined and verified
//! here; durable storage shuttles these rows unchanged.
use vstd::prelude::*;

use vstd::multiset::Multiset;

use crate::outside::lower_of;
use crate::strutil::{contains_seq, ends_with_seq, starts_with_seq};

verus! {

broadcast use vstd::seq_lib::group_to_multiset_ensures;

/// One indexed filesystem path under a root.
#[derive(Debug, Clone)]
pub struct IndexedEntry {
    pub path: String,
    pub name: String,
    pub root_directory: String,
    pub indexed_at: i64,
    pub modified_at: Option<i64>,
}

/// One root directory that was indexed; at most one is active.
#[derive(Debug, Clone)]
pub struct IndexedRoot {
    pub path: String,
    pub name: String,
    pub indexed_at: i64,
    pub is_active: bool,
}

/// One opened file, with how often and how recently.
#[derive(Debug, Clone)]
pub struct RecentAccess {
    pub path: String,
    pub name: String,
    pub last_accessed: i64,
    pub access_count: i32,
}

/// One favorite path.
#[derive(Debug, Clone)]
pub struct Favorite {
    pub path: String,
    pub name: String,
    pub favorited_at: i64,
}

/// One walked filesystem entry handed to the indexer.
#[derive(Debug, Clone)]
pub struct WalkedEntry {
    pub path: String,
    pub name: String,
    pub modified_at: Option<i64>,
}

impl IndexedRoot {
    /// A copy of this row.
    pub fn clone_row(&self) -> (r: IndexedRoot)
        ensures
            r == *self,
    {
        IndexedRoot {
            path: self.path.clone(),
            name: self.name.clone(),
            indexed_at: self.indexed_at,
            is_active: self.is_active,
        }
    }
}

/// How many recent files a read returns at most.
pub open spec fn recent_cap() -> int {
    20
}

pub open spec fn entry_has_path(s: Seq<IndexedEntry>, p: Seq<char>) -> bool {
    exists|k: int| 0 <= k < s.len() && s[k].path@ == p
}

pub open spec fn recent_has_path(s: Seq<RecentAccess>, p: Seq<char>) -> bool {
    exists|k: int| 0 <= k < s.len() && s[k].path@ == p
}

pub open spec fn fav_has_path(s: Seq<Favorite>, p: Seq<char>) -> bool {
    exists|k: int| 0 <= k < s.len() && s[k].path@ == p
}

pub open spec fn root_has_path(s: Seq<IndexedRoot>, p: Seq<char>) -> bool {
    exists|k: int| 0 <= k < s.len() && s[k].path@ == p
}

/// A favorite for `p` was appended with timestamp `now`; the rest is
/// unchanged.
pub open spec fn fav_added(
    old_f: Seq<Favorite>,
    new_f: Seq<Favorite>,
    p: Seq<char>,
    n: Seq<char>,
    now: i64,
) -> bool {
    &&& new_f.len() == old_f.len() + 1
    &&& new_f.last().path@ == p
    &&& new_f.last().name@ == n
    &&& new_f.last().favorited_at == now
    &&& new_f.drop_last() == old_f
}

/// The favorite for `p` was removed; the others keep their order, and
/// none for `p` is left.
pub open spec fn fav_removed(old_f: Seq<Favorite>, new_f: Seq<Favorite>, p: Seq<char>) -> bool {
    &&& new_f.len() + 1 == old_f.len()
    &&& (forall|k: int| 0 <= k < new_f.len() ==> (#[trigger] new_f[k]).path@ != p)
    &&& (exists|k: int| 0 <= k <= new_f.len() && new_f =~= old_f.remove(k))
}

/// A fresh recent row for `p` was appended with count 1.
pub open spec fn recent_added(
    old_r: Seq<RecentAccess>,
    new_r: Seq<RecentAccess>,
    p: Seq<char>,
    n: Seq<char>,
    now: i64,
) -> bool {
    &&& new_r.len() == old_r.len() + 1
    &&& new_r.last().path@ == p
    &&& new_r.last().name@ == n
    &&& new_r.last().last_accessed == now
    &&& new_r.last().access_count == 1
    &&& new_r.drop_last() == old_r
}

/// The recent row for `p` got `now` as its last access and its count
/// raised by one (saturating); every other row is unchanged.
pub open spec fn recent_bumped(
    old_r: Seq<RecentAccess>,
    new_r: Seq<RecentAccess>,
    p: Seq<char>,
    now: i64,
) -> bool {
    &&& new_r.len() == old_r.len()
    &&& exists|k: int|
        {
            &&& 0 <= k < old_r.len()
            &&& (#[trigger] old_r[k]).path@ == p
            &&& new_r[k].path@ == p
            &&& new_r[k].name@ == old_r[k].name@
            &&& new_r[k].last_accessed == now
            &&& new_r[k].access_count as int == (if old_r[k].access_count < i32::MAX {
                old_r[k].access_count + 1
            } else {
                old_r[k].access_count as int
            })
            &&& (forall|t: int| 0 <= t < new_r.len() && t != k ==> new_r[t] == old_r[t])
        }
}

/// Descending lexicographic order on the two ranking keys.
pub open spec fn key_ge(a: (i64, i64, usize), b: (i64, i64, usize)) -> bool {
    a.0 > b.0 || (a.0 == b.0 && a.1 >= b.1)
}

/// Descending order of recent files: by count, then by last access.
pub open spec fn fe_key_ge(a: crate::FileEntry, b: crate::FileEntry) -> bool {
    a.access_count > b.access_count || (a.access_count == b.access_count && a.last_accessed->0
        >= b.last_accessed->0)
}

/// The `modified_at` of the entry keyed by `p`, if any entry is.
pub open spec fn spec_entry_modified(entries: Seq<IndexedEntry>, p: Seq<char>) -> Option<i64> {
    if entry_has_path(entries, p) {
        entries[choose|k: int| 0 <= k < entries.len() && (#[trigger] entries[k]).path@ == p].modified_at
    } else {
        None
    }
}

/// When the favorite for `p` was favorited (0 when none is).
pub open spec fn spec_fav_time(favs: Seq<Favorite>, p: Seq<char>) -> int {
    if fav_has_path(favs, p) {
        (favs[choose|k: int| 0 <= k < favs.len() && (#[trigger] favs[k]).path@ == p].favorited_at) as int
    } else {
        0
    }
}

proof fn lemma_fav_time_at(favs: Seq<Favorite>, k: int)
    requires
        0 <= k < favs.len(),
        forall|i: int, j: int|
            0 <= i < j < favs.len() ==> (#[trigger] favs[i]).path@ != (#[trigger] favs[j]).path@,
    ensures
        spec_fav_time(favs, favs[k].path@) == favs[k].favorited_at as int,
{
    assert(fav_has_path(favs, favs[k].path@));
    let k2 = choose|t: int| 0 <= t < favs.len() && (#[trigger] favs[t]).path@ == favs[k].path@;
    if k2 < k {
        assert(favs[k2].path@ != favs[k].path@);
    }
    if k < k2 {
        assert(favs[k].path@ != favs[k2].path@);
    }
}

/// One row of the recent list as the caller sees it: the recent row's
/// signals joined with the entry's modification time.
pub open spec fn recent_row_match(
    e: crate::FileEntry,
    row: RecentAccess,
    entries: Seq<IndexedEntry>,
) -> bool {
    &&& e.path@ == row.path@
    &&& e.name@ == row.name@
    &&& e.last_accessed == Some(row.last_accessed)
    &&& e.access_count == row.access_count
    &&& e.modified_at == spec_entry_modified(entries, row.path@)
}

/// `e` reads one of the recent rows (see `recent_row_match`).
pub open spec fn some_recent_row_match(
    e: crate::FileEntry,
    rows: Seq<RecentAccess>,
    entries: Seq<IndexedEntry>,
) -> bool {
    exists|k: int| 0 <= k < rows.len() && recent_row_match(e, #[trigger] rows[k], entries)
}

/// `e` is one of the root rows.
pub open spec fn some_root_row(e: IndexedRoot, roots: Seq<IndexedRoot>) -> bool {
    exists|k: int| 0 <= k < roots.len() && e == #[trigger] roots[k]
}

/// One pre-filter row: the entry's path, name and modification time, for
/// an entry whose folded name meets the pattern.
pub open spec fn prefilter_row_match(
    row: (String, String, Option<i64>),
    e: IndexedEntry,
    pat_l: Seq<char>,
) -> bool {
    &&& row.0@ == e.path@
    &&& row.1@ == e.name@
    &&& row.2 == e.modified_at
    &&& entry_like(e, pat_l)
}

proof fn lemma_count_like_bounds(entries: Seq<IndexedEntry>, i: int, pat_l: Seq<char>)
    requires
        0 <= i <= entries.len(),
    ensures
        0 <= count_like(entries, i, pat_l) <= i,
    decreases i,
{
    if i > 0 {
        lemma_count_like_bounds(entries, i - 1, pat_l);
    }
}

/// Checks the edge-wildcard `LIKE` forms against a folded name.
fn like_match_exec(pat_l: &Vec<char>, text: &Vec<char>) -> (b: bool)
    ensures
        b == like_matches(pat_l@, text@),
{
    let n = pat_l.len();
    if n >= 2 && pat_l[0] == '%' && pat_l[n - 1] == '%' {
        let mid = crate::pattern::copy_range(pat_l, 1, n - 1);
        crate::strutil::contains_sub(text, &mid)
    } else if n >= 1 && pat_l[n - 1] == '%' {
        let head = crate::pattern::copy_range(pat_l, 0, n - 1);
        crate::strutil::starts_with(text, &head)
    } else if n >= 1 && pat_l[0] == '%' {
        let tail = crate::pattern::copy_range(pat_l, 1, n);
        crate::strutil::ends_with(text, &tail)
    } else {
        crate::strutil::eq_chars(text, pat_l)
    }
}

/// The snapshot order: shorter names first, equal lengths by the name
/// itself.
pub open spec fn name_order_le(a: crate::fzf::FileIndex, b: crate::fzf::FileIndex) -> bool {
    a.name@.len() < b.name@.len() || (a.name@.len() == b.name@.len() && crate::strutil::lex_le(
        a.name@,
        b.name@,
    ))
}

proof fn lemma_name_order_refl(a: crate::fzf::FileIndex)
    ensures
        name_order_le(a, a),
{
    crate::strutil::lemma_lex_refl(a.name@);
}

proof fn lemma_name_order_total(a: crate::fzf::FileIndex, b: crate::fzf::FileIndex)
    ensures
        name_order_le(a, b) || name_order_le(b, a),
{
    crate::strutil::lemma_lex_total(a.name@, b.name@);
}

proof fn lemma_name_order_trans(
    a: crate::fzf::FileIndex,
    b: crate::fzf::FileIndex,
    c: crate::fzf::FileIndex,
)
    requires
        name_order_le(a, b),
        name_order_le(b, c),
    ensures
        name_order_le(a, c),
{
    if a.name@.len() == b.name@.len() && b.name@.len() == c.name@.len() {
        crate::strutil::lemma_lex_trans(a.name@, b.name@, c.name@);
    }
}

/// Whether `a` comes no later than `b` in the snapshot order.
fn name_order_le_exec(a: &crate::fzf::FileIndex, b: &crate::fzf::FileIndex) -> (r: bool)
    ensures
        r == name_order_le(*a, *b),
{
    let al = a.name.as_str().unicode_len();
    let bl = b.name.as_str().unicode_len();
    if al < bl {
        true
    } else if al > bl {
        false
    } else {
        let ac = crate::strutil::chars_of(a.name.as_str());
        let bc = crate::strutil::chars_of(b.name.as_str());
        crate::strutil::lex_le_chars(&ac, &bc)
    }
}

/// Sorts snapshot rows by name length, then by name.
fn sort_snapshot_rows(v: Vec<crate::fzf::FileIndex>) -> (r: Vec<crate::fzf::FileIndex>)
    ensures
        r@.len() == v@.len(),
        r@.to_multiset() == v@.to_multiset(),
        forall|i: int, j: int|
            0 <= i <= j < r@.len() ==> name_order_le(#[trigger] r@[i], #[trigger] r@[j]),
{
    let mut rest = v;
    let mut out: Vec<crate::fzf::FileIndex> = Vec::new();
    let ghost orig = rest@.to_multiset();
    while rest.len() > 0
        invariant
            orig == out@.to_multiset().add(rest@.to_multiset()),
            out@.len() + rest@.len() == orig.len(),
            forall|i: int, j: int|
                0 <= i <= j < out@.len() ==> name_order_le(#[trigger] out@[i], #[trigger] out@[j]),
            forall|e: crate::fzf::FileIndex|
                rest@.to_multiset().count(e) > 0 ==> out@.len() == 0 || name_order_le(
                    out@[out@.len() - 1],
                    e,
                ),
        decreases rest@.len(),
    {
        let mut best: usize = 0;
        let mut j: usize = 1;
        proof {
            lemma_name_order_refl(rest@[0]);
        }
        while j < rest.len()
            invariant
                0 <= best < j <= rest@.len(),
                rest@.len() > 0,
                forall|t: int| 0 <= t < j ==> name_order_le(rest@[best as int], #[trigger] rest@[t]),
            decreases rest@.len() - j,
        {
            let keep = name_order_le_exec(&rest[best], &rest[j]);
            if !keep {
                proof {
                    lemma_name_order_total(rest@[best as int], rest@[j as int]);
                    lemma_name_order_refl(rest@[j as int]);
                    assert forall|t: int| 0 <= t < j implies name_order_le(
                        rest@[j as int],
                        #[trigger] rest@[t],
                    ) by {
                        lemma_name_order_trans(rest@[j as int], rest@[best as int], rest@[t]);
                    }
                }
                best = j;
            }
            j += 1;
        }
        let ghost old_rest = rest@;
        let ghost old_out = out@;
        let item = rest.remove(best);
        out.push(item);
        proof {
            assert(old_rest.remove(best as int).to_multiset() =~= old_rest.to_multiset().remove(
                old_rest[best as int],
            ));
            assert(out@.to_multiset() =~= old_out.to_multiset().insert(item));
            assert(orig =~= out@.to_multiset().add(rest@.to_multiset()));
            if old_out.len() > 0 {
                assert(old_rest.contains(item));
                assert(old_rest.to_multiset().count(item) > 0);
                assert(name_order_le(old_out[old_out.len() - 1], item));
            }
            assert forall|i: int, j2: int| 0 <= i <= j2 < out@.len() implies name_order_le(
                #[trigger] out@[i],
                #[trigger] out@[j2],
            ) by {
                if j2 == out@.len() - 1 && i < j2 {
                    lemma_name_order_trans(out@[i], old_out[old_out.len() - 1], item);
                }
            }
            assert forall|e: crate::fzf::FileIndex|
                rest@.to_multiset().count(e) > 0 implies name_order_le(
                out@[out@.len() - 1],
                e,
            ) by {
                assert(old_rest.to_multiset().count(e) > 0);
                assert(old_rest.contains(e));
                let t = choose|t: int| 0 <= t < old_rest.len() && old_rest[t] == e;
                assert(name_order_le(old_rest[best as int], old_rest[t]));
            }
        }
    }
    proof {
        assert(rest@.to_multiset() =~= Multiset::<crate::fzf::FileIndex>::empty());
        assert(out@.to_multiset() =~= orig);
    }
    out
}

/// Sorts ranking keys in descending lexicographic order; ties keep their
/// original relative order.
fn sort_keyed_desc(keys: Vec<(i64, i64, usize)>) -> (r: Vec<(i64, i64, usize)>)
    ensures
        r@.len() == keys@.len(),
        r@.to_multiset() == keys@.to_multiset(),
        forall|a: int, b: int| 0 <= a <= b < r@.len() ==> key_ge(#[trigger] r@[a], #[trigger] r@[b]),
{
    let mut rest = keys;
    let mut out: Vec<(i64, i64, usize)> = Vec::new();
    let ghost orig = rest@.to_multiset();
    while rest.len() > 0
        invariant
            orig == out@.to_multiset().add(rest@.to_multiset()),
            out@.len() + rest@.len() == orig.len(),
            forall|a: int, b: int|
                0 <= a <= b < out@.len() ==> key_ge(#[trigger] out@[a], #[trigger] out@[b]),
            forall|e: (i64, i64, usize)|
                rest@.to_multiset().count(e) > 0 ==> out@.len() == 0 || key_ge(
                    out@[out@.len() - 1],
                    e,
                ),
        decreases rest@.len(),
    {
        let mut best: usize = 0;
        let mut j: usize = 1;
        while j < rest.len()
            invariant
                0 <= best < j <= rest@.len(),
                rest@.len() > 0,
                forall|t: int| 0 <= t < j ==> key_ge(rest@[best as int], #[trigger] rest@[t]),
            decreases rest@.len() - j,
        {
            let better = rest[j].0 > rest[best].0 || (rest[j].0 == rest[best].0 && rest[j].1
                > rest[best].1);
            if better {
                best = j;
            }
            j += 1;
        }
        let ghost old_rest = rest@;
        let ghost old_out = out@;
        let item = rest.remove(best);
        out.push(item);
        proof {
            assert(old_rest.remove(best as int).to_multiset() =~= old_rest.to_multiset().remove(
                old_rest[best as int],
            ));
            assert(out@.to_multiset() =~= old_out.to_multiset().insert(item));
            assert(orig =~= out@.to_multiset().add(rest@.to_multiset()));
            if old_out.len() > 0 {
                assert(old_rest.contains(item));
                assert(old_rest.to_multiset().count(item) > 0);
                assert(key_ge(old_out[old_out.len() - 1], item));
            }
            assert forall|a: int, b: int| 0 <= a <= b < out@.len() implies key_ge(
                #[trigger] out@[a],
                #[trigger] out@[b],
            ) by {
                if b == out@.len() - 1 && a < b {
                    assert(key_ge(old_out[a], old_out[old_out.len() - 1]));
                }
            }
            assert forall|e: (i64, i64, usize)| rest@.to_multiset().count(e) > 0 implies key_ge(
                out@[out@.len() - 1],
                e,
            ) by {
                assert(old_rest.to_multiset().count(e) > 0);
                assert(old_rest.contains(e));
                let t = choose|t: int| 0 <= t < old_rest.len() && old_rest[t] == e;
                assert(key_ge(old_rest[best as int], old_rest[t]));
            }
        }
    }
    proof {
        assert(rest@.to_multiset() =~= Multiset::<(i64, i64, usize)>::empty());
        assert(out@.to_multiset() =~= orig);
    }
    out
}

/// In a keyed sort whose input tags each key with its own index, every
/// sorted element is the input element its tag names, and tags stay
/// distinct.
proof fn lemma_sorted_keys_index(keys: Seq<(i64, i64, usize)>, sorted: Seq<(i64, i64, usize)>)
    requires
        keys.len() <= usize::MAX,
        sorted.to_multiset() == keys.to_multiset(),
        sorted.len() == keys.len(),
        forall|t: int| 0 <= t < keys.len() ==> (#[trigger] keys[t]).2 == t as usize,
    ensures
        forall|t: int|
            0 <= t < sorted.len() ==> 0 <= (#[trigger] sorted[t]).2 < keys.len() && sorted[t]
                == keys[sorted[t].2 as int],
        forall|a: int, b: int|
            0 <= a < b < sorted.len() ==> (#[trigger] sorted[a]).2 != (#[trigger] sorted[b]).2,
{
    assert forall|t: int|
        0 <= t < sorted.len() implies 0 <= (#[trigger] sorted[t]).2 < keys.len() && sorted[t]
        == keys[sorted[t].2 as int] by {
        assert(sorted.contains(sorted[t]));
        assert(sorted.to_multiset().count(sorted[t]) > 0);
        assert(keys.to_multiset().count(sorted[t]) > 0);
        assert(keys.contains(sorted[t]));
        let u = choose|u: int| 0 <= u < keys.len() && keys[u] == sorted[t];
        assert(keys[u].2 == u as usize);
        assert(sorted[t].2 as int == u);
    }
    assert forall|a: int, b: int|
        0 <= a < b < sorted.len() implies (#[trigger] sorted[a]).2 != (#[trigger] sorted[b]).2 by {
        if sorted[a].2 == sorted[b].2 {
            assert(sorted[a] == keys[sorted[a].2 as int]);
            assert(sorted[b] == keys[sorted[b].2 as int]);
            assert(sorted[a] == sorted[b]);
            assert(keys.no_duplicates()) by {
                assert forall|i: int, j: int|
                    0 <= i < keys.len() && 0 <= j < keys.len() && i != j implies keys[i] != keys[
                    j
                ] by {
                    assert(keys[i].2 == i as usize);
                    assert(keys[j].2 == j as usize);
                }
            }
            keys.lemma_multiset_has_no_duplicates();
            sorted.lemma_multiset_has_no_duplicates_conv();
            assert(sorted[a] != sorted[b]);
        }
    }
}

/// `LIKE` with `%` wildcards only at the pattern's edges, the only forms
/// the planner emits: contains, starts-with, ends-with, or equality.
pub open spec fn like_matches(pat: Seq<char>, text: Seq<char>) -> bool {
    if pat.len() >= 2 && pat[0] == '%' && pat[pat.len() - 1] == '%' {
        contains_seq(text, pat.subrange(1, pat.len() - 1))
    } else if pat.len() >= 1 && pat[pat.len() - 1] == '%' {
        starts_with_seq(text, pat.subrange(0, pat.len() - 1))
    } else if pat.len() >= 1 && pat[0] == '%' {
        ends_with_seq(text, pat.subrange(1, pat.len() as int))
    } else {
        text == pat
    }
}

/// Whether the entry's name meets the pattern, both case-folded: the
/// store's `LIKE` comparison is case-insensitive.
pub open spec fn entry_like(e: IndexedEntry, pat_l: Seq<char>) -> bool {
    like_matches(pat_l, lower_of(e.name@))
}

/// How many of the first `i` entries meet the pattern.
pub open spec fn count_like(entries: Seq<IndexedEntry>, i: int, pat_l: Seq<char>) -> int
    decreases i,
{
    if i <= 0 {
        0
    } else {
        count_like(entries, i - 1, pat_l) + (if entry_like(entries[i - 1], pat_l) {
            1int
        } else {
            0int
        })
    }
}

/// A name-length ranking key, saturated at the key width; negative so
/// that descending key order is ascending length order.
pub open spec fn neg_len_key(n: int) -> int {
    if n > i64::MAX {
        -(i64::MAX as int)
    } else {
        -n
    }
}

/// The whole index: four path-keyed tables.
pub struct Store {
    pub entries: Vec<IndexedEntry>,
    pub roots: Vec<IndexedRoot>,
    pub recent: Vec<RecentAccess>,
    pub favorites: Vec<Favorite>,
}

impl Store {
    /// Path is the sole identity of every table, and at most one root is
    /// active.
    pub open spec fn wf(&self) -> bool {
        &&& (forall|i: int, j: int|
            0 <= i < j < self.entries@.len() ==> (#[trigger] self.entries@[i]).path@ != (
            #[trigger] self.entries@[j]).path@)
        &&& (forall|i: int, j: int|
            0 <= i < j < self.roots@.len() ==> (#[trigger] self.roots@[i]).path@ != (
            #[trigger] self.roots@[j]).path@)
        &&& (forall|i: int, j: int|
            0 <= i < j < self.recent@.len() ==> (#[trigger] self.recent@[i]).path@ != (
            #[trigger] self.recent@[j]).path@)
        &&& (forall|i: int, j: int|
            0 <= i < j < self.favorites@.len() ==> (#[trigger] self.favorites@[i]).path@ != (
            #[trigger] self.favorites@[j]).path@)
        &&& (forall|i: int, j: int|
            0 <= i < j < self.roots@.len() && (#[trigger] self.roots@[i]).is_active ==> !(
            #[trigger] self.roots@[j]).is_active)
    }

    /// An empty store.
    pub fn new() -> (r: Store)
        ensures
            r.wf(),
            r.entries@.len() == 0,
            r.roots@.len() == 0,
            r.recent@.len() == 0,
            r.favorites@.len() == 0,
    {
        Store { entries: Vec::new(), roots: Vec::new(), recent: Vec::new(), favorites: Vec::new() }
    }

    /// Whether some entry holds this path.
    pub fn has_entry_path(&self, p: &String) -> (b: bool)
        ensures
            b == entry_has_path(self.entries@, p@),
    {
        let mut i: usize = 0;
        while i < self.entries.len()
            invariant
                0 <= i <= self.entries@.len(),
                forall|k: int| 0 <= k < i ==> (#[trigger] self.entries@[k]).path@ != p@,
            decreases self.entries@.len() - i,
        {
            if self.entries[i].path.eq(p) {
                return true;
            }
            i += 1;
        }
        false
    }

    /// Toggles the favorite mark of `path` and says whether it is now
    /// favorited. Only the favorites table changes: removal keeps every
    /// other favorite in order; insertion appends the new favorite with
    /// `now`.
    pub fn toggle_favorite(&mut self, path: &String, name: &String, now: i64) -> (r: bool)
        requires
            old(self).wf(),
        ensures
            final(self).wf(),
            r == !fav_has_path(old(self).favorites@, path@),
            final(self).entries@ == old(self).entries@,
            final(self).roots@ == old(self).roots@,
            final(self).recent@ == old(self).recent@,
            fav_has_path(final(self).favorites@, path@) == r,
            r ==> fav_added(old(self).favorites@, final(self).favorites@, path@, name@, now),
            !r ==> fav_removed(old(self).favorites@, final(self).favorites@, path@),
    {
        match self.find_favorite(path) {
            Some(idx) => {
                let ghost old_favs = self.favorites@;
                self.favorites.remove(idx);
                proof {
                    assert forall|k: int|
                        0 <= k < self.favorites@.len() implies (
                    #[trigger] self.favorites@[k]).path@ != path@ by {
                        if k < idx {
                        } else {
                            assert(self.favorites@[k] == old_favs[k + 1]);
                        }
                    }
                    assert(old_favs[idx as int].path@ == path@);
                    assert(fav_removed(old_favs, self.favorites@, path@)) by {
                        assert(self.favorites@ =~= old_favs.remove(idx as int));
                    }
                }
                false
            },
            None => {
                self.favorites.push(
                    Favorite { path: path.clone(), name: name.clone(), favorited_at: now },
                );
                proof {
                    assert(self.favorites@.drop_last() =~= old(self).favorites@);
                    assert(self.favorites@[self.favorites@.len() - 1].path@ == path@);
                }
                true
            },
        }
    }

    /// The index of the favorite holding `path`, if any.
    fn find_favorite(&self, path: &String) -> (r: Option<usize>)
        ensures
            match r {
                Some(i) => i < self.favorites@.len() && self.favorites@[i as int].path@ == path@,
                None => forall|k: int|
                    0 <= k < self.favorites@.len() ==> (#[trigger] self.favorites@[k]).path@
                        != path@,
            },
    {
        let mut idx: usize = 0;
        while idx < self.favorites.len()
            invariant
                0 <= idx <= self.favorites@.len(),
                forall|k: int| 0 <= k < idx ==> (#[trigger] self.favorites@[k]).path@ != path@,
            decreases self.favorites@.len() - idx,
        {
            if self.favorites[idx].path.eq(path) {
                return Some(idx);
            }
            idx += 1;
        }
        None
    }

    /// Records that `path` was opened now: a new recent row with count 1,
    /// or the existing row refreshed with its count raised (saturating at
    /// the counter's width).
    pub fn record_access(&mut self, path: &String, name: &String, now: i64)
        requires
            old(self).wf(),
        ensures
            final(self).wf(),
            final(self).entries@ == old(self).entries@,
            final(self).roots@ == old(self).roots@,
            final(self).favorites@ == old(self).favorites@,
            !recent_has_path(old(self).recent@, path@) ==> recent_added(old(self).recent@, final(self).recent@, path@, name@, now),
            recent_has_path(old(self).recent@, path@) ==> recent_bumped(old(self).recent@, final(self).recent@, path@, now),
    {
        let mut idx: usize = 0;
        while idx < self.recent.len()
            invariant
                0 <= idx <= self.recent@.len(),
                old(self).wf(),
                self == old(self),
                forall|k: int| 0 <= k < idx ==> (#[trigger] self.recent@[k]).path@ != path@,
            decreases self.recent@.len() - idx,
        {
            if self.recent[idx].path.eq(path) {
                let old_row = &self.recent[idx];
                let new_count: i32 = if old_row.access_count < i32::MAX {
                    old_row.access_count + 1
                } else {
                    old_row.access_count
                };
                let new_row = RecentAccess {
                    path: old_row.path.clone(),
                    name: old_row.name.clone(),
                    last_accessed: now,
                    access_count: new_count,
                };
                let ghost before = self.recent@;
                self.recent.set(idx, new_row);
                proof {
                    assert(self.recent@[idx as int].path@ == path@);
                }
                return ;
            }
            idx += 1;
        }
        self.recent.push(
            RecentAccess {
                path: path.clone(),
                name: name.clone(),
                last_accessed: now,
                access_count: 1,
            },
        );
        proof {
            assert(self.recent@.drop_last() =~= old(self).recent@);
        }
    }

    /// Marks the root with this path active and every other root
    /// inactive.
    pub fn set_active_root(&mut self, path: &String)
        requires
            old(self).wf(),
        ensures
            final(self).wf(),
            final(self).entries@ == old(self).entries@,
            final(self).recent@ == old(self).recent@,
            final(self).favorites@ == old(self).favorites@,
            final(self).roots@.len() == old(self).roots@.len(),
            forall|k: int|
                0 <= k < old(self).roots@.len() ==> {
                    let o = #[trigger] old(self).roots@[k];
                    let n = final(self).roots@[k];
                    n.path@ == o.path@ && n.name@ == o.name@ && n.indexed_at == o.indexed_at
                        && n.is_active == (o.path@ == path@)
                },
    {
        let mut out: Vec<IndexedRoot> = Vec::new();
        let mut i: usize = 0;
        while i < self.roots.len()
            invariant
                0 <= i <= self.roots@.len(),
                self == old(self),
                old(self).wf(),
                out@.len() == i,
                forall|k: int|
                    0 <= k < i ==> {
                        let o = #[trigger] old(self).roots@[k];
                        let n = out@[k];
                        n.path@ == o.path@ && n.name@ == o.name@ && n.indexed_at == o.indexed_at
                            && n.is_active == (o.path@ == path@)
                    },
            decreases self.roots@.len() - i,
        {
            let r = &self.roots[i];
            let active = r.path.eq(path);
            out.push(
                IndexedRoot {
                    path: r.path.clone(),
                    name: r.name.clone(),
                    indexed_at: r.indexed_at,
                    is_active: active,
                },
            );
            i += 1;
        }
        self.roots = out;
        proof {
            assert forall|a: int, b: int|
                0 <= a < b < self.roots@.len() implies (#[trigger] self.roots@[a]).path@ != (
            #[trigger] self.roots@[b]).path@ by {
                assert(old(self).roots@[a].path@ != old(self).roots@[b].path@);
            }
            assert forall|a: int, b: int|
                0 <= a < b < self.roots@.len() && (#[trigger] self.roots@[a]).is_active implies !(
            #[trigger] self.roots@[b]).is_active by {
                assert(old(self).roots@[a].path@ != old(self).roots@[b].path@);
            }
        }
    }

    /// The `modified_at` of the entry holding path `p`, if one does.
    pub fn entry_modified(&self, p: &String) -> (r: Option<i64>)
        requires
            self.wf(),
        ensures
            r == spec_entry_modified(self.entries@, p@),
    {
        let mut i: usize = 0;
        while i < self.entries.len()
            invariant
                0 <= i <= self.entries@.len(),
                self.wf(),
                forall|k: int| 0 <= k < i ==> (#[trigger] self.entries@[k]).path@ != p@,
            decreases self.entries@.len() - i,
        {
            if self.entries[i].path.eq(p) {
                proof {
                    let k = choose|k: int|
                        0 <= k < self.entries@.len() && (#[trigger] self.entries@[k]).path@ == p@;
                    assert(k == i as int);
                }
                return self.entries[i].modified_at;
            }
            i += 1;
        }
        None
    }

    /// The top recent files: at most `recent_cap` rows, ordered by access
    /// count, then recency, each joined with its entry's `modified_at`.
    pub fn recent_files(&self) -> (r: Vec<crate::FileEntry>)
        requires
            self.wf(),
        ensures
            r@.len() == vstd::math::min(recent_cap(), self.recent@.len() as int),
            forall|j: int|
                0 <= j < r@.len() ==> some_recent_row_match(
                    #[trigger] r@[j],
                    self.recent@,
                    self.entries@,
                ),
            forall|i: int, j: int| 0 <= i <= j < r@.len() ==> fe_key_ge(r@[i], r@[j]),
            forall|i: int, j: int|
                0 <= i < j < r@.len() ==> (#[trigger] r@[i]).path@ != (#[trigger] r@[j]).path@,
    {
        let mut keys: Vec<(i64, i64, usize)> = Vec::new();
        let mut i: usize = 0;
        while i < self.recent.len()
            invariant
                0 <= i <= self.recent@.len(),
                self.wf(),
                keys@.len() == i,
                forall|t: int|
                    0 <= t < i ==> #[trigger] keys@[t] == (
                        self.recent@[t].access_count as i64,
                        self.recent@[t].last_accessed,
                        t as usize,
                    ),
            decreases self.recent@.len() - i,
        {
            keys.push((self.recent[i].access_count as i64, self.recent[i].last_accessed, i));
            i += 1;
        }
        let sorted = sort_keyed_desc(keys);
        proof {
            lemma_sorted_keys_index(keys@, sorted@);
        }
        let cap: usize = if sorted.len() < 20 {
            sorted.len()
        } else {
            20
        };
        let mut r: Vec<crate::FileEntry> = Vec::new();
        let mut j: usize = 0;
        while j < cap
            invariant
                0 <= j <= cap <= sorted@.len(),
                self.wf(),
                sorted@.len() == self.recent@.len(),
                forall|t: int|
                    0 <= t < sorted@.len() ==> 0 <= (#[trigger] sorted@[t]).2 < self.recent@.len()
                        && sorted@[t] == (
                        self.recent@[sorted@[t].2 as int].access_count as i64,
                        self.recent@[sorted@[t].2 as int].last_accessed,
                        sorted@[t].2,
                    ),
                forall|a: int, b: int|
                    0 <= a < b < sorted@.len() ==> (#[trigger] sorted@[a]).2 != (
                    #[trigger] sorted@[b]).2,
                forall|a: int, b: int|
                    0 <= a <= b < sorted@.len() ==> key_ge(
                        #[trigger] sorted@[a],
                        #[trigger] sorted@[b],
                    ),
                r@.len() == j,
                forall|t: int|
                    0 <= t < j ==> recent_row_match(
                        #[trigger] r@[t],
                        self.recent@[sorted@[t].2 as int],
                        self.entries@,
                    ),
                forall|t: int|
                    0 <= t < j ==> (#[trigger] r@[t]).access_count as int == sorted@[t].0 && r@[
                        t
                    ].last_accessed == Some(sorted@[t].1) && r@[t].path@ == self.recent@[
                        sorted@[t].2 as int
                    ].path@,
            decreases cap - j,
        {
            let idx = sorted[j].2;
            let row_path = self.recent[idx].path.clone();
            let row_name = self.recent[idx].name.clone();
            let modified = self.entry_modified(&row_path);
            r.push(
                crate::FileEntry {
                    path: row_path,
                    name: row_name,
                    last_accessed: Some(self.recent[idx].last_accessed),
                    access_count: self.recent[idx].access_count,
                    modified_at: modified,
                },
            );
            j += 1;
        }
        proof {
            assert forall|j2: int| 0 <= j2 < r@.len() implies some_recent_row_match(
                #[trigger] r@[j2],
                self.recent@,
                self.entries@,
            ) by {
                let k = sorted@[j2].2 as int;
                assert(recent_row_match(r@[j2], self.recent@[k], self.entries@));
            }
            assert forall|a: int, b: int| 0 <= a <= b < r@.len() implies fe_key_ge(
                r@[a],
                r@[b],
            ) by {
                assert(key_ge(sorted@[a], sorted@[b]));
            }
            assert forall|a: int, b: int| 0 <= a < b < r@.len() implies (#[trigger] r@[a]).path@
                != (#[trigger] r@[b]).path@ by {
                let ka = sorted@[a].2 as int;
                let kb = sorted@[b].2 as int;
                assert(ka != kb);
                if ka < kb {
                    assert(self.recent@[ka].path@ != self.recent@[kb].path@);
                } else {
                    assert(self.recent@[kb].path@ != self.recent@[ka].path@);
                }
            }
        }
        r
    }

    /// The favorite paths, most recently favorited first.
    pub fn get_favorites(&self) -> (r: Vec<String>)
        requires
            self.wf(),
        ensures
            r@.len() == self.favorites@.len(),
            forall|j: int| 0 <= j < r@.len() ==> fav_has_path(self.favorites@, (#[trigger] r@[j])@),
            forall|i: int, j: int| 0 <= i < j < r@.len() ==> (#[trigger] r@[i])@ != (
                #[trigger] r@[j])@,
            forall|i: int, j: int|
                0 <= i <= j < r@.len() ==> spec_fav_time(self.favorites@, (#[trigger] r@[i])@)
                    >= spec_fav_time(self.favorites@, (#[trigger] r@[j])@),
    {
        let mut keys: Vec<(i64, i64, usize)> = Vec::new();
        let mut i: usize = 0;
        while i < self.favorites.len()
            invariant
                0 <= i <= self.favorites@.len(),
                self.wf(),
                keys@.len() == i,
                forall|t: int|
                    0 <= t < i ==> #[trigger] keys@[t] == (
                        self.favorites@[t].favorited_at,
                        0i64,
                        t as usize,
                    ),
            decreases self.favorites@.len() - i,
        {
            keys.push((self.favorites[i].favorited_at, 0, i));
            i += 1;
        }
        let sorted = sort_keyed_desc(keys);
        proof {
            lemma_sorted_keys_index(keys@, sorted@);
        }
        let mut r: Vec<String> = Vec::new();
        let mut j: usize = 0;
        while j < sorted.len()
            invariant
                0 <= j <= sorted@.len(),
                self.wf(),
                sorted@.len() == self.favorites@.len(),
                forall|t: int|
                    0 <= t < sorted@.len() ==> 0 <= (#[trigger] sorted@[t]).2
                        < self.favorites@.len() && sorted@[t] == (
                        self.favorites@[sorted@[t].2 as int].favorited_at,
                        0i64,
                        sorted@[t].2,
                    ),
                forall|a: int, b: int|
                    0 <= a < b < sorted@.len() ==> (#[trigger] sorted@[a]).2 != (
                    #[trigger] sorted@[b]).2,
                forall|a: int, b: int|
                    0 <= a <= b < sorted@.len() ==> key_ge(
                        #[trigger] sorted@[a],
                        #[trigger] sorted@[b],
                    ),
                r@.len() == j,
                forall|t: int|
                    0 <= t < j ==> (#[trigger] r@[t])@ == self.favorites@[
                        sorted@[t].2 as int
                    ].path@,
            decreases sorted@.len() - j,
        {
            let idx = sorted[j].2;
            r.push(self.favorites[idx].path.clone());
            j += 1;
        }
        proof {
            assert forall|j2: int| 0 <= j2 < r@.len() implies fav_has_path(
                self.favorites@,
                (#[trigger] r@[j2])@,
            ) by {
                assert(self.favorites@[sorted@[j2].2 as int].path@ == r@[j2]@);
            }
            assert forall|a: int, b: int| 0 <= a < b < r@.len() implies (#[trigger] r@[a])@ != (
            #[trigger] r@[b])@ by {
                let ka = sorted@[a].2 as int;
                let kb = sorted@[b].2 as int;
                if ka < kb {
                    assert(self.favorites@[ka].path@ != self.favorites@[kb].path@);
                } else {
                    assert(self.favorites@[kb].path@ != self.favorites@[ka].path@);
                }
            }
            assert forall|a: int, b: int| 0 <= a <= b < r@.len() implies spec_fav_time(
                self.favorites@,
                (#[trigger] r@[a])@,
            ) >= spec_fav_time(self.favorites@, (#[trigger] r@[b])@) by {
                assert(key_ge(sorted@[a], sorted@[b]));
                lemma_fav_time_at(self.favorites@, sorted@[a].2 as int);
                lemma_fav_time_at(self.favorites@, sorted@[b].2 as int);
            }
        }
        r
    }

    /// The paths of the most-used recent files: at most `cap`, by access
    /// count then recency, the boost set of the matching engine.
    pub fn recent_paths(&self, cap: usize) -> (r: Vec<String>)
        requires
            self.wf(),
        ensures
            r@.len() == vstd::math::min(cap as int, self.recent@.len() as int),
            forall|j: int|
                0 <= j < r@.len() ==> recent_has_path(self.recent@, (#[trigger] r@[j])@),
            forall|i: int, j: int| 0 <= i < j < r@.len() ==> (#[trigger] r@[i])@ != (
                #[trigger] r@[j])@,
    {
        let mut keys: Vec<(i64, i64, usize)> = Vec::new();
        let mut i: usize = 0;
        while i < self.recent.len()
            invariant
                0 <= i <= self.recent@.len(),
                self.wf(),
                keys@.len() == i,
                forall|t: int|
                    0 <= t < i ==> #[trigger] keys@[t] == (
                        self.recent@[t].access_count as i64,
                        self.recent@[t].last_accessed,
                        t as usize,
                    ),
            decreases self.recent@.len() - i,
        {
            keys.push((self.recent[i].access_count as i64, self.recent[i].last_accessed, i));
            i += 1;
        }
        let sorted = sort_keyed_desc(keys);
        proof {
            lemma_sorted_keys_index(keys@, sorted@);
        }
        let lim: usize = if sorted.len() < cap {
            sorted.len()
        } else {
            cap
        };
        let mut r: Vec<String> = Vec::new();
        let mut j: usize = 0;
        while j < lim
            invariant
                0 <= j <= lim <= sorted@.len(),
                self.wf(),
                sorted@.len() == self.recent@.len(),
                forall|t: int|
                    0 <= t < sorted@.len() ==> 0 <= (#[trigger] sorted@[t]).2
                        < self.recent@.len(),
                forall|a: int, b: int|
                    0 <= a < b < sorted@.len() ==> (#[trigger] sorted@[a]).2 != (
                    #[trigger] sorted@[b]).2,
                r@.len() == j,
                forall|t: int|
                    0 <= t < j ==> (#[trigger] r@[t])@ == self.recent@[sorted@[t].2 as int].path@,
            decreases lim - j,
        {
            let idx = sorted[j].2;
            r.push(self.recent[idx].path.clone());
            j += 1;
        }
        proof {
            assert forall|j2: int| 0 <= j2 < r@.len() implies recent_has_path(
                self.recent@,
                (#[trigger] r@[j2])@,
            ) by {
                assert(self.recent@[sorted@[j2].2 as int].path@ == r@[j2]@);
            }
            assert forall|a: int, b: int| 0 <= a < b < r@.len() implies (#[trigger] r@[a])@ != (
            #[trigger] r@[b])@ by {
                let ka = sorted@[a].2 as int;
                let kb = sorted@[b].2 as int;
                if ka < kb {
                    assert(self.recent@[ka].path@ != self.recent@[kb].path@);
                } else {
                    assert(self.recent@[kb].path@ != self.recent@[ka].path@);
                }
            }
        }
        r
    }

    /// Every indexed root, most recently indexed first.
    pub fn list_indexed_roots(&self) -> (r: Vec<IndexedRoot>)
        requires
            self.wf(),
        ensures
            r@.len() == self.roots@.len(),
            forall|j: int| 0 <= j < r@.len() ==> some_root_row(#[trigger] r@[j], self.roots@),
            forall|i: int, j: int| 0 <= i < j < r@.len() ==> (#[trigger] r@[i]).path@ != (
                #[trigger] r@[j]).path@,
            forall|i: int, j: int|
                0 <= i <= j < r@.len() ==> (#[trigger] r@[i]).indexed_at >= (
                #[trigger] r@[j]).indexed_at,
    {
        let mut keys: Vec<(i64, i64, usize)> = Vec::new();
        let mut i: usize = 0;
        while i < self.roots.len()
            invariant
                0 <= i <= self.roots@.len(),
                self.wf(),
                keys@.len() == i,
                forall|t: int|
                    0 <= t < i ==> #[trigger] keys@[t] == (
                        self.roots@[t].indexed_at,
                        0i64,
                        t as usize,
                    ),
            decreases self.roots@.len() - i,
        {
            keys.push((self.roots[i].indexed_at, 0, i));
            i += 1;
        }
        let sorted = sort_keyed_desc(keys);
        proof {
            lemma_sorted_keys_index(keys@, sorted@);
        }
        let mut r: Vec<IndexedRoot> = Vec::new();
        let mut j: usize = 0;
        while j < sorted.len()
            invariant
                0 <= j <= sorted@.len(),
                self.wf(),
                sorted@.len() == self.roots@.len(),
                forall|t: int|
                    0 <= t < sorted@.len() ==> 0 <= (#[trigger] sorted@[t]).2 < self.roots@.len()
                        && sorted@[t] == (
                        self.roots@[sorted@[t].2 as int].indexed_at,
                        0i64,
                        sorted@[t].2,
                    ),
                forall|a: int, b: int|
                    0 <= a < b < sorted@.len() ==> (#[trigger] sorted@[a]).2 != (
                    #[trigger] sorted@[b]).2,
                forall|a: int, b: int|
                    0 <= a <= b < sorted@.len() ==> key_ge(
                        #[trigger] sorted@[a],
                        #[trigger] sorted@[b],
                    ),
                r@.len() == j,
                forall|t: int|
                    0 <= t < j ==> #[trigger] r@[t] == self.roots@[sorted@[t].2 as int],
            decreases sorted@.len() - j,
        {
            let idx = sorted[j].2;
            r.push(self.roots[idx].clone_row());
            j += 1;
        }
        proof {
            assert forall|j2: int| 0 <= j2 < r@.len() implies some_root_row(
                #[trigger] r@[j2],
                self.roots@,
            ) by {
                let k = sorted@[j2].2 as int;
                assert(r@[j2] == self.roots@[k]);
            }
            assert forall|a: int, b: int| 0 <= a < b < r@.len() implies (#[trigger] r@[a]).path@
                != (#[trigger] r@[b]).path@ by {
                let ka = sorted@[a].2 as int;
                let kb = sorted@[b].2 as int;
                if ka < kb {
                    assert(self.roots@[ka].path@ != self.roots@[kb].path@);
                } else {
                    assert(self.roots@[kb].path@ != self.roots@[ka].path@);
                }
            }
        }
        r
    }

    /// The store-side pre-filter: the entries whose (case-folded) name
    /// meets the `LIKE` pattern, shortest names first, at most `limit` of
    /// them. This bounds the candidate set before per-candidate scoring.
    pub fn prefilter(&self, pattern: &Vec<char>, limit: usize) -> (r: Vec<
        (String, String, Option<i64>),
    >)
        requires
            self.wf(),
        ensures
            r@.len() == vstd::math::min(
                limit as int,
                count_like(self.entries@, self.entries@.len() as int, lower_of(pattern@)),
            ),
            forall|j: int|
                0 <= j < r@.len() ==> exists|k: int|
                    0 <= k < self.entries@.len() && prefilter_row_match(
                        #[trigger] r@[j],
                        self.entries@[k],
                        lower_of(pattern@),
                    ),
            forall|i: int, j: int|
                0 <= i < j < r@.len() ==> (#[trigger] r@[i]).0@ != (#[trigger] r@[j]).0@,
            forall|i: int, j: int|
                0 <= i <= j < r@.len() ==> neg_len_key((#[trigger] r@[i]).1@.len() as int)
                    >= neg_len_key((#[trigger] r@[j]).1@.len() as int),
            // the rows kept are the shortest-named matches: any matching
            // entry left out has a name no shorter than the last row
            forall|k: int|
                0 <= k < self.entries@.len() && entry_like(
                    #[trigger] self.entries@[k],
                    lower_of(pattern@),
                ) && limit > 0 ==> (exists|j: int| 0 <= j < r@.len() && (#[trigger] r@[j]).0@
                    == self.entries@[k].path@) || (r@.len() > 0 && r@.len() == limit
                    && neg_len_key(self.entries@[k].name@.len() as int) <= neg_len_key(
                    r@[r@.len() - 1].1@.len() as int,
                )),
    {
        let pat_string = crate::strutil::string_of(pattern);
        let pat_lowered = crate::outside::to_lowercase(pat_string.as_str());
        let pat_l = crate::strutil::chars_of(pat_lowered.as_str());
        // collect the matching entry indices
        let mut matched: Vec<usize> = Vec::new();
        let mut i: usize = 0;
        while i < self.entries.len()
            invariant
                0 <= i <= self.entries@.len(),
                self.wf(),
                pat_l@ == lower_of(pattern@),
                matched@.len() == count_like(self.entries@, i as int, pat_l@),
                forall|t: int|
                    0 <= t < matched@.len() ==> 0 <= (#[trigger] matched@[t]) < i && entry_like(
                        self.entries@[matched@[t] as int],
                        pat_l@,
                    ),
                forall|a: int, b: int|
                    0 <= a < b < matched@.len() ==> (#[trigger] matched@[a]) < (
                    #[trigger] matched@[b]),
                forall|k: int|
                    0 <= k < i && entry_like(#[trigger] self.entries@[k], pat_l@) ==> exists|
                        t: int,
                    | 0 <= t < matched@.len() && matched@[t] == k,
            decreases self.entries@.len() - i,
        {
            let name_l = crate::outside::to_lowercase(self.entries[i].name.as_str());
            let name_lc = crate::strutil::chars_of(name_l.as_str());
            let ghost old_matched = matched@;
            if like_match_exec(&pat_l, &name_lc) {
                matched.push(i);
            }
            proof {
                assert forall|k: int|
                    0 <= k < i + 1 && entry_like(#[trigger] self.entries@[k], pat_l@)
                    implies exists|t: int|
                    0 <= t < matched@.len() && matched@[t] == k by {
                    if k == i {
                        assert(matched@[matched@.len() - 1] == k);
                    } else {
                        let t = choose|t: int| 0 <= t < old_matched.len() && old_matched[t] == k;
                        assert(matched@[t] == k);
                    }
                }
            }
            i += 1;
        }
        // order the matches by name length, shortest first
        let mut keys: Vec<(i64, i64, usize)> = Vec::new();
        let mut t: usize = 0;
        while t < matched.len()
            invariant
                0 <= t <= matched@.len(),
                self.wf(),
                forall|u: int|
                    0 <= u < matched@.len() ==> 0 <= (#[trigger] matched@[u])
                        < self.entries@.len(),
                keys@.len() == t,
                forall|u: int|
                    0 <= u < t ==> #[trigger] keys@[u] == (
                        neg_len_key(
                            self.entries@[matched@[u] as int].name@.len() as int,
                        ) as i64,
                        0i64,
                        u as usize,
                    ),
            decreases matched@.len() - t,
        {
            let nm_len = self.entries[matched[t]].name.as_str().unicode_len();
            let lk: i64 = if (nm_len as u64) > (i64::MAX as u64) {
                -i64::MAX
            } else {
                -(nm_len as i64)
            };
            proof {
                let g = neg_len_key(self.entries@[matched@[t as int] as int].name@.len() as int);
                assert(-(i64::MAX as int) <= g <= 0);
                assert(lk as int == g);
            }
            keys.push((lk, 0, t));
            t += 1;
        }
        let sorted = sort_keyed_desc(keys);
        proof {
            lemma_sorted_keys_index(keys@, sorted@);
        }
        // take the first `limit`
        let cap: usize = if sorted.len() < limit {
            sorted.len()
        } else {
            limit
        };
        let mut r: Vec<(String, String, Option<i64>)> = Vec::new();
        let mut j: usize = 0;
        while j < cap
            invariant
                0 <= j <= cap <= sorted@.len(),
                self.wf(),
                pat_l@ == lower_of(pattern@),
                sorted@.len() == matched@.len(),
                forall|u: int|
                    0 <= u < matched@.len() ==> 0 <= (#[trigger] matched@[u])
                        < self.entries@.len() && entry_like(
                        self.entries@[matched@[u] as int],
                        pat_l@,
                    ),
                forall|a: int, b: int|
                    0 <= a < b < matched@.len() ==> (#[trigger] matched@[a]) < (
                    #[trigger] matched@[b]),
                forall|u: int|
                    0 <= u < sorted@.len() ==> 0 <= (#[trigger] sorted@[u]).2 < matched@.len()
                        && sorted@[u] == (
                        neg_len_key(
                            self.entries@[matched@[sorted@[u].2 as int] as int].name@.len() as int,
                        ) as i64,
                        0i64,
                        sorted@[u].2,
                    ),
                forall|a: int, b: int|
                    0 <= a < b < sorted@.len() ==> (#[trigger] sorted@[a]).2 != (
                    #[trigger] sorted@[b]).2,
                forall|a: int, b: int|
                    0 <= a <= b < sorted@.len() ==> key_ge(
                        #[trigger] sorted@[a],
                        #[trigger] sorted@[b],
                    ),
                r@.len() == j,
                forall|u: int|
                    0 <= u < j ==> prefilter_row_match(
                        #[trigger] r@[u],
                        self.entries@[matched@[sorted@[u].2 as int] as int],
                        pat_l@,
                    ) && r@[u].0@ == self.entries@[matched@[sorted@[u].2 as int] as int].path@
                        && neg_len_key(r@[u].1@.len() as int) == sorted@[u].0 as int,
            decreases cap - j,
        {
            let e_idx = matched[sorted[j].2];
            let e = &self.entries[e_idx];
            r.push((e.path.clone(), e.name.clone(), e.modified_at));
            j += 1;
        }
        proof {
            lemma_count_like_bounds(self.entries@, self.entries@.len() as int, pat_l@);
            assert forall|j2: int| 0 <= j2 < r@.len() implies exists|k: int|
                0 <= k < self.entries@.len() && prefilter_row_match(
                    #[trigger] r@[j2],
                    self.entries@[k],
                    lower_of(pattern@),
                ) by {
                let k = matched@[sorted@[j2].2 as int] as int;
                assert(prefilter_row_match(r@[j2], self.entries@[k], lower_of(pattern@)));
            }
            assert forall|a: int, b: int| 0 <= a < b < r@.len() implies (#[trigger] r@[a]).0@
                != (#[trigger] r@[b]).0@ by {
                let ka = matched@[sorted@[a].2 as int] as int;
                let kb = matched@[sorted@[b].2 as int] as int;
                assert(sorted@[a].2 != sorted@[b].2);
                if sorted@[a].2 < sorted@[b].2 {
                    assert(matched@[sorted@[a].2 as int] < matched@[sorted@[b].2 as int]);
                } else {
                    assert(matched@[sorted@[b].2 as int] < matched@[sorted@[a].2 as int]);
                }
                if ka < kb {
                    assert(self.entries@[ka].path@ != self.entries@[kb].path@);
                } else {
                    assert(self.entries@[kb].path@ != self.entries@[ka].path@);
                }
            }
            assert forall|a: int, b: int| 0 <= a <= b < r@.len() implies neg_len_key(
                (#[trigger] r@[a]).1@.len() as int,
            ) >= neg_len_key((#[trigger] r@[b]).1@.len() as int) by {
                assert(key_ge(sorted@[a], sorted@[b]));
            }
            assert forall|k: int|
                0 <= k < self.entries@.len() && entry_like(
                    #[trigger] self.entries@[k],
                    lower_of(pattern@),
                ) && limit > 0 implies (exists|j2: int|
                0 <= j2 < r@.len() && (#[trigger] r@[j2]).0@ == self.entries@[k].path@) || (
            r@.len() > 0 && r@.len() == limit && neg_len_key(self.entries@[k].name@.len() as int)
                <= neg_len_key(r@[r@.len() - 1].1@.len() as int)) by {
                assert(entry_like(self.entries@[k], pat_l@));
                let t0 = choose|t: int| 0 <= t < matched@.len() && matched@[t] == k;
                assert(keys@[t0] == (
                    neg_len_key(self.entries@[k].name@.len() as int) as i64,
                    0i64,
                    t0 as usize,
                ));
                assert(keys@.contains(keys@[t0]));
                assert(keys@.to_multiset().count(keys@[t0]) > 0);
                assert(sorted@.to_multiset().count(keys@[t0]) > 0);
                assert(sorted@.contains(keys@[t0]));
                let s0 = choose|s: int| 0 <= s < sorted@.len() && sorted@[s] == keys@[t0];
                assert(sorted@[s0].2 == t0 as usize);
                if s0 < cap {
                    assert(r@[s0].0@ == self.entries@[matched@[sorted@[s0].2 as int] as int].path@);
                    assert(matched@[sorted@[s0].2 as int] as int == k);
                } else {
                    // the row fell past the cut: the kept rows' keys bound
                    // its own
                    assert(cap < sorted@.len());
                    assert(cap == limit);
                    assert(key_ge(sorted@[cap - 1], sorted@[s0]));
                    assert(neg_len_key(r@[cap - 1].1@.len() as int) == sorted@[cap - 1].0 as int);
                    assert(sorted@[s0].0 as int == neg_len_key(
                        self.entries@[k].name@.len() as int,
                    ));
                }
            }
        }
        r
    }

    /// A bounded scan with no pre-filter: the first `limit` entries in
    /// store order, for patterns with no derivable pre-filter.
    pub fn prefilter_all(&self, limit: usize) -> (r: Vec<(String, String, Option<i64>)>)
        ensures
            r@.len() == vstd::math::min(limit as int, self.entries@.len() as int),
            forall|j: int|
                0 <= j < r@.len() ==> (#[trigger] r@[j]).0@ == self.entries@[j].path@ && r@[j].1@
                    == self.entries@[j].name@ && r@[j].2 == self.entries@[j].modified_at,
    {
        let n: usize = if self.entries.len() < limit {
            self.entries.len()
        } else {
            limit
        };
        let mut r: Vec<(String, String, Option<i64>)> = Vec::new();
        let mut i: usize = 0;
        while i < n
            invariant
                0 <= i <= n <= self.entries@.len(),
                r@.len() == i,
                forall|j: int|
                    0 <= j < i ==> (#[trigger] r@[j]).0@ == self.entries@[j].path@ && r@[j].1@
                        == self.entries@[j].name@ && r@[j].2 == self.entries@[j].modified_at,
            decreases n - i,
        {
            let e = &self.entries[i];
            r.push((e.path.clone(), e.name.clone(), e.modified_at));
            i += 1;
        }
        r
    }

    /// The full snapshot the fast-path engines load: one row per entry,
    /// with the name pre-folded, ordered by name length and then by the
    /// name itself.
    pub fn snapshot(&self) -> (r: Vec<crate::fzf::FileIndex>)
        requires
            self.wf(),
        ensures
            r@.len() == self.entries@.len(),
            forall|j: int| 0 <= j < r@.len() ==> (#[trigger] r@[j]).wf(),
            forall|j: int|
                0 <= j < r@.len() ==> exists|k: int|
                    0 <= k < self.entries@.len() && (#[trigger] r@[j]).name@
                        == self.entries@[k].name@ && r@[j].path@ == self.entries@[k].path@ && r@[
                        j
                    ].modified_at == self.entries@[k].modified_at,
            forall|i: int, j: int|
                0 <= i <= j < r@.len() ==> name_order_le(#[trigger] r@[i], #[trigger] r@[j]),
    {
        let mut rows: Vec<crate::fzf::FileIndex> = Vec::new();
        let mut i: usize = 0;
        while i < self.entries.len()
            invariant
                0 <= i <= self.entries@.len(),
                self.wf(),
                rows@.len() == i,
                forall|j: int| 0 <= j < i ==> (#[trigger] rows@[j]).wf(),
                forall|j: int|
                    0 <= j < i ==> (#[trigger] rows@[j]).name@ == self.entries@[j].name@ && rows@[
                        j
                    ].path@ == self.entries@[j].path@ && rows@[j].modified_at
                        == self.entries@[j].modified_at,
            decreases self.entries@.len() - i,
        {
            let e = &self.entries[i];
            rows.push(crate::fzf::FileIndex::new(e.name.clone(), e.path.clone(), e.modified_at));
            i += 1;
        }
        let ghost built = rows@;
        let r = sort_snapshot_rows(rows);
        proof {
            assert forall|j: int| 0 <= j < r@.len() implies (#[trigger] r@[j]).wf() && (exists|
                k: int,
            |
                0 <= k < self.entries@.len() && r@[j].name@ == (
                #[trigger] self.entries@[k]).name@ && r@[j].path@ == self.entries@[k].path@ && r@[
                    j
                ].modified_at == self.entries@[k].modified_at) by {
                assert(r@.contains(r@[j]));
                assert(r@.to_multiset().count(r@[j]) > 0);
                assert(built.to_multiset().count(r@[j]) > 0);
                assert(built.contains(r@[j]));
                let t = choose|t: int| 0 <= t < built.len() && built[t] == r@[j];
                assert(built[t].wf());
                assert(r@[j].name@ == self.entries@[t].name@);
            }
        }
        r
    }

    /// How many entries are indexed, and the latest `indexed_at`.
    pub fn index_status(&self) -> (r: (u64, Option<i64>))
        requires
            self.entries@.len() <= u64::MAX,
        ensures
            r.0 == self.entries@.len(),
            r.1 is None <==> self.entries@.len() == 0,
            r.1 is Some ==> (exists|k: int|
                0 <= k < self.entries@.len() && (#[trigger] self.entries@[k]).indexed_at == r.1->0)
                && (forall|k: int|
                0 <= k < self.entries@.len() ==> (#[trigger] self.entries@[k]).indexed_at
                    <= r.1->0),
    {
        if self.entries.len() == 0 {
            return (0, None);
        }
        let mut m: i64 = self.entries[0].indexed_at;
        let mut i: usize = 1;
        while i < self.entries.len()
            invariant
                1 <= i <= self.entries@.len(),
                exists|k: int|
                    0 <= k < i && (#[trigger] self.entries@[k]).indexed_at == m,
                forall|k: int| 0 <= k < i ==> (#[trigger] self.entries@[k]).indexed_at <= m,
            decreases self.entries@.len() - i,
        {
            if self.entries[i].indexed_at > m {
                m = self.entries[i].indexed_at;
            }
            i += 1;
        }
        (self.entries.len() as u64, Some(m))
    }
}

} // verus!
