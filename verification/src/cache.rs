//! The cache layer: a TTL'd query-result cache and a compiled-pattern
//! cache, both advisory and bounded.
use vstd::prelude::*;

use crate::outside::{regex_compile, regex_ok, regex_source, CompiledRegex};
use crate::{FileEntry, SearchOptions};

verus! {

/// A hit is served while the entry is younger than this many seconds.
pub open spec fn cache_ttl_secs() -> int {
    30
}

/// Entries at least this old are swept on each access.
pub open spec fn cache_sweep_secs() -> int {
    60
}

/// At most this many results are kept.
pub open spec fn cache_capacity() -> int {
    100
}

/// One cached query result.
pub struct CacheEntry {
    pub query: String,
    pub options: SearchOptions,
    pub stamp: i64,
    pub results: Vec<FileEntry>,
}

/// The two halves of a cache key are equal.
pub open spec fn same_key(e: CacheEntry, q: Seq<char>, o: SearchOptions) -> bool {
    e.query@ == q && e.options == o
}

/// The two entries carry the same key, stamp and results.
pub open spec fn entry_eqv(a: CacheEntry, b: CacheEntry) -> bool {
    a.query@ == b.query@ && a.options == b.options && a.stamp == b.stamp && a.results@
        == b.results@
}

/// `e` carries the same key, stamp and results as one of the first `n`
/// entries of `s`.
pub open spec fn eqv_in_upto(e: CacheEntry, s: Seq<CacheEntry>, n: int) -> bool {
    exists|u: int| 0 <= u < n && entry_eqv(e, #[trigger] s[u])
}

/// Some entry of `s` carries the same key, stamp and results as `e`.
pub open spec fn eqv_present(e: CacheEntry, s: Seq<CacheEntry>) -> bool {
    exists|t: int| 0 <= t < s.len() && entry_eqv(#[trigger] s[t], e)
}

/// Whether the options agree in every flag.
pub fn opts_eq(a: &SearchOptions, b: &SearchOptions) -> (r: bool)
    ensures
        r == (*a == *b),
{
    a.search_folders == b.search_folders && a.enable_fuzzy == b.enable_fuzzy && a.strict_mode
        == b.strict_mode && a.filename_only == b.filename_only
}

/// The TTL'd query-result cache.
pub struct SearchCache {
    pub entries: Vec<CacheEntry>,
}

impl SearchCache {
    /// No two entries share a key, and the cache stays within its
    /// capacity.
    pub open spec fn wf(&self) -> bool {
        &&& (forall|i: int, j: int|
            0 <= i < j < self.entries@.len() ==> !same_key(
                #[trigger] self.entries@[i],
                (#[trigger] self.entries@[j]).query@,
                self.entries@[j].options,
            ))
        &&& self.entries@.len() <= cache_capacity()
    }

    pub fn new() -> (r: SearchCache)
        ensures
            r.wf(),
            r.entries@.len() == 0,
    {
        SearchCache { entries: Vec::new() }
    }

    /// Serves a hit when an entry for this key is younger than the TTL.
    /// Entries as old as the sweep age are dropped first; what is served
    /// is exactly what was stored.
    #[verifier::rlimit(50)]
    pub fn lookup(&mut self, query: &String, options: &SearchOptions, now: i64) -> (r: Option<
        Vec<FileEntry>,
    >)
        requires
            old(self).wf(),
        ensures
            final(self).wf(),
            // each access sweeps: everything still cached is younger than
            // the sweep age and reads an entry that was cached before
            forall|t: int|
                0 <= t < final(self).entries@.len() ==> now - (#[trigger] final(self).entries@[t]).stamp
                    < cache_sweep_secs() && eqv_in_upto(
                    final(self).entries@[t],
                    old(self).entries@,
                    old(self).entries@.len() as int,
                ),
            // and everything younger than the sweep age survives it
            forall|k: int|
                0 <= k < old(self).entries@.len() && now - (#[trigger] old(self).entries@[k]).stamp
                    < cache_sweep_secs() ==> eqv_present(old(self).entries@[k], final(self).entries@),
            match r {
                Some(v) => exists|k: int|
                    0 <= k < old(self).entries@.len() && same_key(
                        #[trigger] old(self).entries@[k],
                        query@,
                        *options,
                    ) && now - old(self).entries@[k].stamp < cache_ttl_secs() && v@ == old(
                        self,
                    ).entries@[k].results@,
                None => forall|k: int|
                    0 <= k < old(self).entries@.len() && same_key(
                        #[trigger] old(self).entries@[k],
                        query@,
                        *options,
                    ) ==> now - old(self).entries@[k].stamp >= cache_ttl_secs(),
            },
    {
        // sweep entries older than the sweep age
        let mut kept: Vec<CacheEntry> = Vec::new();
        let ghost olds = self.entries@;
        proof {
            assert(olds == old(self).entries@);
        }
        let mut i: usize = 0;
        while i < self.entries.len()
            invariant
                0 <= i <= self.entries@.len(),
                self == old(self),
                old(self).wf(),
                olds == old(self).entries@,
                olds == self.entries@,
                kept@.len() <= i,
                forall|t: int| 0 <= t < kept@.len() ==> eqv_in_upto(#[trigger] kept@[t], olds, i as int),
                forall|t: int|
                    0 <= t < kept@.len() ==> now - (#[trigger] kept@[t]).stamp < cache_sweep_secs(),
                forall|a: int, b: int|
                    0 <= a < b < kept@.len() ==> !same_key(
                        #[trigger] kept@[a],
                        (#[trigger] kept@[b]).query@,
                        kept@[b].options,
                    ),
                forall|u: int|
                    0 <= u < i && now - (#[trigger] olds[u]).stamp < cache_sweep_secs()
                        ==> eqv_present(olds[u], kept@),
            decreases self.entries@.len() - i,
        {
            let age_ok = (now as i128) - (self.entries[i].stamp as i128) < 60;
            if age_ok {
                let e = &self.entries[i];
                let ghost old_kept = kept@;
                kept.push(
                    CacheEntry {
                        query: e.query.clone(),
                        options: e.options.clone_opts(),
                        stamp: e.stamp,
                        results: clone_entries(&e.results),
                    },
                );
                proof {
                    assert(entry_eqv(kept@[kept@.len() - 1], olds[i as int]));
                    assert forall|a: int, b: int|
                        0 <= a < b < kept@.len() implies !same_key(
                        #[trigger] kept@[a],
                        (#[trigger] kept@[b]).query@,
                        kept@[b].options,
                    ) by {
                        if b == kept@.len() - 1 {
                            assert(kept@[a] == old_kept[a]);
                            assert(eqv_in_upto(old_kept[a], olds, i as int));
                            let ua = choose|u: int|
                                0 <= u < i && entry_eqv(old_kept[a], #[trigger] olds[u]);
                            assert(!same_key(olds[ua], olds[i as int].query@, olds[i as int].options));
                        }
                    }
                    assert forall|u: int|
                        0 <= u < i + 1 && now - (#[trigger] olds[u]).stamp < cache_sweep_secs()
                        implies eqv_present(olds[u], kept@) by {
                        if u == i {
                            assert(entry_eqv(kept@[kept@.len() - 1], olds[u]));
                        } else {
                            assert(eqv_present(olds[u], old_kept));
                            let t = choose|t: int|
                                0 <= t < old_kept.len() && entry_eqv(#[trigger] old_kept[t], olds[u]);
                            assert(entry_eqv(kept@[t], olds[u]));
                        }
                    }
                    assert forall|t: int|
                        0 <= t < kept@.len() implies eqv_in_upto(
                        #[trigger] kept@[t],
                        olds,
                        i + 1,
                    ) by {
                        if t == kept@.len() - 1 {
                            assert(entry_eqv(kept@[t], olds[i as int]));
                        } else {
                            assert(eqv_in_upto(old_kept[t], olds, i as int));
                            let u = choose|u: int|
                                0 <= u < i && entry_eqv(old_kept[t], #[trigger] olds[u]);
                            assert(entry_eqv(kept@[t], olds[u]));
                        }
                    }
                }
            }
            i += 1;
        }
        self.entries = kept;
        // look for a fresh entry
        let mut j: usize = 0;
        while j < self.entries.len()
            invariant
                0 <= j <= self.entries@.len(),
                olds == old(self).entries@,
                self.entries@.len() <= olds.len(),
                olds.len() <= cache_capacity(),
                forall|t: int|
                    0 <= t < self.entries@.len() ==> now - (#[trigger] self.entries@[t]).stamp
                        < cache_sweep_secs(),
                forall|t: int|
                    0 <= t < self.entries@.len() ==> eqv_in_upto(
                        #[trigger] self.entries@[t],
                        olds,
                        olds.len() as int,
                    ),
                forall|a: int, b: int|
                    0 <= a < b < self.entries@.len() ==> !same_key(
                        #[trigger] self.entries@[a],
                        (#[trigger] self.entries@[b]).query@,
                        self.entries@[b].options,
                    ),
                forall|t: int|
                    0 <= t < j ==> !(same_key(#[trigger] self.entries@[t], query@, *options) && now
                        - self.entries@[t].stamp < cache_ttl_secs()),
                forall|u: int|
                    0 <= u < olds.len() && now - (#[trigger] olds[u]).stamp < cache_sweep_secs()
                        ==> eqv_present(olds[u], self.entries@),
            decreases self.entries@.len() - j,
        {
            let e = &self.entries[j];
            if e.query.eq(query) && opts_eq(&e.options, options) && (now as i128) - (
            e.stamp as i128) < 30 {
                let out = clone_entries(&e.results);
                proof {
                    assert(eqv_in_upto(self.entries@[j as int], olds, olds.len() as int));
                    let u = choose|u: int|
                        0 <= u < olds.len() && entry_eqv(self.entries@[j as int], #[trigger] olds[u]);
                    assert(same_key(old(self).entries@[u], query@, *options));
                    assert(now - old(self).entries@[u].stamp < cache_ttl_secs());
                    assert(out@ == old(self).entries@[u].results@);
                }
                return Some(out);
            }
            j += 1;
        }
        proof {
            assert forall|k: int|
                0 <= k < olds.len() && same_key(#[trigger] olds[k], query@, *options) implies now
                - olds[k].stamp >= cache_ttl_secs() by {
                if now - olds[k].stamp < cache_ttl_secs() {
                    assert(eqv_present(olds[k], self.entries@));
                    let t = choose|t: int|
                        0 <= t < self.entries@.len() && entry_eqv(
                            #[trigger] self.entries@[t],
                            olds[k],
                        );
                    assert(same_key(self.entries@[t], query@, *options));
                }
            }
        }
        None
    }

    /// Stores the results for this key, evicting the oldest entry when
    /// the cache is full; an entry for the same key is replaced.
    pub fn insert(
        &mut self,
        query: &String,
        options: &SearchOptions,
        results: &Vec<FileEntry>,
        now: i64,
    )
        requires
            old(self).wf(),
        ensures
            final(self).wf(),
            final(self).entries@.len() <= cache_capacity(),
            exists|k: int|
                0 <= k < final(self).entries@.len() && same_key(
                    #[trigger] final(self).entries@[k],
                    query@,
                    *options,
                ) && final(self).entries@[k].stamp == now && final(self).entries@[k].results@
                    == results@,
    {
        // drop any entry with the same key
        let mut kept: Vec<CacheEntry> = Vec::new();
        let mut i: usize = 0;
        while i < self.entries.len()
            invariant
                0 <= i <= self.entries@.len(),
                self == old(self),
                old(self).wf(),
                forall|t: int|
                    0 <= t < kept@.len() ==> exists|u: int|
                        0 <= u < i && entry_eqv(#[trigger] kept@[t], self.entries@[u]),
                forall|a: int, b: int|
                    0 <= a < b < kept@.len() ==> !same_key(
                        #[trigger] kept@[a],
                        (#[trigger] kept@[b]).query@,
                        kept@[b].options,
                    ),
                forall|t: int|
                    0 <= t < kept@.len() ==> !same_key(#[trigger] kept@[t], query@, *options),
            decreases self.entries@.len() - i,
        {
            let e = &self.entries[i];
            let is_key = e.query.eq(query) && opts_eq(&e.options, options);
            if !is_key {
                kept.push(
                    CacheEntry {
                        query: e.query.clone(),
                        options: e.options.clone_opts(),
                        stamp: e.stamp,
                        results: clone_entries(&e.results),
                    },
                );
                proof {
                    assert(entry_eqv(kept@.last(), self.entries@[i as int]));
                    assert forall|a: int, b: int|
                        0 <= a < b < kept@.len() implies !same_key(
                        #[trigger] kept@[a],
                        (#[trigger] kept@[b]).query@,
                        kept@[b].options,
                    ) by {
                        if b == kept@.len() - 1 {
                            let ua = choose|u: int|
                                0 <= u < i && entry_eqv(#[trigger] kept@[a], self.entries@[u]);
                            assert(!same_key(
                                self.entries@[ua],
                                self.entries@[i as int].query@,
                                self.entries@[i as int].options,
                            ));
                        }
                    }
                }
            }
            i += 1;
        }
        self.entries = kept;
        // evict the oldest while full
        while self.entries.len() >= 100
            invariant
                forall|a: int, b: int|
                    0 <= a < b < self.entries@.len() ==> !same_key(
                        #[trigger] self.entries@[a],
                        (#[trigger] self.entries@[b]).query@,
                        self.entries@[b].options,
                    ),
                forall|t: int|
                    0 <= t < self.entries@.len() ==> !same_key(
                        #[trigger] self.entries@[t],
                        query@,
                        *options,
                    ),
            decreases self.entries@.len(),
        {
            let mut oldest: usize = 0;
            let mut j: usize = 1;
            while j < self.entries.len()
                invariant
                    0 <= oldest < j <= self.entries@.len(),
                    self.entries@.len() > 0,
                decreases self.entries@.len() - j,
            {
                if self.entries[j].stamp < self.entries[oldest].stamp {
                    oldest = j;
                }
                j += 1;
            }
            let ghost before = self.entries@;
            self.entries.remove(oldest);
            proof {
                assert forall|a: int, b: int|
                    0 <= a < b < self.entries@.len() implies !same_key(
                    #[trigger] self.entries@[a],
                    (#[trigger] self.entries@[b]).query@,
                    self.entries@[b].options,
                ) by {
                    let pa: int = if a < oldest {
                        a
                    } else {
                        a + 1
                    };
                    let pb: int = if b < oldest {
                        b
                    } else {
                        b + 1
                    };
                    assert(self.entries@[a] == before[pa]);
                    assert(self.entries@[b] == before[pb]);
                }
                assert forall|t: int|
                    0 <= t < self.entries@.len() implies !same_key(
                    #[trigger] self.entries@[t],
                    query@,
                    *options,
                ) by {
                    let pt: int = if t < oldest {
                        t
                    } else {
                        t + 1
                    };
                    assert(self.entries@[t] == before[pt]);
                }
            }
        }
        self.entries.push(
            CacheEntry {
                query: query.clone(),
                options: options.clone_opts(),
                stamp: now,
                results: clone_entries(results),
            },
        );
        proof {
            let k = self.entries@.len() - 1;
            assert(same_key(self.entries@[k], query@, *options));
        }
    }
}

/// A value copy of a result list.
pub fn clone_entries(v: &Vec<FileEntry>) -> (r: Vec<FileEntry>)
    ensures
        r@ == v@,
{
    let mut r: Vec<FileEntry> = Vec::new();
    let mut i: usize = 0;
    while i < v.len()
        invariant
            0 <= i <= v@.len(),
            r@ == v@.subrange(0, i as int),
        decreases v@.len() - i,
    {
        let e = &v[i];
        r.push(
            FileEntry {
                path: e.path.clone(),
                name: e.name.clone(),
                last_accessed: e.last_accessed,
                access_count: e.access_count,
                modified_at: e.modified_at,
            },
        );
        i += 1;
        proof {
            assert(r@ =~= v@.subrange(0, i as int));
        }
    }
    proof {
        assert(r@ =~= v@);
    }
    r
}

/// The compiled-pattern cache: cleared wholesale once it outgrows its
/// bound, never evicted one by one.
pub struct PatternCache {
    pub pats: Vec<CompiledRegex>,
}

/// How many compiled patterns are kept before the blunt reset.
pub open spec fn pattern_cache_cap() -> int {
    50
}

impl PatternCache {
    /// Everything cached was once compiled, so every cached pattern is
    /// valid.
    pub open spec fn wf(&self) -> bool {
        forall|k: int|
            0 <= k < self.pats@.len() ==> regex_ok(regex_source(&(#[trigger] self.pats@[k])))
    }

    pub fn new() -> (r: PatternCache)
        ensures
            r.wf(),
            r.pats@.len() == 0,
    {
        PatternCache { pats: Vec::new() }
    }

    /// The cached compiled form of `pattern`, compiling and caching on a
    /// miss; `None` exactly when the pattern is invalid. The whole cache
    /// is cleared first when it has outgrown its bound.
    pub fn get_or_compile(&mut self, pattern: &Vec<char>) -> (r: Option<usize>)
        requires
            old(self).wf(),
        ensures
            final(self).wf(),
            final(self).pats@.len() <= pattern_cache_cap() + 1,
            match r {
                Some(i) => i < final(self).pats@.len() && regex_source(
                    &final(self).pats@[i as int],
                ) == pattern@ && regex_ok(pattern@),
                None => !regex_ok(pattern@),
            },
    {
        if self.pats.len() > 50 {
            self.pats = Vec::new();
        }
        let pat_string = crate::strutil::string_of(pattern);
        let mut i: usize = 0;
        let n = self.pats.len();
        while i < n
            invariant
                0 <= i <= n,
                self.wf(),
                n == self.pats@.len(),
                n <= pattern_cache_cap(),
                pat_string@ == pattern@,
            decreases n - i,
        {
            let hit = crate::strutil::str_eq(self.pats[i].source(), pat_string.as_str());
            if hit {
                return Some(i);
            }
            i += 1;
        }
        match regex_compile(pat_string.as_str()) {
            Some(c) => {
                self.pats.push(c);
                Some(self.pats.len() - 1)
            },
            None => None,
        }
    }
}

} // verus!
