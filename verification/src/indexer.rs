//! The indexer: replaces or extends one root's slice of the index from a
//! walked list of filesystem entries, deduplicating against what is
//! already indexed, and marks that root active.
use vstd::prelude::*;

use crate::store::{
    entry_has_path, IndexedEntry, IndexedRoot, Store, WalkedEntry,
};

verus! {

/// The entries that do not belong to `root`, from `i` on, in order.
pub open spec fn keep_other_roots(s: Seq<IndexedEntry>, i: int, root: Seq<char>) -> Seq<
    IndexedEntry,
>
    decreases s.len() - i when 0 <= i <= s.len()
{
    if i >= s.len() {
        Seq::empty()
    } else {
        (if s[i].root_directory@ == root {
            Seq::empty()
        } else {
            seq![s[i]]
        }) + keep_other_roots(s, i + 1, root)
    }
}

/// The root rows other than `p`, each made inactive, from `i` on.
pub open spec fn others_deactivated(s: Seq<IndexedRoot>, i: int, p: Seq<char>) -> Seq<IndexedRoot>
    decreases s.len() - i when 0 <= i <= s.len()
{
    if i >= s.len() {
        Seq::empty()
    } else {
        (if s[i].path@ == p {
            Seq::empty()
        } else {
            seq![deactivated(s[i])]
        }) + others_deactivated(s, i + 1, p)
    }
}

/// The same root row, inactive.
pub open spec fn deactivated(r: IndexedRoot) -> IndexedRoot {
    IndexedRoot { path: r.path, name: r.name, indexed_at: r.indexed_at, is_active: false }
}

/// The entry a walked item becomes.
pub open spec fn entry_of_walked(w: WalkedEntry, root: String, now: i64) -> IndexedEntry {
    IndexedEntry {
        path: w.path,
        name: w.name,
        root_directory: root,
        indexed_at: now,
        modified_at: w.modified_at,
    }
}

/// Inserting the walked items from `i` on into `cur`: an item whose path
/// is already present is skipped, the first occurrence wins.
pub open spec fn insert_walk(
    cur: Seq<IndexedEntry>,
    w: Seq<WalkedEntry>,
    i: int,
    root: String,
    now: i64,
) -> Seq<IndexedEntry>
    decreases w.len() - i when 0 <= i <= w.len()
{
    if i >= w.len() {
        cur
    } else {
        let cur2 = if entry_has_path(cur, w[i].path@) {
            cur
        } else {
            cur.push(entry_of_walked(w[i], root, now))
        };
        insert_walk(cur2, w, i + 1, root, now)
    }
}

/// Whether the walk descends into an entry: hidden directories are
/// skipped (dotfiles pass), and so are the known dependency/build noise
/// directories.
pub open spec fn walk_allowed(name: Seq<char>, is_dir: bool) -> bool {
    let hidden_dir = name.len() > 0 && name[0] == '.' && is_dir && name != "."@ && name != ".."@;
    &&& !hidden_dir
    &&& name != "node_modules"@
    &&& name != "target"@
    &&& name != "AppData"@
    &&& name != "Library"@
}

/// The walk filter: which entries the indexer descends into.
pub fn should_walk(name: &str, is_dir: bool) -> (b: bool)
    ensures
        b == walk_allowed(name@, is_dir),
{
    let n = crate::strutil::chars_of(name);
    let hidden_dir = n.len() > 0 && n[0] == '.' && is_dir && !str_is(name, ".") && !str_is(
        name,
        "..",
    );
    !hidden_dir && !str_is(name, "node_modules") && !str_is(name, "target") && !str_is(
        name,
        "AppData",
    ) && !str_is(name, "Library")
}

/// Whether the name spells the literal.
fn str_is(name: &str, lit: &str) -> (b: bool)
    ensures
        b == (name@ == lit@),
{
    crate::strutil::str_eq(name, lit)
}

/// Whether some entry of `v` holds path `p`.
fn vec_has_path(v: &Vec<IndexedEntry>, p: &String) -> (b: bool)
    ensures
        b == entry_has_path(v@, p@),
{
    let mut i: usize = 0;
    while i < v.len()
        invariant
            0 <= i <= v@.len(),
            forall|k: int| 0 <= k < i ==> (#[trigger] v@[k]).path@ != p@,
        decreases v@.len() - i,
    {
        if v[i].path.eq(p) {
            return true;
        }
        i += 1;
    }
    false
}

impl Store {
    /// Reindexes one root from the walked entries: with `clear_existing`
    /// the root's old slice is dropped first, otherwise already-present
    /// paths are skipped; new entries are stamped with `now`; the root
    /// row becomes the single active root. Returns how many entries were
    /// inserted.
    pub fn reindex_root(
        &mut self,
        root_path: &String,
        root_name: &String,
        walked: &Vec<WalkedEntry>,
        clear_existing: bool,
        now: i64,
    ) -> (inserted: usize)
        requires
            old(self).wf(),
        ensures
            final(self).wf(),
            final(self).recent@ == old(self).recent@,
            final(self).favorites@ == old(self).favorites@,
            final(self).entries@ == insert_walk(
                (if clear_existing {
                    keep_other_roots(old(self).entries@, 0, root_path@)
                } else {
                    old(self).entries@
                }),
                walked@,
                0,
                *root_path,
                now,
            ),
            final(self).entries@.len() == (if clear_existing {
                keep_other_roots(old(self).entries@, 0, root_path@)
            } else {
                old(self).entries@
            }).len() + inserted,
            final(self).roots@ == others_deactivated(old(self).roots@, 0, root_path@).push(
                IndexedRoot {
                    path: *root_path,
                    name: *root_name,
                    indexed_at: now,
                    is_active: true,
                },
            ),
    {
        // the root's slice: cleared or kept
        let mut cur: Vec<IndexedEntry> = Vec::new();
        let ghost base = if clear_existing {
            keep_other_roots(old(self).entries@, 0, root_path@)
        } else {
            old(self).entries@
        };
        if clear_existing {
            let mut i: usize = 0;
            while i < self.entries.len()
                invariant
                    0 <= i <= self.entries@.len(),
                    self == old(self),
                    old(self).wf(),
                    cur@ + keep_other_roots(self.entries@, i as int, root_path@)
                        == keep_other_roots(self.entries@, 0, root_path@),
                    forall|a: int, b: int|
                        0 <= a < b < cur@.len() ==> (#[trigger] cur@[a]).path@ != (
                        #[trigger] cur@[b]).path@,
                    forall|a: int|
                        0 <= a < cur@.len() ==> exists|b: int|
                            0 <= b < i && #[trigger] cur@[a] == self.entries@[b],
                decreases self.entries@.len() - i,
            {
                let e = &self.entries[i];
                let ghost before = cur@;
                if !e.root_directory.eq(root_path) {
                    cur.push(
                        IndexedEntry {
                            path: e.path.clone(),
                            name: e.name.clone(),
                            root_directory: e.root_directory.clone(),
                            indexed_at: e.indexed_at,
                            modified_at: e.modified_at,
                        },
                    );
                    proof {
                        assert(cur@.last() == self.entries@[i as int]);
                        assert(before + (seq![self.entries@[i as int]] + keep_other_roots(
                            self.entries@,
                            i + 1,
                            root_path@,
                        )) =~= cur@ + keep_other_roots(self.entries@, i + 1, root_path@));
                        assert forall|a: int, b: int|
                            0 <= a < b < cur@.len() implies (#[trigger] cur@[a]).path@ != (
                        #[trigger] cur@[b]).path@ by {
                            if b == cur@.len() - 1 {
                                let ba = choose|t: int|
                                    0 <= t < i && #[trigger] before[a] == self.entries@[t];
                                assert(self.entries@[ba].path@ != self.entries@[i as int].path@);
                            }
                        }
                    }
                } else {
                    proof {
                        assert(before + (Seq::<IndexedEntry>::empty() + keep_other_roots(
                            self.entries@,
                            i + 1,
                            root_path@,
                        )) =~= cur@ + keep_other_roots(self.entries@, i + 1, root_path@));
                    }
                }
                i += 1;
            }
            proof {
                assert(cur@ + keep_other_roots(self.entries@, self.entries@.len() as int, root_path@)
                    =~= cur@);
                assert(cur@ =~= base);
            }
        } else {
            let mut i: usize = 0;
            while i < self.entries.len()
                invariant
                    0 <= i <= self.entries@.len(),
                    self == old(self),
                    old(self).wf(),
                    cur@ == self.entries@.subrange(0, i as int),
                decreases self.entries@.len() - i,
            {
                let e = &self.entries[i];
                cur.push(
                    IndexedEntry {
                        path: e.path.clone(),
                        name: e.name.clone(),
                        root_directory: e.root_directory.clone(),
                        indexed_at: e.indexed_at,
                        modified_at: e.modified_at,
                    },
                );
                i += 1;
                proof {
                    assert(cur@ =~= self.entries@.subrange(0, i as int));
                }
            }
            proof {
                assert(cur@ =~= self.entries@);
            }
        }
        proof {
            assert(forall|a: int, b: int|
                0 <= a < b < base.len() ==> (#[trigger] base[a]).path@ != (
                #[trigger] base[b]).path@);
        }

        // insert the walked entries, skipping already-present paths
        let start_len = cur.len();
        let mut w: usize = 0;
        while w < walked.len()
            invariant
                0 <= w <= walked@.len(),
                self == old(self),
                insert_walk(cur@, walked@, w as int, *root_path, now) == insert_walk(
                    base,
                    walked@,
                    0,
                    *root_path,
                    now,
                ),
                forall|a: int, b: int|
                    0 <= a < b < cur@.len() ==> (#[trigger] cur@[a]).path@ != (
                    #[trigger] cur@[b]).path@,
                cur@.len() >= start_len,
                start_len == base.len(),
            decreases walked@.len() - w,
        {
            let we = &walked[w];
            if !vec_has_path(&cur, &we.path) {
                cur.push(
                    IndexedEntry {
                        path: we.path.clone(),
                        name: we.name.clone(),
                        root_directory: root_path.clone(),
                        indexed_at: now,
                        modified_at: we.modified_at,
                    },
                );
                proof {
                    assert(cur@.last() == entry_of_walked(walked@[w as int], *root_path, now));
                    assert(cur@ =~= cur@.drop_last().push(
                        entry_of_walked(walked@[w as int], *root_path, now),
                    ));
                }
            }
            w += 1;
        }
        let inserted = cur.len() - start_len;

        // the reindexed root becomes the single active root
        let mut new_roots: Vec<IndexedRoot> = Vec::new();
        let mut i: usize = 0;
        while i < self.roots.len()
            invariant
                0 <= i <= self.roots@.len(),
                self == old(self),
                new_roots@ + others_deactivated(self.roots@, i as int, root_path@)
                    == others_deactivated(self.roots@, 0, root_path@),
            decreases self.roots@.len() - i,
        {
            let r = &self.roots[i];
            let ghost before = new_roots@;
            if !r.path.eq(root_path) {
                new_roots.push(
                    IndexedRoot {
                        path: r.path.clone(),
                        name: r.name.clone(),
                        indexed_at: r.indexed_at,
                        is_active: false,
                    },
                );
                proof {
                    assert(new_roots@.last() == deactivated(self.roots@[i as int]));
                    assert(before + (seq![deactivated(self.roots@[i as int])]
                        + others_deactivated(self.roots@, i + 1, root_path@)) =~= new_roots@
                        + others_deactivated(self.roots@, i + 1, root_path@));
                }
            } else {
                proof {
                    assert(before + (Seq::<IndexedRoot>::empty() + others_deactivated(
                        self.roots@,
                        i + 1,
                        root_path@,
                    )) =~= new_roots@ + others_deactivated(self.roots@, i + 1, root_path@));
                }
            }
            i += 1;
        }
        new_roots.push(
            IndexedRoot {
                path: root_path.clone(),
                name: root_name.clone(),
                indexed_at: now,
                is_active: true,
            },
        );
        proof {
            assert(others_deactivated(self.roots@, self.roots@.len() as int, root_path@)
                =~= Seq::<IndexedRoot>::empty());
            assert(new_roots@.drop_last() + others_deactivated(
                self.roots@,
                self.roots@.len() as int,
                root_path@,
            ) =~= new_roots@.drop_last());
            assert(new_roots@ =~= others_deactivated(self.roots@, 0, root_path@).push(
                IndexedRoot {
                    path: *root_path,
                    name: *root_name,
                    indexed_at: now,
                    is_active: true,
                },
            ));
            lemma_others_deactivated_shape(self.roots@, 0, root_path@);
        }
        self.entries = cur;
        self.roots = new_roots;
        proof {
            assert(final(self).wf()) by {
                lemma_others_deactivated_shape(old(self).roots@, 0, root_path@);
            }
        }
        inserted
    }
}

/// Every row of `others_deactivated` is inactive, keeps a path other than
/// `p`, and the rows keep pairwise distinct paths when the input rows had
/// them.
proof fn lemma_others_deactivated_shape(s: Seq<IndexedRoot>, i: int, p: Seq<char>)
    requires
        0 <= i <= s.len(),
        forall|a: int, b: int|
            0 <= a < b < s.len() ==> (#[trigger] s[a]).path@ != (#[trigger] s[b]).path@,
    ensures
        forall|k: int|
            0 <= k < others_deactivated(s, i, p).len() ==> !(#[trigger] others_deactivated(
                s,
                i,
                p,
            )[k]).is_active && others_deactivated(s, i, p)[k].path@ != p,
        forall|a: int, b: int|
            0 <= a < b < others_deactivated(s, i, p).len() ==> (#[trigger] others_deactivated(
                s,
                i,
                p,
            )[a]).path@ != (#[trigger] others_deactivated(s, i, p)[b]).path@,
        forall|k: int|
            0 <= k < others_deactivated(s, i, p).len() ==> exists|t: int|
                i <= t < s.len() && #[trigger] others_deactivated(s, i, p)[k] == deactivated(s[t]),
    decreases s.len() - i,
{
    if i < s.len() {
        lemma_others_deactivated_shape(s, i + 1, p);
        let tail = others_deactivated(s, i + 1, p);
        let whole = others_deactivated(s, i, p);
        if s[i].path@ == p {
            assert(whole =~= tail);
        } else {
            assert(whole =~= seq![deactivated(s[i])] + tail);
            assert forall|k: int|
                0 <= k < whole.len() implies exists|t: int|
                i <= t < s.len() && #[trigger] whole[k] == deactivated(s[t]) by {
                if k == 0 {
                    assert(whole[0] == deactivated(s[i]));
                } else {
                    assert(whole[k] == tail[k - 1]);
                    let t = choose|t: int|
                        i + 1 <= t < s.len() && #[trigger] tail[k - 1] == deactivated(s[t]);
                    assert(whole[k] == deactivated(s[t]));
                }
            }
            assert forall|a: int, b: int|
                0 <= a < b < whole.len() implies (#[trigger] whole[a]).path@ != (
            #[trigger] whole[b]).path@ by {
                if a == 0 {
                    let t = choose|t: int|
                        i + 1 <= t < s.len() && #[trigger] tail[b - 1] == deactivated(s[t]);
                    assert(s[i].path@ != s[t].path@);
                } else {
                    assert(whole[a] == tail[a - 1]);
                    assert(whole[b] == tail[b - 1]);
                }
            }
        }
    }
}

} // verus!
