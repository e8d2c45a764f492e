//! The store model: reindexing, favorites, recency, roots, status.
use file_finder::store::{Store, WalkedEntry};

fn walked(path: &str, name: &str) -> WalkedEntry {
    WalkedEntry { path: path.to_string(), name: name.to_string(), modified_at: Some(11) }
}

fn small_index() -> Store {
    let mut store = Store::new();
    let items = vec![
        walked("/home/u/notes.txt", "notes.txt"),
        walked("/home/u/log", "log"),
        walked("/home/u/src/logger.py", "logger.py"),
    ];
    store.reindex_root(&"/home/u".to_string(), &"u".to_string(), &items, true, 100);
    store
}

#[test]
fn reindex_inserts_and_counts() {
    let mut store = Store::new();
    let items = vec![walked("/r/a", "a"), walked("/r/b", "b"), walked("/r/a", "a")];
    let inserted = store.reindex_root(&"/r".to_string(), &"r".to_string(), &items, true, 5);
    // the duplicate walk entry is skipped
    assert_eq!(inserted, 2);
    assert_eq!(store.entries.len(), 2);
}

#[test]
fn incremental_reindex_skips_known_paths() {
    let mut store = Store::new();
    let items = vec![walked("/r/a", "a"), walked("/r/b", "b")];
    store.reindex_root(&"/r".to_string(), &"r".to_string(), &items, true, 5);
    let again = vec![walked("/r/a", "a"), walked("/r/c", "c")];
    let inserted = store.reindex_root(&"/r".to_string(), &"r".to_string(), &again, false, 6);
    assert_eq!(inserted, 1);
    assert_eq!(store.entries.len(), 3);
}

#[test]
fn full_reindex_replaces_the_roots_slice() {
    let mut store = Store::new();
    store.reindex_root(
        &"/r".to_string(),
        &"r".to_string(),
        &vec![walked("/r/a", "a"), walked("/r/b", "b")],
        true,
        5,
    );
    store.reindex_root(
        &"/other".to_string(),
        &"other".to_string(),
        &vec![walked("/other/z", "z")],
        true,
        6,
    );
    // clearing /r drops only /r's slice
    store.reindex_root(&"/r".to_string(), &"r".to_string(), &vec![walked("/r/c", "c")], true, 7);
    let paths: Vec<String> = store.entries.iter().map(|e| e.path.clone()).collect();
    assert!(paths.contains(&"/other/z".to_string()));
    assert!(paths.contains(&"/r/c".to_string()));
    assert!(!paths.contains(&"/r/a".to_string()));
}

#[test]
fn single_active_root() {
    let mut store = Store::new();
    store.reindex_root(&"/r1".to_string(), &"r1".to_string(), &vec![], true, 5);
    store.reindex_root(&"/r2".to_string(), &"r2".to_string(), &vec![], true, 6);
    let active: Vec<bool> = store.roots.iter().map(|r| r.is_active).collect();
    assert_eq!(active.iter().filter(|a| **a).count(), 1);
    let roots = store.list_indexed_roots();
    assert_eq!(roots.len(), 2);
    assert_eq!(roots[0].path, "/r2");
    assert!(roots[0].is_active);
}

#[test]
fn set_active_root_moves_the_mark() {
    let mut store = Store::new();
    store.reindex_root(&"/r1".to_string(), &"r1".to_string(), &vec![], true, 5);
    store.reindex_root(&"/r2".to_string(), &"r2".to_string(), &vec![], true, 6);
    store.set_active_root(&"/r1".to_string());
    for r in store.roots.iter() {
        assert_eq!(r.is_active, r.path == "/r1");
    }
}

#[test]
fn toggle_favorite_flips() {
    let mut store = small_index();
    let p = "/home/u/notes.txt".to_string();
    let n = "notes.txt".to_string();
    assert!(store.toggle_favorite(&p, &n, 50));
    assert_eq!(store.get_favorites(), vec![p.clone()]);
    assert!(!store.toggle_favorite(&p, &n, 51));
    assert!(store.get_favorites().is_empty());
}

#[test]
fn favorites_newest_first() {
    let mut store = Store::new();
    store.toggle_favorite(&"/a".to_string(), &"a".to_string(), 10);
    store.toggle_favorite(&"/b".to_string(), &"b".to_string(), 30);
    store.toggle_favorite(&"/c".to_string(), &"c".to_string(), 20);
    assert_eq!(
        store.get_favorites(),
        vec!["/b".to_string(), "/c".to_string(), "/a".to_string()]
    );
}

#[test]
fn record_access_counts_up() {
    let mut store = small_index();
    let p = "/home/u/log".to_string();
    let n = "log".to_string();
    store.record_access(&p, &n, 200);
    store.record_access(&p, &n, 300);
    let recent = store.recent_files();
    assert_eq!(recent.len(), 1);
    assert_eq!(recent[0].path, p);
    assert_eq!(recent[0].access_count, 2);
    assert_eq!(recent[0].last_accessed, Some(300));
    // joined against the entry for its modification time
    assert_eq!(recent[0].modified_at, Some(11));
}

#[test]
fn recent_files_capped_and_ordered() {
    let mut store = Store::new();
    let mut i = 0;
    while i < 25 {
        let p = format!("/f/{}", i);
        let n = format!("{}", i);
        store.record_access(&p, &n, 1000 + i);
        i += 1;
    }
    // one file opened twice outranks every once-opened file
    store.record_access(&"/f/3".to_string(), &"3".to_string(), 2000);
    let recent = store.recent_files();
    assert_eq!(recent.len(), 20);
    assert_eq!(recent[0].path, "/f/3");
    for w in recent.windows(2) {
        assert!(
            w[0].access_count > w[1].access_count
                || (w[0].access_count == w[1].access_count
                    && w[0].last_accessed >= w[1].last_accessed)
        );
    }
}

#[test]
fn index_status_counts() {
    let store = small_index();
    let (count, last) = store.index_status();
    assert_eq!(count, 3);
    assert_eq!(last, Some(100));
    let empty = Store::new();
    assert_eq!(empty.index_status(), (0, None));
}

#[test]
fn prefilter_shapes() {
    let store = small_index();
    let ends: Vec<char> = "%.txt".chars().collect();
    let got = store.prefilter(&ends, 10);
    assert_eq!(got.len(), 1);
    assert_eq!(got[0].1, "notes.txt");
    let starts: Vec<char> = "log%".chars().collect();
    let got = store.prefilter(&starts, 10);
    assert_eq!(got.len(), 2);
    // shortest names first
    assert_eq!(got[0].1, "log");
    let contains: Vec<char> = "%og%".chars().collect();
    assert_eq!(store.prefilter(&contains, 10).len(), 2);
    assert_eq!(store.prefilter(&contains, 1).len(), 1);
}

#[test]
fn prefilter_is_case_insensitive() {
    let mut store = Store::new();
    store.reindex_root(
        &"/r".to_string(),
        &"r".to_string(),
        &vec![walked("/r/NOTES.TXT", "NOTES.TXT")],
        true,
        5,
    );
    let ends: Vec<char> = "%.txt".chars().collect();
    assert_eq!(store.prefilter(&ends, 10).len(), 1);
}

#[test]
fn snapshot_is_folded_and_ordered() {
    let store = small_index();
    let snap = store.snapshot();
    assert_eq!(snap.len(), 3);
    for row in snap.iter() {
        assert_eq!(row.name_lower, row.name.to_lowercase());
    }
    for w in snap.windows(2) {
        assert!(w[0].name.chars().count() <= w[1].name.chars().count());
    }
}

#[test]
fn snapshot_breaks_length_ties_by_name() {
    let mut store = Store::new();
    let items = vec![
        walked("/r/ccc", "ccc"),
        walked("/r/aaa", "aaa"),
        walked("/r/bbb", "bbb"),
        walked("/r/zz", "zz"),
    ];
    store.reindex_root(&"/r".to_string(), &"r".to_string(), &items, true, 5);
    let names: Vec<String> = store.snapshot().into_iter().map(|f| f.name).collect();
    assert_eq!(
        names,
        vec!["zz".to_string(), "aaa".to_string(), "bbb".to_string(), "ccc".to_string()]
    );
}
