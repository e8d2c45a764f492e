//! The search entry point end to end: planning, pre-filtering, pattern
//! matching, ranking and the result cache.
use file_finder::cache::{PatternCache, SearchCache};
use file_finder::search::search_files;
use file_finder::store::{Store, WalkedEntry};

fn walked(path: &str, name: &str) -> WalkedEntry {
    WalkedEntry { path: path.to_string(), name: name.to_string(), modified_at: None }
}

fn indexed(entries: &[(&str, &str)]) -> Store {
    let mut store = Store::new();
    let items: Vec<WalkedEntry> = entries.iter().map(|(p, n)| walked(p, n)).collect();
    store.reindex_root(&"/r".to_string(), &"r".to_string(), &items, true, 9);
    store
}

fn run(store: &Store, query: &str, now: i64) -> Vec<String> {
    let mut cache = SearchCache::new();
    let mut pats = PatternCache::new();
    search_files(store, &mut cache, &mut pats, query, None, None, now)
        .into_iter()
        .map(|e| e.name)
        .collect()
}

#[test]
fn extension_glob_matches_case_insensitively() {
    let store = indexed(&[
        ("/r/notes.txt", "notes.txt"),
        ("/r/NOTES.TXT", "NOTES.TXT"),
        ("/r/notes.md", "notes.md"),
        ("/r/notes.txt.bak", "notes.txt.bak"),
    ]);
    let names = run(&store, "*.txt", 0);
    assert!(names.contains(&"notes.txt".to_string()));
    assert!(names.contains(&"NOTES.TXT".to_string()));
    assert!(!names.contains(&"notes.md".to_string()));
    assert!(!names.contains(&"notes.txt.bak".to_string()));
}

#[test]
fn prefix_glob_ranks_exact_stem_first() {
    let store = indexed(&[
        ("/r/biglog.txt", "biglog.txt"),
        ("/r/logger.py", "logger.py"),
        ("/r/log", "log"),
    ]);
    let names = run(&store, "log*", 0);
    assert!(!names.contains(&"biglog.txt".to_string()));
    let log_pos = names.iter().position(|n| n == "log").unwrap();
    let logger_pos = names.iter().position(|n| n == "logger.py").unwrap();
    assert!(log_pos < logger_pos);
}

#[test]
fn empty_and_short_queries_return_nothing() {
    let store = indexed(&[("/r/a.txt", "a.txt")]);
    assert!(run(&store, "", 0).is_empty());
    assert!(run(&store, "   ", 0).is_empty());
    assert!(run(&store, "a", 0).is_empty());
}

#[test]
fn literal_search_finds_substrings() {
    let store = indexed(&[
        ("/r/yearly_budget.xlsx", "yearly_budget.xlsx"),
        ("/r/readme.md", "readme.md"),
    ]);
    let names = run(&store, "budget", 0);
    assert_eq!(names, vec!["yearly_budget.xlsx".to_string()]);
}

#[test]
fn multi_word_query_goes_through_the_matching_engine() {
    let store = indexed(&[
        ("/r/find-uname.py", "find-uname.py"),
        ("/r/other.py", "other.py"),
    ]);
    let names = run(&store, "find uname", 0);
    assert_eq!(names, vec!["find-uname.py".to_string()]);
}

#[test]
fn cache_serves_identical_query_within_ttl() {
    let store = indexed(&[("/r/report.txt", "report.txt")]);
    let mut cache = SearchCache::new();
    let mut pats = PatternCache::new();
    let first = search_files(&store, &mut cache, &mut pats, "report", None, None, 0);
    assert_eq!(first.len(), 1);

    // the index changes, but the cached answer is served while fresh
    let grown = indexed(&[
        ("/r/report.txt", "report.txt"),
        ("/r/report2.txt", "report2.txt"),
    ]);
    let second = search_files(&grown, &mut cache, &mut pats, "report", None, None, 10);
    assert_eq!(second.len(), first.len());
    for (a, b) in first.iter().zip(second.iter()) {
        assert_eq!(a.path, b.path);
        assert_eq!(a.name, b.name);
    }

    // after the TTL the query recomputes against the new index
    let third = search_files(&grown, &mut cache, &mut pats, "report", None, None, 100);
    assert_eq!(third.len(), 2);
}

#[test]
fn different_options_miss_the_cache() {
    let store = indexed(&[("/r/report.txt", "report.txt")]);
    let mut cache = SearchCache::new();
    let mut pats = PatternCache::new();
    let with_default = search_files(&store, &mut cache, &mut pats, "report", None, None, 0);
    let strict = file_finder::SearchOptions {
        search_folders: true,
        enable_fuzzy: true,
        strict_mode: true,
        filename_only: false,
    };
    let with_strict = search_files(&store, &mut cache, &mut pats, "report", Some(strict), None, 0);
    // both hit the same file here, each computed under its own key
    assert_eq!(with_default.len(), 1);
    assert_eq!(with_strict.len(), 1);
}

#[test]
fn result_cache_unit_behavior() {
    let mut cache = SearchCache::new();
    let q = "notes".to_string();
    let opts = file_finder::SearchOptions::default();
    assert!(cache.lookup(&q, &opts, 0).is_none());
    let results = vec![file_finder::FileEntry {
        path: "/r/notes.txt".to_string(),
        name: "notes.txt".to_string(),
        last_accessed: None,
        access_count: 0,
        modified_at: None,
    }];
    cache.insert(&q, &opts, &results, 0);
    let hit = cache.lookup(&q, &opts, 29).unwrap();
    assert_eq!(hit.len(), 1);
    assert_eq!(hit[0].path, "/r/notes.txt");
    // at the TTL the entry no longer serves
    assert!(cache.lookup(&q, &opts, 30).is_none());
    // past the sweep age it is gone entirely
    cache.insert(&q, &opts, &results, 50);
    assert!(cache.lookup(&q, &opts, 200).is_none());
}

#[test]
fn debug_scores_name_their_candidates() {
    let mut state = file_finder::commands::AppState::new();
    state.store.reindex_root(
        &"/r".to_string(),
        &"r".to_string(),
        &vec![walked("/r/budget.xlsx", "budget.xlsx"), walked("/r/plan.md", "plan.md")],
        true,
        1,
    );
    let rows = state.debug_search_scores("budget");
    assert_eq!(rows.len(), 1);
    assert_eq!(rows[0].0, "budget.xlsx");
    assert!(rows[0].1 > 0);
    assert_eq!(rows[0].2, "/r/budget.xlsx");
}

#[test]
fn time_bound_filters_candidates() {
    let mut store = Store::new();
    let items = vec![
        WalkedEntry { path: "/r/old_report.txt".to_string(), name: "old_report.txt".to_string(), modified_at: Some(100) },
        WalkedEntry { path: "/r/new_report.txt".to_string(), name: "new_report.txt".to_string(), modified_at: Some(5000) },
        WalkedEntry { path: "/r/undated_report.txt".to_string(), name: "undated_report.txt".to_string(), modified_at: None },
    ];
    store.reindex_root(&"/r".to_string(), &"r".to_string(), &items, true, 9);
    let mut cache = SearchCache::new();
    let mut pats = PatternCache::new();
    let names: Vec<String> =
        search_files(&store, &mut cache, &mut pats, "report", None, Some(1000), 0)
            .into_iter()
            .map(|e| e.name)
            .collect();
    assert_eq!(names, vec!["new_report.txt".to_string()]);
}

#[test]
fn explicit_regex_matches() {
    let store = indexed(&[
        ("/r/a1.log", "a1.log"),
        ("/r/ab.log", "ab.log"),
    ]);
    let names = run(&store, "/a[0-9]\\.log/", 0);
    assert_eq!(names, vec!["a1.log".to_string()]);
}

#[test]
fn invalid_regex_falls_back_to_the_matching_engine() {
    let store = indexed(&[("/r/abc(def", "abc(def")]);
    let names = run(&store, "/abc(def/", 0);
    assert_eq!(names, vec!["abc(def".to_string()]);
}

#[test]
fn favorite_outranks_plain_mid_tier_match() {
    let mut store = indexed(&[
        ("/r/ab.cd", "ab.cd"),
        ("/r/b.cx", "b.cx"),
    ]);
    let mut cache = SearchCache::new();
    let mut pats = PatternCache::new();
    // plain: ties keep scan order, the earlier entry first
    let before: Vec<String> =
        search_files(&store, &mut cache, &mut pats, "b.c", None, None, 0).into_iter().map(|e| e.name).collect();
    assert_eq!(before, vec!["ab.cd".to_string(), "b.cx".to_string()]);
    // favoriting the later match lifts it to the top
    store.toggle_favorite(&"/r/b.cx".to_string(), &"b.cx".to_string(), 1);
    let mut cache2 = SearchCache::new();
    let after: Vec<String> =
        search_files(&store, &mut cache2, &mut pats, "b.c", None, None, 0).into_iter().map(|e| e.name).collect();
    assert_eq!(after, vec!["b.cx".to_string(), "ab.cd".to_string()]);
    // toggling off restores the original ordering
    store.toggle_favorite(&"/r/b.cx".to_string(), &"b.cx".to_string(), 2);
    let mut cache3 = SearchCache::new();
    let restored: Vec<String> =
        search_files(&store, &mut cache3, &mut pats, "b.c", None, None, 0).into_iter().map(|e| e.name).collect();
    assert_eq!(restored, before);
}
