//! The two in-memory fast-path engines and the command layer around
//! them.
use file_finder::commands::{filter_junk, AppState};
use file_finder::fzf::{FileIndex, FzfSearchEngine};
use file_finder::simple::SimpleSearchEngine;
use file_finder::store::WalkedEntry;

fn row(path: &str, name: &str) -> FileIndex {
    FileIndex::new(name.to_string(), path.to_string(), None)
}

fn loaded_fzf(rows: Vec<FileIndex>) -> FzfSearchEngine {
    let mut e = FzfSearchEngine::new();
    e.load(rows, 0);
    e
}

#[test]
fn fzf_exact_match_ranks_first() {
    let e = loaded_fzf(vec![
        row("/a/mainline.rs", "mainline.rs"),
        row("/a/main", "main"),
        row("/a/maintain.txt", "maintain.txt"),
    ]);
    let r = e.search("main", 10);
    assert!(!r.is_empty());
    assert_eq!(r[0].1.name, "main");
    assert_eq!(r[0].0, 10000);
    for w in r.windows(2) {
        assert!(w[0].0 >= w[1].0);
    }
}

#[test]
fn fzf_prefix_beats_substring() {
    let e = loaded_fzf(vec![
        row("/a/xmainy", "xmainy"),
        row("/a/mainframe", "mainframe"),
    ]);
    let r = e.search("main", 10);
    let prefix_pos = r.iter().position(|(_, f)| f.name == "mainframe").unwrap();
    let contains_pos = r.iter().position(|(_, f)| f.name == "xmainy").unwrap();
    assert!(prefix_pos < contains_pos);
}

#[test]
fn fzf_two_word_variant_probe() {
    let e = loaded_fzf(vec![
        row("/p/file-finder", "file-finder"),
        row("/p/other", "other"),
    ]);
    let r = e.search("file finder", 10);
    assert!(!r.is_empty());
    assert_eq!(r[0].1.name, "file-finder");
    assert!(r[0].0 >= 15000);
}

#[test]
fn fzf_multi_word_relaxation() {
    // two of three words suffice
    let e = loaded_fzf(vec![row("/docs/alpha/beta-notes.md", "beta-notes.md")]);
    let r = e.search("alpha beta gamma", 10);
    assert!(!r.is_empty());
}

#[test]
fn fzf_empty_query_gives_nothing() {
    let e = loaded_fzf(vec![row("/a/x", "x")]);
    assert!(e.search("", 10).is_empty());
}

#[test]
fn fzf_deduplicates_paths() {
    let e = loaded_fzf(vec![row("/a/main", "main"), row("/b/main", "main")]);
    let r = e.search("main", 10);
    assert_eq!(r.len(), 2);
    assert!(r[0].1.path != r[1].1.path);
}

#[test]
fn simple_engine_scores_and_sorts() {
    let mut e = SimpleSearchEngine::new();
    e.load(vec![
        row("/a/readme.md", "readme.md"),
        row("/a/unrelated.bin", "unrelated.bin"),
        row("/b/read_later/readme_copy.md", "readme_copy.md"),
    ]);
    let r = e.search("readme", 10);
    assert!(r.len() >= 2);
    for w in r.windows(2) {
        assert!(w[0].0 >= w[1].0);
    }
    assert!(e.search("qqqqxz", 10).is_empty());
}

#[test]
fn simple_engine_multi_word_requires_most_words() {
    let mut e = SimpleSearchEngine::new();
    e.load(vec![
        row("/work/desktop/computer.txt", "computer.txt"),
        row("/work/elsewhere/nothing.txt", "nothing.txt"),
    ]);
    let r = e.multi_word_search("desktop comp", 10);
    assert_eq!(r.len(), 1);
    assert_eq!(r[0].1.name, "computer.txt");
}

#[test]
fn junk_folders_are_filtered() {
    let keep = row("/home/u/docs/plan.md", "plan.md");
    let junk_digits = row("/x/Browser/cache/4711", "4711");
    let junk_external = row("/x/__External/0", "0");
    let scored = vec![(5000i64, keep), (5000i64, junk_digits), (5000i64, junk_external)];
    let kept = filter_junk(scored, 2000, false);
    assert_eq!(kept.len(), 1);
    assert_eq!(kept[0].1.name, "plan.md");
}

#[test]
fn low_score_noise_markers_are_filtered() {
    let low = row("/y/UpdateInfo/readme", "readme");
    let high = row("/y/UpdateInfo/readme2", "readme2");
    let kept = filter_junk(vec![(1500i64, low), (2500i64, high)], 2000, false);
    assert_eq!(kept.len(), 1);
    assert_eq!(kept[0].1.name, "readme2");
}

#[test]
fn app_state_wires_the_engines() {
    let mut state = AppState::new();
    let items = vec![
        WalkedEntry { path: "/r/todo.txt".to_string(), name: "todo.txt".to_string(), modified_at: None },
        WalkedEntry { path: "/r/done.txt".to_string(), name: "done.txt".to_string(), modified_at: None },
    ];
    state.store.reindex_root(&"/r".to_string(), &"r".to_string(), &items, true, 3);
    state.refresh_fzf_index();
    let hits = state.fzf_search("todo", None);
    assert_eq!(hits.len(), 1);
    assert_eq!(hits[0].1, "todo.txt");
    let simple_hits = state.simple_search("todo", None);
    assert!(!simple_hits.is_empty());
    assert_eq!(simple_hits[0].1, "todo.txt");
    let searched = state.search_files("todo", None);
    assert_eq!(searched.len(), 1);
}

#[test]
fn natural_search_rewrites_and_searches() {
    let mut state = AppState::new();
    let items = vec![
        WalkedEntry { path: "/r/budget.xlsx".to_string(), name: "budget.xlsx".to_string(), modified_at: None },
        WalkedEntry { path: "/r/notes.md".to_string(), name: "notes.md".to_string(), modified_at: None },
    ];
    state.store.reindex_root(&"/r".to_string(), &"r".to_string(), &items, true, 3);
    // the fillers are stripped and the remaining keyword is searched
    let hits = state.natural_search("where is my budget");
    assert!(hits.iter().any(|e| e.name == "budget.xlsx"));
}

#[test]
fn record_open_feeds_recent_files() {
    let mut state = AppState::new();
    state.record_open(&"/r/a/plan.md".to_string());
    state.record_open(&"/r/a/plan.md".to_string());
    let recent = state.get_recent_files();
    assert_eq!(recent.len(), 1);
    assert_eq!(recent[0].name, "plan.md");
    assert_eq!(recent[0].access_count, 2);
}

#[test]
fn toggle_favorite_through_the_state() {
    let mut state = AppState::new();
    assert!(state.toggle_favorite(&"/r/x.bin".to_string()));
    assert!(!state.toggle_favorite(&"/r/x.bin".to_string()));
}
