//! The literal matching engine's tiers, adjustments and boosts.
use file_finder::score::{fuzzy_search_files, QueryCtx, score_candidate};
use file_finder::SearchOptions;

fn opts() -> SearchOptions {
    SearchOptions::default()
}

fn score_of(path: &str, name: &str, query: &str, recent: &[&str], favs: &[&str]) -> Option<i64> {
    let ctx = QueryCtx::new(query);
    let recent: Vec<String> = recent.iter().map(|s| s.to_string()).collect();
    let favs: Vec<String> = favs.iter().map(|s| s.to_string()).collect();
    let is_recent = recent.contains(&path.to_string());
    let is_fav = favs.contains(&path.to_string());
    score_candidate(&path.to_string(), &name.to_string(), &ctx, &opts(), is_recent, is_fav)
}

#[test]
fn exact_match_scores_highest_tier() {
    assert_eq!(score_of("/d/report", "report", "report", &[], &[]), Some(10000));
    // case-insensitive
    assert_eq!(score_of("/d/REPORT", "REPORT", "report", &[], &[]), Some(10000));
}

#[test]
fn exact_outranks_strong_substring() {
    let exact = score_of("/d/report", "report", "report", &[], &[]).unwrap();
    let sub = score_of("/d/report-final", "report-final", "report", &[], &[]).unwrap();
    assert!(exact > sub);
    assert_eq!(sub, 3000 + 1000 + 1200);
}

#[test]
fn library_directory_divides_by_four() {
    let plain = score_of("/home/u/main.rs", "main.rs", "main", &[], &[]).unwrap();
    let lib = score_of("/home/u/node_modules/main.rs", "main.rs", "main", &[], &[]).unwrap();
    assert_eq!(lib, plain / 4);
}

#[test]
fn exact_match_exempt_from_deprioritization() {
    let plain = score_of("/home/u/main.rs", "main.rs", "main.rs", &[], &[]).unwrap();
    let lib = score_of("/home/u/node_modules/main.rs", "main.rs", "main.rs", &[], &[]).unwrap();
    assert_eq!(plain, 10000);
    assert_eq!(lib, 10000);
}

#[test]
fn recency_doubles_and_favorite_triples() {
    let base = score_of("/d/report-x", "report-x", "report", &[], &[]).unwrap();
    let recent = score_of("/d/report-x", "report-x", "report", &["/d/report-x"], &[]).unwrap();
    let fav = score_of("/d/report-x", "report-x", "report", &[], &["/d/report-x"]).unwrap();
    let both = score_of("/d/report-x", "report-x", "report", &["/d/report-x"], &["/d/report-x"])
        .unwrap();
    assert_eq!(recent, base * 2);
    assert_eq!(fav, base * 3);
    assert_eq!(both, base * 6);
    assert!(recent >= base && fav >= base && both >= base);
}

#[test]
fn favorite_base_3000_beats_plain_4500() {
    // an extension-carrying query: a mid-name substring scores the 3000
    // tier, a name-prefix hit the 4500 tier
    let fav3000 = score_of("/d/ab.cd", "ab.cd", "b.c", &[], &["/d/ab.cd"]).unwrap();
    let plain4500 = score_of("/d/b.cx", "b.cx", "b.c", &[], &[]).unwrap();
    assert_eq!(fav3000, 9000);
    assert_eq!(plain4500, 4500);
    assert!(fav3000 > plain4500);
    // with the favorite cleared the order flips back
    let unfav = score_of("/d/ab.cd", "ab.cd", "b.c", &[], &[]).unwrap();
    assert_eq!(unfav, 3000);
    assert!(unfav < plain4500);
}

#[test]
fn normalization_tier_matches_separated_names() {
    // the literal phrase is no substring, the normalized forms meet
    let s = score_of("/d/find-uname.py", "find-uname.py", "find uname", &[], &[]).unwrap();
    assert!(s >= 2900);
    let single = score_of("/d/find-uname.py", "find-uname.py", "finduname", &[], &[]).unwrap();
    assert_eq!(single, 2900 + 500);
}

#[test]
fn extension_query_needs_the_literal_substring() {
    // `main.js` sits inside `domain.js` as characters, so it matches
    assert_eq!(score_of("/d/domain.js", "domain.js", "main.js", &[], &[]), Some(3000));
    // but a fuzzy-only candidate is refused once the query carries a dot
    assert_eq!(score_of("/d/ma_in.js", "ma_in.js", "main.js", &[], &[]), None);
    // without the dot the same characters fall through to fuzzy matching
    let relaxed = score_of("/d/ma_in.js", "ma_in.js", "mainjs", &[], &[]);
    assert!(relaxed.is_none() || relaxed.unwrap() > 0);
}

#[test]
fn strict_mode_needs_a_prefix() {
    let strict = SearchOptions { strict_mode: true, ..SearchOptions::default() };
    let ctx = QueryCtx::new("port");
    let hit = score_candidate(
        &"/d/report".to_string(),
        &"report".to_string(),
        &ctx,
        &strict,
        false,
        false,
    );
    assert_eq!(hit, None);
    let ctx2 = QueryCtx::new("rep");
    let pref = score_candidate(
        &"/d/report".to_string(),
        &"report".to_string(),
        &ctx2,
        &strict,
        false,
        false,
    );
    assert!(pref.is_some());
    // a dotted query in strict mode also keeps only the prefix case
    let ctx3 = QueryCtx::new("b.c");
    let mid = score_candidate(&"/d/ab.cd".to_string(), &"ab.cd".to_string(), &ctx3, &strict, false, false);
    assert_eq!(mid, None);
    let pref2 = score_candidate(&"/d/b.cx".to_string(), &"b.cx".to_string(), &ctx3, &strict, false, false);
    assert_eq!(pref2, Some(4500));
}

#[test]
fn folder_tier_matches_path_components() {
    // nothing in the name, but a folder on the path matches
    let s = score_of("/home/u/projects/website/x.bin", "x.bin", "website", &[], &[]).unwrap();
    assert!(2000 <= s && s < 3000 + 1000 + 1200);
}

#[test]
fn empty_query_matches_nothing() {
    let files = vec![("/a".to_string(), "a".to_string())];
    let none: Vec<String> = Vec::new();
    let r = fuzzy_search_files(files, "   ", &none, &none, &opts());
    assert!(r.is_empty());
}

#[test]
fn fuzzy_tier_catches_subsequences() {
    // no exact, normalized or ordered-substring hit; only the fuzzy
    // matcher accepts the subsequence
    let files = vec![(
        "/d/configuration_manager".to_string(),
        "configuration_manager".to_string(),
    )];
    let none: Vec<String> = Vec::new();
    let r = fuzzy_search_files(files, "cnfgrtn", &none, &none, &opts());
    assert_eq!(r.len(), 1);
    assert!(r[0].0 > 0);
}
