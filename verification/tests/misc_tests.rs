//! Query parsing fallback, categorization, handler suggestions and the
//! library-directory predicate.
use file_finder::categorize::{categorize_file, detect_project_context};
use file_finder::fileinfo::get_file_info;
use file_finder::libdirs::is_library_file;
use file_finder::llm::{LLMProcessor, QueryIntent};
use file_finder::llm_query::{parse_natural_query, QueryIntent as MockIntent};

#[test]
fn library_paths_are_recognized() {
    assert!(is_library_file("/home/u/project/node_modules/react/index.js"));
    assert!(is_library_file("C:\\Users\\u\\code\\target\\debug\\app.exe"));
    assert!(is_library_file("/home/u/.cache/thing"));
    assert!(is_library_file("/opt/anaconda3/lib/python3.9/abc.py"));
    assert!(!is_library_file("/home/u/documents/report.txt"));
    // recognition is case-insensitive
    assert!(is_library_file("/home/u/NODE_MODULES/x"));
}

#[test]
fn fallback_parse_reads_time_and_types() {
    let p = LLMProcessor::new();
    let q = p.fallback_parse("find my Python files from last week").unwrap();
    assert_eq!(q.intent, QueryIntent::FindByTime);
    assert_eq!(q.time_constraint, Some("last_week".to_string()));
    assert_eq!(q.file_types, vec!["py".to_string()]);
    assert!(q.keywords.contains(&"Python".to_string()));
    assert!(!q.keywords.contains(&"find".to_string()));
    assert_eq!(q.confidence, 70);
    assert_eq!(q.original_query, "find my Python files from last week");
}

#[test]
fn fallback_parse_react_project() {
    let p = LLMProcessor::new();
    let q = p.fallback_parse("React components").unwrap();
    assert_eq!(q.intent, QueryIntent::FindByProject);
    assert_eq!(q.file_types, vec!["jsx".to_string(), "tsx".to_string()]);
    assert_eq!(q.keywords[0], "component");
}

#[test]
fn convert_builds_search_terms() {
    let p = LLMProcessor::new();
    let q = p.fallback_parse("React components").unwrap();
    let text = p.convert_to_search_query(&q);
    assert_eq!(text, "*.jsx *.tsx component React components");
}

#[test]
fn convert_time_query_keeps_leftover_keywords() {
    let p = LLMProcessor::new();
    let q = p.fallback_parse("show the latest files").unwrap();
    assert_eq!(q.intent, QueryIntent::FindByTime);
    let text = p.convert_to_search_query(&q);
    assert_eq!(text, "latest");
}

#[test]
fn convert_bare_time_query_is_empty() {
    let p = LLMProcessor::new();
    let bare = file_finder::llm::NaturalQuery {
        original_query: "show the newest".to_string(),
        file_types: Vec::new(),
        keywords: Vec::new(),
        time_constraint: Some("recent".to_string()),
        size_constraint: None,
        location_hints: Vec::new(),
        intent: QueryIntent::FindByTime,
        confidence: 70,
    };
    assert_eq!(p.convert_to_search_query(&bare), "");
}

#[test]
fn prompt_carries_the_query() {
    let p = LLMProcessor::new();
    let prompt = p.create_query_parsing_prompt("budget sheet");
    assert!(prompt.ends_with("budget sheet"));
    assert_eq!(p.ollama_url, "http://127.0.0.1:11434");
    assert_eq!(p.model_name, "llama3.1:8b");
}

#[test]
fn mock_parse_extracts_types_and_keywords() {
    let q = parse_natural_query("find Python scripts from last week").unwrap();
    assert_eq!(q.file_types, vec!["py".to_string()]);
    assert!(matches!(q.intent, MockIntent::FindByContent));
    let t = q.time_range.unwrap();
    assert_eq!(t.relative, Some("last_week".to_string()));
    assert!(q.keywords.contains(&"scripts".to_string()));
    assert!(!q.keywords.contains(&"find".to_string()));
}

#[test]
fn categorizer_reads_extensions() {
    let rust = categorize_file("/w/src/main.rs", "", None).unwrap();
    assert_eq!(rust.primary, "Development");
    assert_eq!(rust.confidence, 90);
    assert_eq!(rust.secondary, vec!["Rust".to_string(), "Backend".to_string()]);
    let js = categorize_file("/w/web/app.jsx", "", None).unwrap();
    assert_eq!(js.primary, "Development");
    let other = categorize_file("/w/files/data.csv", "", None).unwrap();
    assert_eq!(other.primary, "Unknown");
    assert_eq!(other.confidence, 50);
    let ctx = detect_project_context("/w").unwrap();
    assert_eq!(ctx.main_language, "Rust");
}

#[test]
fn file_info_suggests_handlers() {
    let info = get_file_info("/docs/Notes.TXT");
    assert_eq!(info.extension, "txt");
    assert_eq!(
        info.suggested_programs,
        vec!["notepad++.exe".to_string(), "notepad.exe".to_string(), "code.exe".to_string()]
    );
    let unknown = get_file_info("/bin/tool");
    assert_eq!(unknown.extension, "");
    assert_eq!(unknown.suggested_programs.len(), 3);
    let pdf = get_file_info("C:\\files\\manual.PDF");
    assert_eq!(pdf.extension, "pdf");
    assert_eq!(pdf.suggested_programs[0], "AcroRd32.exe");
}
