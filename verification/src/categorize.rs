//! Rough file categorization by extension, and the constant project
//! context the engine assumes when nothing analyzed the tree.
use vstd::prelude::*;

use crate::strutil::{basename_of, rfind_dot, without_ext};

verus! {

/// One file's category. `confidence` is in hundredths: 90 stands for
/// 0.90.
pub struct FileCategory {
    pub primary: String,
    pub secondary: Vec<String>,
    pub confidence: u32,
    pub auto_tags: Vec<String>,
}

/// What kind of project a tree holds.
pub struct ProjectContext {
    pub project_type: String,
    pub main_language: String,
    pub frameworks: Vec<String>,
    pub purpose: String,
}

/// The extension of a path's file name: what follows the last `.`, empty
/// without one.
pub open spec fn ext_of(p: Seq<char>) -> Seq<char> {
    let b = basename_of(p);
    if rfind_dot(b) >= 0 {
        b.subrange(rfind_dot(b) + 1, b.len() as int)
    } else {
        Seq::empty()
    }
}

/// The extension of a path.
pub fn path_extension(path: &str) -> (r: Vec<char>)
    ensures
        r@ == ext_of(path@),
{
    let pchars = crate::strutil::chars_of(path);
    let base = crate::strutil::basename(&pchars);
    let stem = crate::strutil::strip_extension(&base);
    if stem.len() < base.len() {
        proof {
            crate::strutil::lemma_rfind_dot(base@);
        }
        crate::pattern::copy_range(&base, stem.len() + 1, base.len())
    } else {
        proof {
            crate::strutil::lemma_rfind_dot(base@);
        }
        Vec::new()
    }
}

/// Categorizes one file by its extension; the content sample and the
/// project context would only sharpen the confidence.
pub fn categorize_file(
    file_path: &str,
    content_sample: &str,
    project_context: Option<&ProjectContext>,
) -> (r: Result<FileCategory, String>)
    ensures
        r is Ok,
        ext_of(file_path@) == "rs"@ ==> r->Ok_0.primary@ == "Development"@ && r->Ok_0.confidence
            == 90,
        ext_of(file_path@) == "js"@ || ext_of(file_path@) == "jsx"@ ==> r->Ok_0.primary@
            == "Development"@ && r->Ok_0.confidence == 90,
        ext_of(file_path@) != "rs"@ && ext_of(file_path@) != "js"@ && ext_of(file_path@) != "jsx"@
            ==> r->Ok_0.primary@ == "Unknown"@ && r->Ok_0.confidence == 50,
{
    let ext = path_extension(file_path);
    if char_vec_is(&ext, "rs") {
        let mut secondary: Vec<String> = Vec::new();
        secondary.push(String::from_str("Rust"));
        secondary.push(String::from_str("Backend"));
        let mut auto_tags: Vec<String> = Vec::new();
        auto_tags.push(String::from_str("rust"));
        auto_tags.push(String::from_str("source-code"));
        auto_tags.push(String::from_str("backend"));
        Ok(
            FileCategory {
                primary: String::from_str("Development"),
                secondary,
                confidence: 90,
                auto_tags,
            },
        )
    } else if char_vec_is(&ext, "js") || char_vec_is(&ext, "jsx") {
        let mut secondary: Vec<String> = Vec::new();
        secondary.push(String::from_str("JavaScript"));
        secondary.push(String::from_str("Frontend"));
        let mut auto_tags: Vec<String> = Vec::new();
        auto_tags.push(String::from_str("javascript"));
        auto_tags.push(String::from_str("frontend"));
        auto_tags.push(String::from_str("web"));
        Ok(
            FileCategory {
                primary: String::from_str("Development"),
                secondary,
                confidence: 90,
                auto_tags,
            },
        )
    } else {
        Ok(
            FileCategory {
                primary: String::from_str("Unknown"),
                secondary: Vec::new(),
                confidence: 50,
                auto_tags: Vec::new(),
            },
        )
    }
}

/// The constant context assumed when nothing analyzed the tree.
pub fn detect_project_context(root_path: &str) -> (r: Result<ProjectContext, String>)
    ensures
        r is Ok,
        r->Ok_0.project_type@ == "Desktop Application"@,
        r->Ok_0.main_language@ == "Rust"@,
{
    let mut frameworks: Vec<String> = Vec::new();
    frameworks.push(String::from_str("SQLite"));
    Ok(
        ProjectContext {
            project_type: String::from_str("Desktop Application"),
            main_language: String::from_str("Rust"),
            frameworks,
            purpose: String::from_str("File finder and search tool"),
        },
    )
}

/// Whether the characters spell the literal.
fn char_vec_is(v: &Vec<char>, lit: &str) -> (b: bool)
    ensures
        b == (v@ == lit@),
{
    let l = crate::strutil::chars_of(lit);
    crate::strutil::eq_chars(v, &l)
}

} // verus!
