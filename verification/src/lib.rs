//! A local file-search engine: indexing, query planning, multi-strategy
//! matching and scoring over an in-memory model of the persistent index.
use vstd::prelude::*;

pub mod cache;
pub mod categorize;
pub mod commands;
pub mod fileinfo;
pub mod fzf;
pub mod indexer;
pub mod laws;
pub mod libdirs;
pub mod llm;
pub mod llm_query;
pub mod outside;
pub mod pattern;
pub mod rank;
pub mod score;
pub mod search;
pub mod simple;
pub mod store;
pub mod strutil;

verus! {

/// Per-query configuration for the matching engine.
#[derive(Debug, Clone)]
pub struct SearchOptions {
    pub search_folders: bool,
    pub enable_fuzzy: bool,
    pub strict_mode: bool,
    pub filename_only: bool,
}

impl Default for SearchOptions {
    /// Folder and fuzzy matching on, strict and filename-only off.
    fn default() -> (r: Self)
        ensures
            r.search_folders,
            r.enable_fuzzy,
            !r.strict_mode,
            !r.filename_only,
    {
        SearchOptions { search_folders: true, enable_fuzzy: true, strict_mode: false, filename_only: false }
    }
}

impl SearchOptions {
    /// A value copy of the four flags.
    pub fn clone_opts(&self) -> (r: Self)
        ensures
            r == *self,
    {
        SearchOptions {
            search_folders: self.search_folders,
            enable_fuzzy: self.enable_fuzzy,
            strict_mode: self.strict_mode,
            filename_only: self.filename_only,
        }
    }
}

/// One search result: an indexed path with its ranking signals.
#[derive(Debug, Clone)]
pub struct FileEntry {
    pub path: String,
    pub name: String,
    pub last_accessed: Option<i64>,
    pub access_count: i32,
    pub modified_at: Option<i64>,
}

} // verus!
