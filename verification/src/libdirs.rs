//! Recognizing library/build/system directories whose contents are
//! deprioritized, and junk results that are filtered out entirely.
use vstd::prelude::*;

use crate::outside::{lower_of, to_lowercase};
use crate::strutil::{chars_of, contains_seq, contains_sub};

verus! {

/// One dependency/build/cache marker occurs in `l` (a lowercased path).
pub open spec fn has_library_marker(l: Seq<char>) -> bool {
    ||| contains_seq(l, "/.git/"@)
    ||| contains_seq(l, "\\.git\\"@)
    ||| contains_seq(l, "/node_modules/"@)
    ||| contains_seq(l, "\\node_modules\\"@)
    ||| contains_seq(l, "/.vscode/"@)
    ||| contains_seq(l, "\\.vscode\\"@)
    ||| contains_seq(l, "/target/"@)
    ||| contains_seq(l, "\\target\\"@)
    ||| contains_seq(l, "/build/"@)
    ||| contains_seq(l, "\\build\\"@)
    ||| contains_seq(l, "/dist/"@)
    ||| contains_seq(l, "\\dist\\"@)
    ||| contains_seq(l, "/__pycache__/"@)
    ||| contains_seq(l, "\\__pycache__\\"@)
    ||| contains_seq(l, "/site-packages/"@)
    ||| contains_seq(l, "\\site-packages\\"@)
    ||| contains_seq(l, "/vendor/"@)
    ||| contains_seq(l, "\\vendor\\"@)
    ||| contains_seq(l, "/.next/"@)
    ||| contains_seq(l, "\\.next\\"@)
    ||| contains_seq(l, "/coverage/"@)
    ||| contains_seq(l, "\\coverage\\"@)
    ||| contains_seq(l, "/out/"@)
    ||| contains_seq(l, "\\out\\"@)
    ||| contains_seq(l, "/anaconda3/"@)
    ||| contains_seq(l, "\\anaconda3\\"@)
    ||| contains_seq(l, "/miniconda3/"@)
    ||| contains_seq(l, "\\miniconda3\\"@)
    ||| contains_seq(l, "/pkgs/"@)
    ||| contains_seq(l, "\\pkgs\\"@)
    ||| contains_seq(l, "/envs/"@)
    ||| contains_seq(l, "\\envs\\"@)
    ||| contains_seq(l, "/lib/python"@)
    ||| contains_seq(l, "\\lib\\python"@)
    ||| contains_seq(l, "/share/jupyter/"@)
    ||| contains_seq(l, "\\share\\jupyter\\"@)
    ||| contains_seq(l, "/jupyter/"@)
    ||| contains_seq(l, "\\jupyter\\"@)
    ||| contains_seq(l, "/ipython/"@)
    ||| contains_seq(l, "\\ipython\\"@)
    ||| contains_seq(l, "/program files/"@)
    ||| contains_seq(l, "\\program files\\"@)
    ||| contains_seq(l, "/appdata/"@)
    ||| contains_seq(l, "\\appdata\\"@)
    ||| contains_seq(l, "/.cache/"@)
    ||| contains_seq(l, "\\.cache\\"@)
    ||| contains_seq(l, "\\windows\\winsxs\\"@)
    ||| contains_seq(l, "/windows/winsxs/"@)
    ||| contains_seq(l, "\\windows\\system32\\"@)
    ||| contains_seq(l, "/windows/system32/"@)
    ||| contains_seq(l, "\\windows\\syswow64\\"@)
    ||| contains_seq(l, "/windows/syswow64/"@)
}

/// Whether a path lies under a recognized library/build/system directory.
pub open spec fn is_library_path(path: Seq<char>) -> bool {
    has_library_marker(lower_of(path))
}

/// Checks one marker against the lowercased path characters.
fn has_marker(l: &Vec<char>, marker: &str) -> (b: bool)
    ensures
        b == contains_seq(l@, marker@),
{
    let m = chars_of(marker);
    contains_sub(l, &m)
}

/// Whether the path lies under a recognized dependency, build-output,
/// package-cache or OS system directory.
pub fn is_library_file(path: &str) -> (b: bool)
    ensures
        b == is_library_path(path@),
{
    let lowered = to_lowercase(path);
    let l = chars_of(lowered.as_str());
    has_marker(&l, "/.git/") || has_marker(&l, "\\.git\\") || has_marker(&l, "/node_modules/")
        || has_marker(&l, "\\node_modules\\") || has_marker(&l, "/.vscode/") || has_marker(
        &l,
        "\\.vscode\\",
    ) || has_marker(&l, "/target/") || has_marker(&l, "\\target\\") || has_marker(&l, "/build/")
        || has_marker(&l, "\\build\\") || has_marker(&l, "/dist/") || has_marker(&l, "\\dist\\")
        || has_marker(&l, "/__pycache__/") || has_marker(&l, "\\__pycache__\\") || has_marker(
        &l,
        "/site-packages/",
    ) || has_marker(&l, "\\site-packages\\") || has_marker(&l, "/vendor/") || has_marker(
        &l,
        "\\vendor\\",
    ) || has_marker(&l, "/.next/") || has_marker(&l, "\\.next\\") || has_marker(&l, "/coverage/")
        || has_marker(&l, "\\coverage\\") || has_marker(&l, "/out/") || has_marker(&l, "\\out\\")
        || has_marker(&l, "/anaconda3/") || has_marker(&l, "\\anaconda3\\") || has_marker(
        &l,
        "/miniconda3/",
    ) || has_marker(&l, "\\miniconda3\\") || has_marker(&l, "/pkgs/") || has_marker(&l, "\\pkgs\\")
        || has_marker(&l, "/envs/") || has_marker(&l, "\\envs\\") || has_marker(&l, "/lib/python")
        || has_marker(&l, "\\lib\\python") || has_marker(&l, "/share/jupyter/") || has_marker(
        &l,
        "\\share\\jupyter\\",
    ) || has_marker(&l, "/jupyter/") || has_marker(&l, "\\jupyter\\") || has_marker(
        &l,
        "/ipython/",
    ) || has_marker(&l, "\\ipython\\") || has_marker(&l, "/program files/") || has_marker(
        &l,
        "\\program files\\",
    ) || has_marker(&l, "/appdata/") || has_marker(&l, "\\appdata\\") || has_marker(&l, "/.cache/")
        || has_marker(&l, "\\.cache\\") || has_marker(&l, "\\windows\\winsxs\\") || has_marker(
        &l,
        "/windows/winsxs/",
    ) || has_marker(&l, "\\windows\\system32\\") || has_marker(&l, "/windows/system32/")
        || has_marker(&l, "\\windows\\syswow64\\") || has_marker(&l, "/windows/syswow64/")
}

/// ASCII digits.
pub open spec fn is_digit(c: char) -> bool {
    '0' <= c && c <= '9'
}

/// ASCII lowercase letters.
pub open spec fn is_lower_ascii(c: char) -> bool {
    'a' <= c && c <= 'z'
}

pub open spec fn all_digits(s: Seq<char>) -> bool {
    forall|k: int| 0 <= k < s.len() ==> is_digit(s[k])
}

pub open spec fn all_lower_ascii(s: Seq<char>) -> bool {
    forall|k: int| 0 <= k < s.len() ==> is_lower_ascii(s[k])
}

/// Checks that every character is an ASCII digit.
pub fn check_all_digits(s: &Vec<char>) -> (b: bool)
    ensures
        b == all_digits(s@),
{
    let mut i: usize = 0;
    while i < s.len()
        invariant
            0 <= i <= s@.len(),
            forall|k: int| 0 <= k < i ==> is_digit(s@[k]),
        decreases s@.len() - i,
    {
        let c = s[i];
        if !(c >= '0' && c <= '9') {
            return false;
        }
        i += 1;
    }
    true
}

/// Checks that every character is an ASCII lowercase letter.
pub fn check_all_lower_ascii(s: &Vec<char>) -> (b: bool)
    ensures
        b == all_lower_ascii(s@),
{
    let mut i: usize = 0;
    while i < s.len()
        invariant
            0 <= i <= s@.len(),
            forall|k: int| 0 <= k < i ==> is_lower_ascii(s@[k]),
        decreases s@.len() - i,
    {
        let c = s[i];
        if !(c >= 'a' && c <= 'z') {
            return false;
        }
        i += 1;
    }
    true
}

/// A junk system folder: throwaway numbered or single-letter entries under
/// known noisy paths, and low-scoring hits under known noise markers.
/// `cutoff` is the score at or under which a marker hit counts as junk, and
/// `digits_only_short` restricts the short-name clause to all-digit names.
pub open spec fn is_junk_spec(
    score: int,
    name: Seq<char>,
    path: Seq<char>,
    cutoff: int,
    digits_only_short: bool,
) -> bool {
    ||| (name == "0"@ && contains_seq(path, "__External"@))
    ||| (all_digits(name) && (contains_seq(path, "Browser"@) || contains_seq(path, "cache"@)
        || contains_seq(path, "morgue"@)))
    ||| (name.len() == 1 && all_lower_ascii(name) && contains_seq(path, "WinSxS"@))
    ||| (all_digits(name) && contains_seq(path, "Tor Browser"@))
    ||| (score <= cutoff && (contains_seq(path, "UpdateInfo"@) || contains_seq(
        path,
        "profile.default"@,
    ) || contains_seq(path, "uuid+++"@) || (name.len() <= 2 && (!digits_only_short || all_digits(
        name,
    )))))
}

/// Whether a scored hit is a junk system folder (see `is_junk_spec`).
pub fn is_junk_result(
    score: i64,
    name: &str,
    path: &str,
    cutoff: i64,
    digits_only_short: bool,
) -> (b: bool)
    ensures
        b == is_junk_spec(score as int, name@, path@, cutoff as int, digits_only_short),
{
    let n = chars_of(name);
    let p = chars_of(path);
    let zero = chars_of("0");
    if crate::strutil::eq_chars(&n, &zero) && has_marker(&p, "__External") {
        return true;
    }
    let digits = check_all_digits(&n);
    if digits && (has_marker(&p, "Browser") || has_marker(&p, "cache") || has_marker(
        &p,
        "morgue",
    )) {
        return true;
    }
    if n.len() == 1 && check_all_lower_ascii(&n) && has_marker(&p, "WinSxS") {
        return true;
    }
    if digits && has_marker(&p, "Tor Browser") {
        return true;
    }
    if score <= cutoff && (has_marker(&p, "UpdateInfo") || has_marker(&p, "profile.default")
        || has_marker(&p, "uuid+++") || (n.len() <= 2 && (!digits_only_short || digits))) {
        return true;
    }
    false
}

} // verus!
