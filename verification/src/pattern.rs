//! Query planner: classifies a raw query into one of five pattern types
//! and derives the store pre-filter that bounds the candidate set.
use vstd::prelude::*;

use crate::strutil::{
    chars_of, contains_seq, contains_sub, count_from, ends_with, ends_with_seq, tokenize,
    tokens_of, trim_chars, trim_of, vec_deep_view_is_view,
};

verus! {

/// The five ways a query can be recognized.
#[derive(Debug, Clone, Copy, PartialEq, Eq, Structural)]
pub enum PatternType {
    SimpleGlob,
    SimplePrefix,
    PrefixSuffix,
    ComplexRegex,
    LiteralSearch,
}

/// What the planner decided for a query.
pub struct PatternInfo {
    pub pattern_type: PatternType,
    pub prefix: Option<Vec<char>>,
    pub suffix: Option<Vec<char>>,
    pub can_use_sql_optimization: bool,
    pub sql_like_pattern: Option<Vec<char>>,
}

/// The mathematical image of a `PatternInfo`.
pub struct PatternAnalysis {
    pub pattern_type: PatternType,
    pub prefix: Option<Seq<char>>,
    pub suffix: Option<Seq<char>>,
    pub can_sql: bool,
    pub sql_like: Option<Seq<char>>,
}

impl View for PatternInfo {
    type V = PatternAnalysis;

    open spec fn view(&self) -> PatternAnalysis {
        PatternAnalysis {
            pattern_type: self.pattern_type,
            prefix: match self.prefix {
                Some(v) => Some(v@),
                None => None,
            },
            suffix: match self.suffix {
                Some(v) => Some(v@),
                None => None,
            },
            can_sql: self.can_use_sql_optimization,
            sql_like: match self.sql_like_pattern {
                Some(v) => Some(v@),
                None => None,
            },
        }
    }
}

/// Characters that rule a pattern out of the simple-glob forms.
pub open spec fn is_glob_special(c: char) -> bool {
    c == '[' || c == ']' || c == '(' || c == ')' || c == '|' || c == '^' || c == '$' || c == '+'
        || c == '{' || c == '}' || c == '\\'
}

/// Every regex metacharacter.
pub open spec fn is_regex_meta(c: char) -> bool {
    c == '.' || c == '*' || c == '+' || c == '?' || c == '^' || c == '$' || c == '{' || c == '}'
        || c == '[' || c == ']' || c == '(' || c == ')' || c == '\\' || c == '|'
}

/// Metacharacters that end a literal prefix (everything but `^`).
pub open spec fn is_prefix_stop(c: char) -> bool {
    c == '.' || c == '*' || c == '+' || c == '?' || c == '{' || c == '}' || c == '[' || c == ']'
        || c == '(' || c == ')' || c == '\\' || c == '|' || c == '$'
}

pub fn is_glob_special_char(c: char) -> (b: bool)
    ensures
        b == is_glob_special(c),
{
    c == '[' || c == ']' || c == '(' || c == ')' || c == '|' || c == '^' || c == '$' || c == '+'
        || c == '{' || c == '}' || c == '\\'
}

pub fn is_regex_meta_char(c: char) -> (b: bool)
    ensures
        b == is_regex_meta(c),
{
    c == '.' || c == '*' || c == '+' || c == '?' || c == '^' || c == '$' || c == '{' || c == '}'
        || c == '[' || c == ']' || c == '(' || c == ')' || c == '\\' || c == '|'
}

pub fn is_prefix_stop_char(c: char) -> (b: bool)
    ensures
        b == is_prefix_stop(c),
{
    c == '.' || c == '*' || c == '+' || c == '?' || c == '{' || c == '}' || c == '[' || c == ']'
        || c == '(' || c == ')' || c == '\\' || c == '|' || c == '$'
}

/// The query with one pair of wrapping slashes removed: `/…/` marks an
/// explicit regex.
pub open spec fn strip_slashes(t: Seq<char>) -> Seq<char> {
    if t.len() > 2 && t[0] == '/' && t[t.len() - 1] == '/' {
        t.subrange(1, t.len() - 1)
    } else {
        t
    }
}

/// First index at or after `i` holding a prefix-ending metacharacter
/// (or the length).
pub open spec fn first_stop(s: Seq<char>, i: int) -> int
    decreases s.len() - i,
{
    if i < 0 || i >= s.len() {
        s.len() as int
    } else if is_prefix_stop(s[i]) {
        i
    } else {
        first_stop(s, i + 1)
    }
}

pub proof fn lemma_first_stop_bounds(s: Seq<char>, i: int)
    requires
        0 <= i <= s.len(),
    ensures
        i <= first_stop(s, i) <= s.len(),
        first_stop(s, i) < s.len() ==> is_prefix_stop(s[first_stop(s, i)]),
        forall|k: int| i <= k < first_stop(s, i) ==> !is_prefix_stop(s[k]),
    decreases s.len() - i,
{
    if i < s.len() && !is_prefix_stop(s[i]) {
        lemma_first_stop_bounds(s, i + 1);
    }
}

/// The pattern with a leading `^` anchor removed.
pub open spec fn strip_caret(p: Seq<char>) -> Seq<char> {
    if p.len() > 0 && p[0] == '^' {
        p.subrange(1, p.len() as int)
    } else {
        p
    }
}

/// The literal prefix of a regex pattern: the run before the first
/// metacharacter, kept only when at least two characters long.
pub open spec fn regex_prefix_of(p: Seq<char>) -> Option<Seq<char>> {
    let s = strip_caret(p);
    let m = first_stop(s, 0);
    if m >= 2 {
        Some(s.subrange(0, m))
    } else {
        None
    }
}

/// The literal suffix of a `prefix.*suffix` pattern, kept only when it is
/// nonempty and has no further metacharacter.
pub open spec fn regex_suffix_of(p: Seq<char>, pre: Seq<char>) -> Option<Seq<char>> {
    let s = strip_caret(p);
    if pre.len() <= s.len() {
        let after = s.subrange(pre.len() as int, s.len() as int);
        if after.len() > 2 && after[0] == '.' && after[1] == '*' {
            let suf = after.subrange(2, after.len() as int);
            if suf.len() > 0 && (forall|k: int| 0 <= k < suf.len() ==> !is_regex_meta(suf[k])) {
                Some(suf)
            } else {
                None
            }
        } else {
            None
        }
    } else {
        None
    }
}

/// What the planner must decide for the raw query `q`.
#[verifier::opaque]
pub open spec fn analyze_spec(q: Seq<char>) -> PatternAnalysis {
    let a = strip_slashes(trim_of(q));
    if no_glob_special(a) && a.len() >= 2 && a[0] == '*' && a[1] == '.' && count_stars(a) == 1 {
        PatternAnalysis {
            pattern_type: PatternType::SimpleGlob,
            prefix: None,
            suffix: Some(a.subrange(2, a.len() as int)),
            can_sql: true,
            sql_like: Some(seq!['%', '.'] + a.subrange(2, a.len() as int)),
        }
    } else if no_glob_special(a) && a.len() > 0 && a[a.len() - 1] == '*' && count_stars(a) == 1 {
        PatternAnalysis {
            pattern_type: PatternType::SimpleGlob,
            prefix: Some(a.subrange(0, a.len() - 1)),
            suffix: None,
            can_sql: true,
            sql_like: Some(a.subrange(0, a.len() - 1) + seq!['%']),
        }
    } else if regex_prefix_of(a) is Some && ends_with_seq(a, seq!['.', '*']) {
        let pre = regex_prefix_of(a)->0;
        PatternAnalysis {
            pattern_type: PatternType::SimplePrefix,
            prefix: Some(pre),
            suffix: None,
            can_sql: true,
            sql_like: Some(pre + seq!['%']),
        }
    } else if regex_prefix_of(a) is Some && regex_suffix_of(a, regex_prefix_of(a)->0) is Some {
        let pre = regex_prefix_of(a)->0;
        PatternAnalysis {
            pattern_type: PatternType::PrefixSuffix,
            prefix: Some(pre),
            suffix: Some(regex_suffix_of(a, pre)->0),
            can_sql: true,
            sql_like: Some(pre + seq!['%']),
        }
    } else if no_regex_meta(a) {
        if contains_seq(a, seq![' ']) && tokens_of(a).len() == 2 {
            PatternAnalysis {
                pattern_type: PatternType::LiteralSearch,
                prefix: None,
                suffix: None,
                can_sql: true,
                sql_like: Some(seq!['%'] + tokens_of(a)[0] + tokens_of(a)[1] + seq!['%']),
            }
        } else {
            PatternAnalysis {
                pattern_type: PatternType::LiteralSearch,
                prefix: None,
                suffix: None,
                can_sql: true,
                sql_like: Some(seq!['%'] + a + seq!['%']),
            }
        }
    } else {
        PatternAnalysis {
            pattern_type: PatternType::ComplexRegex,
            prefix: regex_prefix_of(a),
            suffix: None,
            can_sql: false,
            sql_like: None,
        }
    }
}

pub open spec fn no_glob_special(s: Seq<char>) -> bool {
    forall|k: int| 0 <= k < s.len() ==> !is_glob_special(s[k])
}

pub open spec fn no_regex_meta(s: Seq<char>) -> bool {
    forall|k: int| 0 <= k < s.len() ==> !is_regex_meta(s[k])
}

pub open spec fn count_stars(s: Seq<char>) -> int {
    count_from(s, 0, '*')
}

/// Checks that no character of `v` is glob-special.
fn check_no_glob_special(v: &Vec<char>) -> (b: bool)
    ensures
        b == no_glob_special(v@),
{
    let mut i: usize = 0;
    while i < v.len()
        invariant
            0 <= i <= v@.len(),
            forall|k: int| 0 <= k < i ==> !is_glob_special(v@[k]),
        decreases v@.len() - i,
    {
        if is_glob_special_char(v[i]) {
            return false;
        }
        i += 1;
    }
    true
}

/// Checks that no character of `v` is a regex metacharacter.
fn check_no_regex_meta(v: &Vec<char>) -> (b: bool)
    ensures
        b == no_regex_meta(v@),
{
    let mut i: usize = 0;
    while i < v.len()
        invariant
            0 <= i <= v@.len(),
            forall|k: int| 0 <= k < i ==> !is_regex_meta(v@[k]),
        decreases v@.len() - i,
    {
        if is_regex_meta_char(v[i]) {
            return false;
        }
        i += 1;
    }
    true
}

/// Counts the `*` characters of `v`.
fn count_stars_exec(v: &Vec<char>) -> (n: usize)
    ensures
        n as int == count_stars(v@),
{
    let mut n: usize = 0;
    let mut i: usize = 0;
    proof {
        crate::strutil::lemma_count_from_bounds(v@, 0, '*');
    }
    while i < v.len()
        invariant
            0 <= i <= v@.len(),
            n as int + count_from(v@, i as int, '*') == count_stars(v@),
            n <= i,
        decreases v@.len() - i,
    {
        if v[i] == '*' {
            n += 1;
        }
        i += 1;
    }
    n
}

/// The subrange `[from, to)` of `v` as a fresh vector.
pub fn copy_range(v: &Vec<char>, from: usize, to: usize) -> (r: Vec<char>)
    requires
        from <= to <= v@.len(),
    ensures
        r@ == v@.subrange(from as int, to as int),
{
    let mut r: Vec<char> = Vec::new();
    let mut k: usize = from;
    while k < to
        invariant
            from <= k <= to <= v@.len(),
            r@ == v@.subrange(from as int, k as int),
        decreases to - k,
    {
        r.push(v[k]);
        k += 1;
        proof {
            assert(r@ =~= v@.subrange(from as int, k as int));
        }
    }
    proof {
        assert(r@ =~= v@.subrange(from as int, to as int));
    }
    r
}

/// The literal prefix before the first metacharacter, when two or more
/// characters long.
pub fn extract_regex_prefix(pattern: &Vec<char>) -> (r: Option<Vec<char>>)
    ensures
        match r {
            Some(v) => regex_prefix_of(pattern@) == Some(v@),
            None => regex_prefix_of(pattern@) is None,
        },
{
    let start: usize = if pattern.len() > 0 && pattern[0] == '^' {
        1
    } else {
        0
    };
    let ghost s = strip_caret(pattern@);
    proof {
        assert(s =~= pattern@.subrange(start as int, pattern@.len() as int));
    }
    let mut i: usize = start;
    while i < pattern.len() && !is_prefix_stop_char(pattern[i])
        invariant
            start <= i <= pattern@.len(),
            s == pattern@.subrange(start as int, pattern@.len() as int),
            forall|k: int| start <= k < i ==> !is_prefix_stop(pattern@[k]),
        decreases pattern@.len() - i,
    {
        i += 1;
    }
    proof {
        lemma_first_stop_bounds(s, 0);
        // first_stop(s, 0) == i - start
        assert(forall|k: int| 0 <= k < i - start ==> s[k] == pattern@[start + k]);
        if first_stop(s, 0) < i - start {
            assert(is_prefix_stop(s[first_stop(s, 0)]));
        }
        if first_stop(s, 0) > i - start {
            assert(i < pattern@.len());
            assert(!is_prefix_stop(s[i - start]));
        }
        assert(first_stop(s, 0) == i - start);
    }
    if i - start >= 2 {
        let pre = copy_range(pattern, start, i);
        proof {
            assert(pre@ =~= s.subrange(0, i - start));
        }
        Some(pre)
    } else {
        None
    }
}

/// The literal suffix of a `prefix.*suffix` pattern.
pub fn extract_regex_suffix(pattern: &Vec<char>, prefix: &Vec<char>) -> (r: Option<Vec<char>>)
    ensures
        match r {
            Some(v) => regex_suffix_of(pattern@, prefix@) == Some(v@),
            None => regex_suffix_of(pattern@, prefix@) is None,
        },
{
    let start: usize = if pattern.len() > 0 && pattern[0] == '^' {
        1
    } else {
        0
    };
    let ghost s = strip_caret(pattern@);
    proof {
        assert(s =~= pattern@.subrange(start as int, pattern@.len() as int));
    }
    if prefix.len() > pattern.len() - start {
        return None;
    }
    let after_start = start + prefix.len();
    let after_len = pattern.len() - after_start;
    let ghost after = s.subrange(prefix@.len() as int, s.len() as int);
    proof {
        assert(after =~= pattern@.subrange(after_start as int, pattern@.len() as int));
    }
    if after_len > 2 && pattern[after_start] == '.' && pattern[after_start + 1] == '*' {
        let suf = copy_range(pattern, after_start + 2, pattern.len());
        proof {
            assert(suf@ =~= after.subrange(2, after.len() as int));
        }
        if suf.len() > 0 && check_no_regex_meta(&suf) {
            return Some(suf);
        }
        return None;
    }
    None
}

/// Classifies the raw query and derives the store pre-filter.
pub fn analyze_regex_pattern(query: &str) -> (r: PatternInfo)
    ensures
        r@ == analyze_spec(query@),
{
    proof {
        reveal(analyze_spec);
    }
    let qchars = chars_of(query);
    let trimmed = trim_chars(&qchars);
    let actual: Vec<char> = if trimmed.len() > 2 && trimmed[0] == '/' && trimmed[trimmed.len()
        - 1] == '/' {
        copy_range(&trimmed, 1, trimmed.len() - 1)
    } else {
        trimmed
    };
    proof {
        assert(actual@ =~= strip_slashes(trim_of(query@)));
    }
    let no_glob = check_no_glob_special(&actual);
    if no_glob && actual.len() >= 2 && actual[0] == '*' && actual[1] == '.' && count_stars_exec(
        &actual,
    ) == 1 {
        let ext = copy_range(&actual, 2, actual.len());
        let mut sql: Vec<char> = Vec::new();
        sql.push('%');
        sql.push('.');
        append_all(&mut sql, &ext);
        proof {
            assert(sql@ =~= seq!['%', '.'] + ext@);
        }
        return PatternInfo {
            pattern_type: PatternType::SimpleGlob,
            prefix: None,
            suffix: Some(ext),
            can_use_sql_optimization: true,
            sql_like_pattern: Some(sql),
        };
    }
    if no_glob && actual.len() > 0 && actual[actual.len() - 1] == '*' && count_stars_exec(&actual)
        == 1 {
        let pre = copy_range(&actual, 0, actual.len() - 1);
        let mut sql = copy_range(&actual, 0, actual.len() - 1);
        sql.push('%');
        proof {
            assert(sql@ =~= pre@ + seq!['%']);
        }
        return PatternInfo {
            pattern_type: PatternType::SimpleGlob,
            prefix: Some(pre),
            suffix: None,
            can_use_sql_optimization: true,
            sql_like_pattern: Some(sql),
        };
    }
    let maybe_prefix = extract_regex_prefix(&actual);
    if let Some(pre) = maybe_prefix {
        let ghost dotstar = seq!['.', '*'];
        let mut tail: Vec<char> = Vec::new();
        tail.push('.');
        tail.push('*');
        proof {
            assert(tail@ =~= dotstar);
        }
        if ends_with(&actual, &tail) {
            let mut sql = copy_range(&pre, 0, pre.len());
            sql.push('%');
            proof {
                assert(pre@.subrange(0, pre@.len() as int) =~= pre@);
                assert(sql@ =~= pre@ + seq!['%']);
            }
            return PatternInfo {
                pattern_type: PatternType::SimplePrefix,
                prefix: Some(pre),
                suffix: None,
                can_use_sql_optimization: true,
                sql_like_pattern: Some(sql),
            };
        }
        if let Some(suf) = extract_regex_suffix(&actual, &pre) {
            let mut sql = copy_range(&pre, 0, pre.len());
            sql.push('%');
            proof {
                assert(pre@.subrange(0, pre@.len() as int) =~= pre@);
                assert(sql@ =~= pre@ + seq!['%']);
            }
            return PatternInfo {
                pattern_type: PatternType::PrefixSuffix,
                prefix: Some(pre),
                suffix: Some(suf),
                can_use_sql_optimization: true,
                sql_like_pattern: Some(sql),
            };
        }
        if check_no_regex_meta(&actual) {
            return literal_info(&actual);
        }
        return PatternInfo {
            pattern_type: PatternType::ComplexRegex,
            prefix: Some(pre),
            suffix: None,
            can_use_sql_optimization: false,
            sql_like_pattern: None,
        };
    }
    if check_no_regex_meta(&actual) {
        return literal_info(&actual);
    }
    PatternInfo {
        pattern_type: PatternType::ComplexRegex,
        prefix: None,
        suffix: None,
        can_use_sql_optimization: false,
        sql_like_pattern: None,
    }
}

/// The literal-search decision for a metacharacter-free pattern.
fn literal_info(actual: &Vec<char>) -> (r: PatternInfo)
    requires
        no_regex_meta(actual@),
    ensures
        r@.pattern_type == PatternType::LiteralSearch,
        r@.prefix is None,
        r@.suffix is None,
        r@.can_sql,
        r@.sql_like == (if contains_seq(actual@, seq![' ']) && tokens_of(actual@).len() == 2 {
            Some(seq!['%'] + tokens_of(actual@)[0] + tokens_of(actual@)[1] + seq!['%'])
        } else {
            Some(seq!['%'] + actual@ + seq!['%'])
        }),
{
    let mut space: Vec<char> = Vec::new();
    space.push(' ');
    proof {
        assert(space@ =~= seq![' ']);
    }
    let has_space = contains_sub(actual, &space);
    if has_space {
        let words = tokenize(actual);
        if words.len() == 2 {
            // the two-word concatenation pattern catches names with the
            // separators stripped
            let mut joined: Vec<char> = Vec::new();
            append_all(&mut joined, &words[0]);
            append_all(&mut joined, &words[1]);
            let sql = wrap_percent(&joined);
            proof {
                vec_deep_view_is_view(words@[0]);
                vec_deep_view_is_view(words@[1]);
                assert(joined@ =~= tokens_of(actual@)[0] + tokens_of(actual@)[1]);
                assert(sql@ =~= seq!['%'] + tokens_of(actual@)[0] + tokens_of(actual@)[1]
                    + seq!['%']);
            }
            return PatternInfo {
                pattern_type: PatternType::LiteralSearch,
                prefix: None,
                suffix: None,
                can_use_sql_optimization: true,
                sql_like_pattern: Some(sql),
            };
        }
        let sql = wrap_percent(actual);
        return PatternInfo {
            pattern_type: PatternType::LiteralSearch,
            prefix: None,
            suffix: None,
            can_use_sql_optimization: true,
            sql_like_pattern: Some(sql),
        };
    }
    let sql = wrap_percent(actual);
    PatternInfo {
        pattern_type: PatternType::LiteralSearch,
        prefix: None,
        suffix: None,
        can_use_sql_optimization: true,
        sql_like_pattern: Some(sql),
    }
}

/// Characters a glob translation must escape outside a character class.
pub open spec fn is_glob_escape(c: char) -> bool {
    c == '.' || c == '+' || c == '(' || c == ')' || c == '{' || c == '}' || c == '|' || c == '^'
        || c == '$' || c == '\\'
}

fn is_glob_escape_char(c: char) -> (b: bool)
    ensures
        b == is_glob_escape(c),
{
    c == '.' || c == '+' || c == '(' || c == ')' || c == '{' || c == '}' || c == '|' || c == '^'
        || c == '$' || c == '\\'
}

/// The regex text for the glob `p` from position `i` on; `in_class` says
/// whether position `i` lies inside a `[...]` character class.
pub open spec fn glob_regex_from(p: Seq<char>, i: int, in_class: bool) -> Seq<char>
    decreases p.len() - i when 0 <= i <= p.len()
{
    if i >= p.len() {
        Seq::empty()
    } else {
        let c = p[i];
        if in_class {
            if c == ']' {
                seq![']'] + glob_regex_from(p, i + 1, false)
            } else if c == '^' || c == '-' || c == '\\' {
                seq!['\\', c] + glob_regex_from(p, i + 1, true)
            } else {
                seq![c] + glob_regex_from(p, i + 1, true)
            }
        } else {
            if c == '*' {
                seq!['.', '*'] + glob_regex_from(p, i + 1, false)
            } else if c == '?' {
                seq!['.'] + glob_regex_from(p, i + 1, false)
            } else if c == '[' {
                seq!['['] + glob_regex_from(p, i + 1, true)
            } else if is_glob_escape(c) {
                seq!['\\', c] + glob_regex_from(p, i + 1, false)
            } else {
                seq![c] + glob_regex_from(p, i + 1, false)
            }
        }
    }
}

/// The anchored regex a glob pattern translates to: `*` becomes `.*`,
/// `?` becomes `.`, character classes pass through with inner escaping,
/// and every other metacharacter is escaped literally.
pub open spec fn glob_regex_of(p: Seq<char>) -> Seq<char> {
    seq!['^'] + glob_regex_from(p, 0, false) + seq!['$']
}

/// Translates a glob pattern to the anchored regex it stands for.
pub fn build_glob_regex(pattern: &Vec<char>) -> (r: Vec<char>)
    ensures
        r@ == glob_regex_of(pattern@),
{
    let mut r: Vec<char> = Vec::new();
    r.push('^');
    let mut i: usize = 0;
    let mut in_class = false;
    while i < pattern.len()
        invariant
            0 <= i <= pattern@.len(),
            seq!['^'] + glob_regex_from(pattern@, 0, false) == r@ + glob_regex_from(
                pattern@,
                i as int,
                in_class,
            ),
        decreases pattern@.len() - i,
    {
        let c = pattern[i];
        let ghost before = r@;
        if in_class {
            if c == ']' {
                r.push(']');
                in_class = false;
            } else if c == '^' || c == '-' || c == '\\' {
                r.push('\\');
                r.push(c);
            } else {
                r.push(c);
            }
        } else {
            if c == '*' {
                r.push('.');
                r.push('*');
            } else if c == '?' {
                r.push('.');
            } else if c == '[' {
                r.push('[');
                in_class = true;
            } else if is_glob_escape_char(c) {
                r.push('\\');
                r.push(c);
            } else {
                r.push(c);
            }
        }
        proof {
            assert(seq!['^'] + glob_regex_from(pattern@, 0, false) =~= r@ + glob_regex_from(
                pattern@,
                i + 1,
                in_class,
            ));
        }
        i += 1;
    }
    proof {
        assert(glob_regex_from(pattern@, pattern@.len() as int, in_class)
            =~= Seq::<char>::empty());
        assert(seq!['^'] + glob_regex_from(pattern@, 0, false) =~= r@);
    }
    r.push('$');
    proof {
        assert(r@ =~= glob_regex_of(pattern@));
    }
    r
}

/// Appends all of `src` to `dst`.
pub fn append_all(dst: &mut Vec<char>, src: &Vec<char>)
    ensures
        final(dst)@ == old(dst)@ + src@,
{
    let mut k: usize = 0;
    while k < src.len()
        invariant
            k <= src@.len(),
            dst@ == old(dst)@ + src@.subrange(0, k as int),
        decreases src@.len() - k,
    {
        dst.push(src[k]);
        k += 1;
        proof {
            assert(dst@ =~= old(dst)@ + src@.subrange(0, k as int));
        }
    }
    proof {
        assert(dst@ =~= old(dst)@ + src@);
    }
}

/// `v` wrapped in `%` wildcards, the contains-style pre-filter.
fn wrap_percent(v: &Vec<char>) -> (r: Vec<char>)
    ensures
        r@ == seq!['%'] + v@ + seq!['%'],
{
    let mut r: Vec<char> = Vec::new();
    r.push('%');
    append_all(&mut r, v);
    r.push('%');
    proof {
        assert(r@ =~= seq!['%'] + v@ + seq!['%']);
    }
    r
}

} // verus!
