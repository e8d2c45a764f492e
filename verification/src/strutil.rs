//! Character-level string utilities the matching engine is built on:
//! substring search, prefix/suffix tests, whitespace tokenization and
//! trimming, all over `Vec<char>` with `Seq<char>` models.
use vstd::prelude::*;

verus! {

/// ASCII whitespace, the separators queries are split on.
pub open spec fn is_ws(c: char) -> bool {
    c == ' ' || c == '\t' || c == '\n' || c == '\r'
}

pub fn is_ws_char(c: char) -> (b: bool)
    ensures
        b == is_ws(c),
{
    c == ' ' || c == '\t' || c == '\n' || c == '\r'
}

/// `n` occurs as a contiguous run in `h` starting at `i`.
pub open spec fn matches_at(h: Seq<char>, n: Seq<char>, i: int) -> bool {
    0 <= i && i + n.len() <= h.len() && h.subrange(i, i + n.len() as int) == n
}

/// `n` occurs somewhere in `h`.
pub open spec fn contains_seq(h: Seq<char>, n: Seq<char>) -> bool {
    exists|i: int| matches_at(h, n, i)
}

pub open spec fn starts_with_seq(h: Seq<char>, n: Seq<char>) -> bool {
    matches_at(h, n, 0)
}

pub open spec fn ends_with_seq(h: Seq<char>, n: Seq<char>) -> bool {
    matches_at(h, n, h.len() - n.len())
}

/// The characters of `s`, for O(1) indexed scanning.
pub fn chars_of(s: &str) -> (r: Vec<char>)
    ensures
        r@ == s@,
{
    let n = s.unicode_len();
    let mut r: Vec<char> = Vec::new();
    let mut i: usize = 0;
    while i < n
        invariant
            i <= n,
            n == s@.len(),
            r@ == s@.subrange(0, i as int),
        decreases n - i,
    {
        r.push(s.get_char(i));
        i += 1;
        proof {
            assert(r@ =~= s@.subrange(0, i as int));
        }
    }
    proof {
        assert(r@ =~= s@);
    }
    r
}

/// Path separators (either convention).
pub open spec fn is_sep_char(c: char) -> bool {
    c == '/' || c == '\\'
}

/// `s` with trailing separators removed.
pub open spec fn rstrip_seps(s: Seq<char>) -> Seq<char>
    decreases s.len(),
{
    if s.len() > 0 && is_sep_char(s.last()) {
        rstrip_seps(s.drop_last())
    } else {
        s
    }
}

/// The index of the last separator in `s`, or -1.
pub open spec fn rfind_sep(s: Seq<char>) -> int
    decreases s.len(),
{
    if s.len() == 0 {
        -1
    } else if is_sep_char(s.last()) {
        s.len() - 1
    } else {
        rfind_sep(s.drop_last())
    }
}

/// The file name a path ends in: what follows the last separator, after
/// trailing separators are dropped.
pub open spec fn basename_of(p: Seq<char>) -> Seq<char> {
    let t = rstrip_seps(p);
    t.subrange(rfind_sep(t) + 1, t.len() as int)
}

pub proof fn lemma_rfind_sep(s: Seq<char>)
    ensures
        -1 <= rfind_sep(s) < s.len(),
        rfind_sep(s) >= 0 ==> is_sep_char(s[rfind_sep(s)]),
        forall|k: int| rfind_sep(s) < k < s.len() ==> !is_sep_char(s[k]),
    decreases s.len(),
{
    if s.len() > 0 && !is_sep_char(s.last()) {
        lemma_rfind_sep(s.drop_last());
        assert forall|k: int| rfind_sep(s) < k < s.len() implies !is_sep_char(s[k]) by {
            if k < s.len() - 1 {
                assert(s.drop_last()[k] == s[k]);
            }
        }
    }
}

/// The file name `p` ends in.
pub fn basename(p: &Vec<char>) -> (r: Vec<char>)
    ensures
        r@ == basename_of(p@),
{
    // drop trailing separators
    let mut end: usize = p.len();
    proof {
        assert(p@.subrange(0, p@.len() as int) =~= p@);
    }
    while end > 0 && (p[end - 1] == '/' || p[end - 1] == '\\')
        invariant
            0 <= end <= p@.len(),
            rstrip_seps(p@.subrange(0, end as int)) == rstrip_seps(p@),
        decreases end,
    {
        proof {
            assert(p@.subrange(0, end as int).drop_last() =~= p@.subrange(0, end - 1 as int));
        }
        end -= 1;
    }
    let ghost t = rstrip_seps(p@);
    proof {
        let pre = p@.subrange(0, end as int);
        if end > 0 {
            assert(!is_sep_char(pre.last()));
        }
        assert(rstrip_seps(pre) == pre);
        assert(t =~= pre);
        lemma_rfind_sep(t);
    }
    // find the last separator in the stripped prefix
    let mut start: usize = end;
    while start > 0 && !(p[start - 1] == '/' || p[start - 1] == '\\')
        invariant
            0 <= start <= end <= p@.len(),
            t == p@.subrange(0, end as int),
            forall|k: int| start <= k < end ==> !is_sep_char(p@[k]),
        decreases start,
    {
        start -= 1;
    }
    proof {
        lemma_rfind_sep(t);
        assert forall|k: int| start <= k < end implies !is_sep_char(t[k]) by {
            assert(t[k] == p@[k]);
        }
        if start > 0 {
            assert(is_sep_char(p@[start - 1]));
            assert(t[start - 1] == p@[start - 1]);
            if rfind_sep(t) < start - 1 {
                assert(!is_sep_char(t[start - 1]));
            }
            if rfind_sep(t) > start - 1 {
                assert(!is_sep_char(t[rfind_sep(t)]));
            }
            assert(rfind_sep(t) == start - 1);
        } else {
            if rfind_sep(t) >= 0 {
                assert(!is_sep_char(t[rfind_sep(t)]));
            }
            assert(rfind_sep(t) == -1);
        }
    }
    let mut r: Vec<char> = Vec::new();
    let mut k: usize = start;
    while k < end
        invariant
            start <= k <= end <= p@.len(),
            r@ == p@.subrange(start as int, k as int),
        decreases end - k,
    {
        r.push(p[k]);
        k += 1;
        proof {
            assert(r@ =~= p@.subrange(start as int, k as int));
        }
    }
    proof {
        assert(r@ =~= basename_of(p@));
    }
    r
}

/// The index of the last `.` in `s`, or -1.
pub open spec fn rfind_dot(s: Seq<char>) -> int
    decreases s.len(),
{
    if s.len() == 0 {
        -1
    } else if s.last() == '.' {
        s.len() - 1
    } else {
        rfind_dot(s.drop_last())
    }
}

/// `s` without its extension: everything before the last `.`, or all of
/// `s` when it has none.
pub open spec fn without_ext(s: Seq<char>) -> Seq<char> {
    if rfind_dot(s) >= 0 {
        s.subrange(0, rfind_dot(s))
    } else {
        s
    }
}

pub proof fn lemma_rfind_dot(s: Seq<char>)
    ensures
        rfind_dot(s) >= 0 ==> rfind_dot(s) < s.len() && s[rfind_dot(s)] == '.' && (forall|k: int|
            rfind_dot(s) < k < s.len() ==> s[k] != '.'),
        rfind_dot(s) < 0 ==> forall|k: int| 0 <= k < s.len() ==> s[k] != '.',
    decreases s.len(),
{
    if s.len() > 0 && s.last() != '.' {
        lemma_rfind_dot(s.drop_last());
        assert forall|k: int| rfind_dot(s) < k < s.len() && rfind_dot(s) >= 0 implies s[k]
            != '.' by {
            if k < s.len() - 1 {
                assert(s.drop_last()[k] == s[k]);
            }
        }
        if rfind_dot(s) < 0 {
            assert forall|k: int| 0 <= k < s.len() implies s[k] != '.' by {
                if k < s.len() - 1 {
                    assert(s.drop_last()[k] == s[k]);
                }
            }
        }
    }
}

/// `v` up to (not including) its last `.`, or all of it without one.
pub fn strip_extension(v: &Vec<char>) -> (r: Vec<char>)
    ensures
        r@ == without_ext(v@),
{
    proof {
        lemma_rfind_dot(v@);
    }
    let mut i: usize = v.len();
    while i > 0
        invariant
            0 <= i <= v@.len(),
            forall|k: int| i <= k < v@.len() ==> v@[k] != '.',
        decreases i,
    {
        if v[i - 1] == '.' {
            proof {
                lemma_rfind_dot(v@);
                if rfind_dot(v@) < i - 1 {
                    assert(v@[i - 1] != '.');
                }
                if rfind_dot(v@) > i - 1 {
                    assert(v@[rfind_dot(v@)] != '.');
                }
                assert(rfind_dot(v@) == i - 1);
            }
            let mut r: Vec<char> = Vec::new();
            let mut k: usize = 0;
            while k < i - 1
                invariant
                    0 <= k <= i - 1 <= v@.len(),
                    r@ == v@.subrange(0, k as int),
                decreases i - 1 - k,
            {
                r.push(v[k]);
                k += 1;
                proof {
                    assert(r@ =~= v@.subrange(0, k as int));
                }
            }
            return r;
        }
        i -= 1;
    }
    proof {
        if rfind_dot(v@) >= 0 {
            assert(v@[rfind_dot(v@)] != '.');
        }
    }
    let mut r: Vec<char> = Vec::new();
    let mut k: usize = 0;
    while k < v.len()
        invariant
            0 <= k <= v@.len(),
            r@ == v@.subrange(0, k as int),
        decreases v@.len() - k,
    {
        r.push(v[k]);
        k += 1;
        proof {
            assert(r@ =~= v@.subrange(0, k as int));
        }
    }
    proof {
        assert(r@ =~= v@);
    }
    r
}

/// Lexicographic order on character sequences: the first differing
/// character decides; a prefix comes first.
pub open spec fn lex_le(a: Seq<char>, b: Seq<char>) -> bool
    decreases a.len(),
{
    if a.len() == 0 {
        true
    } else if b.len() == 0 {
        false
    } else if a[0] != b[0] {
        a[0] < b[0]
    } else {
        lex_le(a.drop_first(), b.drop_first())
    }
}

/// The order is reflexive.
pub proof fn lemma_lex_refl(a: Seq<char>)
    ensures
        lex_le(a, a),
    decreases a.len(),
{
    if a.len() > 0 {
        lemma_lex_refl(a.drop_first());
    }
}

/// One of the two orders always holds.
pub proof fn lemma_lex_total(a: Seq<char>, b: Seq<char>)
    ensures
        lex_le(a, b) || lex_le(b, a),
    decreases a.len(),
{
    if a.len() > 0 && b.len() > 0 && a[0] == b[0] {
        lemma_lex_total(a.drop_first(), b.drop_first());
    }
}

/// The order chains.
pub proof fn lemma_lex_trans(a: Seq<char>, b: Seq<char>, c: Seq<char>)
    requires
        lex_le(a, b),
        lex_le(b, c),
    ensures
        lex_le(a, c),
    decreases a.len(),
{
    if a.len() == 0 {
    } else {
        assert(b.len() > 0);
        assert(c.len() > 0);
        if a[0] == b[0] && b[0] == c[0] {
            lemma_lex_trans(a.drop_first(), b.drop_first(), c.drop_first());
        } else if a[0] != b[0] {
            // a[0] < b[0] <= c[0]
            if b[0] != c[0] {
                assert(b[0] < c[0]);
            }
        } else {
            // a[0] == b[0] < c[0]
            assert(b[0] < c[0]);
        }
    }
}

/// A shared prefix does not decide the order.
proof fn lemma_lex_skip(a: Seq<char>, b: Seq<char>, i: int)
    requires
        0 <= i <= a.len(),
        i <= b.len(),
        forall|k: int| 0 <= k < i ==> a[k] == b[k],
    ensures
        lex_le(a, b) == lex_le(a.skip(i), b.skip(i)),
    decreases i,
{
    if i > 0 {
        assert(a[0] == b[0]);
        assert(a.len() > 0 && b.len() > 0);
        lemma_lex_skip(a.drop_first(), b.drop_first(), i - 1);
        assert(a.drop_first().skip(i - 1) =~= a.skip(i));
        assert(b.drop_first().skip(i - 1) =~= b.skip(i));
        assert forall|k: int| 0 <= k < i - 1 implies a.drop_first()[k] == b.drop_first()[k] by {
            assert(a[k + 1] == b[k + 1]);
        }
    } else {
        assert(a.skip(0) =~= a);
        assert(b.skip(0) =~= b);
    }
}

/// Compares two character vectors lexicographically.
pub fn lex_le_chars(a: &Vec<char>, b: &Vec<char>) -> (r: bool)
    ensures
        r == lex_le(a@, b@),
{
    let n: usize = if a.len() < b.len() {
        a.len()
    } else {
        b.len()
    };
    let mut i: usize = 0;
    while i < n
        invariant
            0 <= i <= n,
            n == vstd::math::min(a@.len() as int, b@.len() as int),
            forall|k: int| 0 <= k < i ==> a@[k] == b@[k],
        decreases n - i,
    {
        if a[i] != b[i] {
            proof {
                lemma_lex_skip(a@, b@, i as int);
                assert(a@.skip(i as int)[0] == a@[i as int]);
                assert(b@.skip(i as int)[0] == b@[i as int]);
            }
            return a[i] < b[i];
        }
        i += 1;
    }
    proof {
        lemma_lex_skip(a@, b@, n as int);
        if a@.len() <= b@.len() {
            assert(a@.skip(n as int) =~= Seq::<char>::empty());
        } else {
            assert(b@.skip(n as int) =~= Seq::<char>::empty());
            assert(a@.skip(n as int).len() > 0);
        }
    }
    a.len() <= b.len()
}

/// Whether two string slices hold the same characters.
pub fn str_eq(a: &str, b: &str) -> (r: bool)
    ensures
        r == (a@ == b@),
{
    let av = chars_of(a);
    let bv = chars_of(b);
    eq_chars(&av, &bv)
}

/// The characters of `v` as one `String`.
pub fn string_of(v: &Vec<char>) -> (r: String)
    ensures
        r@ == v@,
{
    let mut r = String::new();
    let mut i: usize = 0;
    while i < v.len()
        invariant
            i <= v@.len(),
            r@ == v@.subrange(0, i as int),
        decreases v@.len() - i,
    {
        crate::outside::push_char(&mut r, v[i]);
        i += 1;
        proof {
            assert(r@ =~= v@.subrange(0, i as int));
        }
    }
    proof {
        assert(r@ =~= v@);
    }
    r
}

/// Whether `n` occurs at position `i` of `h`.
fn check_at(h: &Vec<char>, n: &Vec<char>, i: usize) -> (b: bool)
    requires
        i + n@.len() <= h@.len(),
    ensures
        b == matches_at(h@, n@, i as int),
{
    let hl = h.len();
    let mut j: usize = 0;
    while j < n.len()
        invariant
            j <= n@.len(),
            i + n@.len() <= h@.len(),
            hl == h@.len(),
            forall|k: int| 0 <= k < j ==> h@[i + k] == n@[k],
        decreases n@.len() - j,
    {
        if h[i + j] != n[j] {
            assert(h@.subrange(i as int, i + n@.len() as int)[j as int] != n@[j as int]);
            return false;
        }
        j += 1;
    }
    proof {
        assert(h@.subrange(i as int, i + n@.len() as int) =~= n@);
    }
    true
}

/// The first position at or after `from` where `n` occurs in `h`, if any.
pub fn find_sub_from(h: &Vec<char>, n: &Vec<char>, from: usize) -> (r: Option<usize>)
    requires
        from <= h@.len(),
    ensures
        match r {
            Some(i) => from <= i && matches_at(h@, n@, i as int) && forall|k: int|
                from <= k < i ==> !matches_at(h@, n@, k),
            None => forall|k: int| from <= k ==> !matches_at(h@, n@, k),
        },
{
    if n.len() == 0 {
        proof {
            assert(h@.subrange(from as int, from as int) =~= n@);
        }
        return Some(from);
    }
    if n.len() > h.len() {
        return None;
    }
    let last = h.len() - n.len();
    if from > last {
        return None;
    }
    let mut i: usize = from;
    while i <= last
        invariant
            from <= i <= last + 1,
            1 <= n@.len() <= h@.len(),
            h@.len() <= usize::MAX,
            last == h@.len() - n@.len(),
            forall|k: int| from <= k < i ==> !matches_at(h@, n@, k),
        decreases last + 1 - i,
    {
        if check_at(h, n, i) {
            return Some(i);
        }
        i += 1;
    }
    None
}

/// Whether `n` occurs anywhere in `h`.
pub fn contains_sub(h: &Vec<char>, n: &Vec<char>) -> (b: bool)
    ensures
        b == contains_seq(h@, n@),
{
    match find_sub_from(h, n, 0) {
        Some(_) => true,
        None => false,
    }
}

/// Whether `h` starts with `n`.
pub fn starts_with(h: &Vec<char>, n: &Vec<char>) -> (b: bool)
    ensures
        b == starts_with_seq(h@, n@),
{
    if n.len() > h.len() {
        return false;
    }
    check_at(h, n, 0)
}

/// Whether `h` ends with `n`.
pub fn ends_with(h: &Vec<char>, n: &Vec<char>) -> (b: bool)
    ensures
        b == ends_with_seq(h@, n@),
{
    if n.len() > h.len() {
        return false;
    }
    check_at(h, n, h.len() - n.len())
}

/// Whether the two character vectors hold the same characters.
pub fn eq_chars(a: &Vec<char>, b: &Vec<char>) -> (r: bool)
    ensures
        r == (a@ == b@),
{
    if a.len() != b.len() {
        return false;
    }
    let mut i: usize = 0;
    while i < a.len()
        invariant
            i <= a@.len(),
            a@.len() == b@.len(),
            forall|k: int| 0 <= k < i ==> a@[k] == b@[k],
        decreases a@.len() - i,
    {
        if a[i] != b[i] {
            return false;
        }
        i += 1;
    }
    proof {
        assert(a@ =~= b@);
    }
    true
}

/// The first index at or after `i` whose character is not whitespace
/// (or the length, when only whitespace is left).
pub open spec fn next_non_ws(s: Seq<char>, i: int) -> int
    decreases s.len() - i,
{
    if i < 0 || i >= s.len() {
        s.len() as int
    } else if is_ws(s[i]) {
        next_non_ws(s, i + 1)
    } else {
        i
    }
}

pub proof fn lemma_next_non_ws_bounds(s: Seq<char>, i: int)
    requires
        0 <= i <= s.len(),
    ensures
        i <= next_non_ws(s, i) <= s.len(),
        next_non_ws(s, i) < s.len() ==> !is_ws(s[next_non_ws(s, i)]),
        forall|k: int| i <= k < next_non_ws(s, i) ==> is_ws(s[k]),
    decreases s.len() - i,
{
    if i < s.len() && is_ws(s[i]) {
        lemma_next_non_ws_bounds(s, i + 1);
    }
}

/// How often `c` occurs in `s` from position `i` on.
pub open spec fn count_from(s: Seq<char>, i: int, c: char) -> int
    decreases s.len() - i when 0 <= i <= s.len()
{
    if i >= s.len() {
        0
    } else {
        (if s[i] == c {
            1int
        } else {
            0int
        }) + count_from(s, i + 1, c)
    }
}

pub proof fn lemma_count_from_bounds(s: Seq<char>, i: int, c: char)
    requires
        0 <= i <= s.len(),
    ensures
        0 <= count_from(s, i, c) <= s.len() - i,
    decreases s.len() - i,
{
    if i < s.len() {
        lemma_count_from_bounds(s, i + 1, c);
    }
}

/// A possibly part-built token: the empty accumulator contributes no token.
pub open spec fn token_close(cur: Seq<char>) -> Seq<Seq<char>> {
    if cur.len() > 0 {
        seq![cur]
    } else {
        Seq::empty()
    }
}

/// The whitespace-separated tokens of `s` from position `i` on, with `cur`
/// the token being built when `i` is reached.
pub open spec fn tokens_acc(s: Seq<char>, i: int, cur: Seq<char>) -> Seq<Seq<char>>
    decreases s.len() - i when 0 <= i <= s.len()
{
    if i >= s.len() {
        token_close(cur)
    } else if is_ws(s[i]) {
        token_close(cur) + tokens_acc(s, i + 1, Seq::empty())
    } else {
        tokens_acc(s, i + 1, cur.push(s[i]))
    }
}

/// The whitespace-separated tokens of `s`.
pub open spec fn tokens_of(s: Seq<char>) -> Seq<Seq<char>> {
    tokens_acc(s, 0, Seq::empty())
}

/// Splits `s` on whitespace into its tokens.
pub fn tokenize(s: &Vec<char>) -> (r: Vec<Vec<char>>)
    ensures
        r.deep_view() == tokens_of(s@),
        forall|k: int| 0 <= k < r@.len() ==> r@[k]@.len() > 0,
{
    let mut r: Vec<Vec<char>> = Vec::new();
    let mut cur: Vec<char> = Vec::new();
    let mut i: usize = 0;
    proof {
        assert(r.deep_view() + tokens_acc(s@, 0, cur@) =~= tokens_of(s@));
    }
    while i < s.len()
        invariant
            0 <= i <= s@.len(),
            r.deep_view() + tokens_acc(s@, i as int, cur@) == tokens_of(s@),
            forall|k: int| 0 <= k < r@.len() ==> r@[k]@.len() > 0,
        decreases s@.len() - i,
    {
        let c = s[i];
        if is_ws_char(c) {
            if cur.len() > 0 {
                let ghost old_rv = r@;
                let ghost old_r = r.deep_view();
                let ghost old_cur = cur@;
                r.push(cur);
                cur = Vec::new();
                proof {
                    lemma_deep_view_push(old_rv, old_r, r@, r.deep_view(), old_cur);
                    assert(cur@ =~= Seq::<char>::empty());
                    assert(tokens_acc(s@, i as int, old_cur) == token_close(old_cur)
                        + tokens_acc(s@, i + 1, cur@));
                    assert(old_r + (token_close(old_cur) + tokens_acc(s@, i + 1, cur@))
                        =~= r.deep_view() + tokens_acc(s@, i + 1, cur@));
                }
            } else {
                proof {
                    assert(cur@ =~= Seq::<char>::empty());
                    assert(tokens_acc(s@, i as int, cur@) == token_close(cur@)
                        + tokens_acc(s@, i + 1, cur@));
                    assert(token_close(cur@) + tokens_acc(s@, i + 1, cur@)
                        =~= tokens_acc(s@, i + 1, cur@));
                }
            }
        } else {
            let ghost old_cur = cur@;
            cur.push(c);
            proof {
                assert(tokens_acc(s@, i as int, old_cur) == tokens_acc(s@, i + 1, cur@));
            }
        }
        i += 1;
    }
    if cur.len() > 0 {
        let ghost old_rv = r@;
        let ghost old_r = r.deep_view();
        let ghost old_cur = cur@;
        r.push(cur);
        proof {
            lemma_deep_view_push(old_rv, old_r, r@, r.deep_view(), old_cur);
            assert(tokens_acc(s@, s@.len() as int, old_cur) == token_close(old_cur));
            assert(r.deep_view() =~= old_r + token_close(old_cur));
            assert(r.deep_view() =~= tokens_of(s@));
        }
    } else {
        proof {
            assert(tokens_acc(s@, s@.len() as int, cur@) == token_close(cur@));
            assert(r.deep_view() + token_close(cur@) =~= r.deep_view());
        }
    }
    r
}

/// Pushing a vector appends its view to the deep view.
pub proof fn lemma_deep_view_push(
    old_v: Seq<Vec<char>>,
    old_dv: Seq<Seq<char>>,
    new_v: Seq<Vec<char>>,
    new_dv: Seq<Seq<char>>,
    elem: Seq<char>,
)
    requires
        old_dv.len() == old_v.len(),
        forall|k: int| 0 <= k < old_v.len() ==> old_dv[k] == #[trigger] old_v[k].deep_view(),
        new_dv.len() == new_v.len(),
        forall|k: int| 0 <= k < new_v.len() ==> new_dv[k] == #[trigger] new_v[k].deep_view(),
        new_v.len() == old_v.len() + 1,
        forall|k: int| 0 <= k < old_v.len() ==> new_v[k] == old_v[k],
        new_v[old_v.len() as int]@ == elem,
    ensures
        new_dv == old_dv.push(elem),
{
    assert forall|k: int| 0 <= k < new_dv.len() implies new_dv[k] == old_dv.push(elem)[k] by {
        assert(new_dv[k] == new_v[k].deep_view());
        if k < old_v.len() {
            assert(new_v[k] == old_v[k]);
            assert(old_dv[k] == old_v[k].deep_view());
        } else {
            vec_deep_view_is_view(new_v[k]);
            assert(new_v[k].deep_view() == elem);
        }
    }
    assert(new_dv =~= old_dv.push(elem));
}

/// A `Vec<char>`'s deep view is its view.
pub proof fn vec_deep_view_is_view(v: Vec<char>)
    ensures
        v.deep_view() == v@,
{
    assert(v.deep_view() =~= v@);
}

/// Pushing a string appends its view to the deep view.
pub proof fn lemma_deep_view_push_str(
    old_v: Seq<String>,
    old_dv: Seq<Seq<char>>,
    new_v: Seq<String>,
    new_dv: Seq<Seq<char>>,
    elem: Seq<char>,
)
    requires
        old_dv.len() == old_v.len(),
        forall|k: int| 0 <= k < old_v.len() ==> old_dv[k] == #[trigger] old_v[k].deep_view(),
        new_dv.len() == new_v.len(),
        forall|k: int| 0 <= k < new_v.len() ==> new_dv[k] == #[trigger] new_v[k].deep_view(),
        new_v.len() == old_v.len() + 1,
        forall|k: int| 0 <= k < old_v.len() ==> new_v[k] == old_v[k],
        new_v[old_v.len() as int]@ == elem,
    ensures
        new_dv == old_dv.push(elem),
{
    assert forall|k: int| 0 <= k < new_dv.len() implies new_dv[k] == old_dv.push(elem)[k] by {
        assert(new_dv[k] == new_v[k].deep_view());
        if k < old_v.len() {
            assert(new_v[k] == old_v[k]);
            assert(old_dv[k] == old_v[k].deep_view());
        }
    }
    assert(new_dv =~= old_dv.push(elem));
}

/// Indices of the non-blank middle of `s`: `[trim_start, trim_end)`.
pub open spec fn trim_start_of(s: Seq<char>) -> int {
    next_non_ws(s, 0)
}

/// One past the last non-whitespace character of `s`, or `trim_start_of(s)`
/// when `s` is all whitespace.
pub open spec fn trim_end_of(s: Seq<char>) -> int
    decreases s.len(),
{
    if s.len() == 0 {
        0
    } else if is_ws(s[s.len() - 1]) {
        trim_end_of(s.drop_last())
    } else {
        s.len() as int
    }
}

/// `s` with leading and trailing whitespace removed.
pub open spec fn trim_of(s: Seq<char>) -> Seq<char> {
    if trim_start_of(s) <= trim_end_of(s) {
        s.subrange(trim_start_of(s), trim_end_of(s))
    } else {
        Seq::empty()
    }
}

proof fn lemma_trim_end_bounds(s: Seq<char>)
    ensures
        0 <= trim_end_of(s) <= s.len(),
        forall|k: int| trim_end_of(s) <= k < s.len() ==> is_ws(s[k]),
        trim_end_of(s) > 0 ==> !is_ws(s[trim_end_of(s) - 1]),
    decreases s.len(),
{
    if s.len() > 0 && is_ws(s[s.len() - 1]) {
        lemma_trim_end_bounds(s.drop_last());
        assert forall|k: int| trim_end_of(s) <= k < s.len() implies is_ws(s[k]) by {
            if k < s.len() - 1 {
                assert(s.drop_last()[k] == s[k]);
            }
        }
    }
}

/// Removes leading and trailing whitespace.
pub fn trim_chars(s: &Vec<char>) -> (r: Vec<char>)
    ensures
        r@ == trim_of(s@),
{
    let mut start: usize = 0;
    while start < s.len() && is_ws_char(s[start])
        invariant
            0 <= start <= s@.len(),
            next_non_ws(s@, 0) == next_non_ws(s@, start as int),
        decreases s@.len() - start,
    {
        start += 1;
    }
    proof {
        lemma_next_non_ws_bounds(s@, start as int);
        if start < s@.len() {
            assert(next_non_ws(s@, start as int) == start as int);
        }
        assert(trim_start_of(s@) == start as int);
    }
    let mut end: usize = s.len();
    proof {
        assert(s@.subrange(0, s@.len() as int) =~= s@);
    }
    while end > start && is_ws_char(s[end - 1])
        invariant
            start <= end <= s@.len(),
            trim_end_of(s@.subrange(0, end as int)) == trim_end_of(s@),
            start as int == trim_start_of(s@),
        decreases end,
    {
        proof {
            assert(s@.subrange(0, end as int).drop_last() =~= s@.subrange(0, end - 1 as int));
        }
        end -= 1;
    }
    proof {
        let pre = s@.subrange(0, end as int);
        lemma_trim_end_bounds(pre);
        if end > start {
            assert(!is_ws(pre[end - 1 as int]));
            assert(trim_end_of(pre) == end as int);
        } else {
            // end == start: the trim end cannot pass the prefix length, so
            // the trimmed middle is empty.
            assert(trim_end_of(pre) <= end as int);
        }
    }
    let mut r: Vec<char> = Vec::new();
    let mut k: usize = start;
    while k < end
        invariant
            start <= k <= end <= s@.len(),
            r@ == s@.subrange(start as int, k as int),
        decreases end - k,
    {
        r.push(s[k]);
        k += 1;
        proof {
            assert(r@ =~= s@.subrange(start as int, k as int));
        }
    }
    proof {
        if trim_start_of(s@) <= trim_end_of(s@) {
            assert(r@ =~= trim_of(s@));
        } else {
            assert(r@ =~= trim_of(s@));
        }
    }
    r
}

} // verus!
