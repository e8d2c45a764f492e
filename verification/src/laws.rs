//! The ranking laws the engine keeps, each proved against the scoring
//! specifications.
use vstd::prelude::*;

use crate::outside::lower_of;
use crate::score::{
    adjusted, filename_tier, fuzzy_name_tier, fuzzy_path_tier, literal_score, path_tier,
    query_has_extension,
};
use crate::search::pattern_arm_score;
use crate::strutil::{tokens_of, without_ext};
use crate::SearchOptions;

verus! {

/// Every tier score below the exact tier is nonnegative and capped under
/// it.
proof fn lemma_filename_tier_bounds(
    name_l: Seq<char>,
    name_norm: Seq<char>,
    q: Seq<char>,
    q_l: Seq<char>,
    q_norm: Seq<char>,
    toks: Seq<Seq<char>>,
    opts: SearchOptions,
)
    requires
        name_l != q_l,
        filename_tier(name_l, name_norm, q, q_l, q_norm, toks, opts) is Some,
    ensures
        0 <= filename_tier(name_l, name_norm, q, q_l, q_norm, toks, opts)->0 <= 9999,
{
    crate::score::lemma_ordered_bonus_bounds(name_l, toks, 0, 0, 0);
}

proof fn lemma_other_tier_bounds(
    name: Seq<char>,
    path: Seq<char>,
    joined: Seq<char>,
    q: Seq<char>,
    q_l: Seq<char>,
    toks: Seq<Seq<char>>,
)
    ensures
        path_tier(joined, q_l, toks) is Some ==> 0 <= path_tier(joined, q_l, toks)->0 <= 9999,
        fuzzy_name_tier(name, q) is Some ==> 0 <= fuzzy_name_tier(name, q)->0 <= 9999,
        fuzzy_path_tier(path, q) is Some ==> 0 <= fuzzy_path_tier(path, q)->0 <= 9999,
{
    crate::score::lemma_ordered_bonus_bounds(joined, toks, 0, 0, 0);
}

/// An exact case-insensitive filename match outranks every non-exact
/// match of the same query, with the same recency and favorite standing.
/// Every non-exact tier saturates just under the exact tier, and only
/// exact matches escape the library deprioritization, so the exact score
/// stays strictly ahead through the boost pipeline.
pub proof fn lemma_exact_match_outranks(
    name_a: Seq<char>,
    path_a: Seq<char>,
    name_b: Seq<char>,
    path_b: Seq<char>,
    q: Seq<char>,
    opts: SearchOptions,
    is_recent: bool,
    is_fav: bool,
)
    requires
        lower_of(name_a) == lower_of(q),
        lower_of(name_b) != lower_of(q),
        literal_score(name_a, path_a, q, opts, is_recent, is_fav) is Some,
        literal_score(name_b, path_b, q, opts, is_recent, is_fav) is Some,
    ensures
        literal_score(name_a, path_a, q, opts, is_recent, is_fav)->0 > literal_score(
            name_b,
            path_b,
            q,
            opts,
            is_recent,
            is_fav,
        )->0,
{
    let q_l = lower_of(q);
    let toks = tokens_of(q_l);
    let nl_b = lower_of(name_b);
    if filename_tier(
        nl_b,
        crate::score::normalize_spec(nl_b),
        q,
        q_l,
        crate::score::normalize_spec(q_l),
        toks,
        opts,
    ) is Some {
        lemma_filename_tier_bounds(
            nl_b,
            crate::score::normalize_spec(nl_b),
            q,
            q_l,
            crate::score::normalize_spec(q_l),
            toks,
            opts,
        );
    }
    lemma_other_tier_bounds(
        name_b,
        path_b,
        crate::score::components_joined(lower_of(path_b)),
        q,
        q_l,
        toks,
    );
}

/// Of two otherwise-identical filename matches, the one under a
/// recognized library/build directory scores no higher — and exactly the
/// same when both are exact filename matches, which are exempt.
pub proof fn lemma_library_deprioritized(s: int, is_exact: bool, is_recent: bool, is_fav: bool)
    requires
        0 <= s,
    ensures
        adjusted(s, is_exact, true, is_recent, is_fav) <= adjusted(
            s,
            is_exact,
            false,
            is_recent,
            is_fav,
        ),
        is_exact ==> adjusted(s, is_exact, true, is_recent, is_fav) == adjusted(
            s,
            is_exact,
            false,
            is_recent,
            is_fav,
        ),
{
}

/// The library deprioritization at the candidate level: two candidates
/// whose filenames score the same tier, one under a library directory
/// and one not, rank accordingly; exact matches are exempt.
pub proof fn lemma_library_candidate(
    name: Seq<char>,
    path_lib: Seq<char>,
    path_plain: Seq<char>,
    q: Seq<char>,
    opts: SearchOptions,
    is_recent: bool,
    is_fav: bool,
)
    requires
        crate::libdirs::is_library_path(path_lib),
        !crate::libdirs::is_library_path(path_plain),
        filename_tier(
            lower_of(name),
            crate::score::normalize_spec(lower_of(name)),
            q,
            lower_of(q),
            crate::score::normalize_spec(lower_of(q)),
            tokens_of(lower_of(q)),
            opts,
        ) is Some,
    ensures
        literal_score(name, path_lib, q, opts, is_recent, is_fav)->0 <= literal_score(
            name,
            path_plain,
            q,
            opts,
            is_recent,
            is_fav,
        )->0,
        lower_of(name) == lower_of(q) ==> literal_score(name, path_lib, q, opts, is_recent, is_fav)
            == literal_score(name, path_plain, q, opts, is_recent, is_fav),
{
    let q_l = lower_of(q);
    let nl = lower_of(name);
    let toks = tokens_of(q_l);
    let tier = filename_tier(
        nl,
        crate::score::normalize_spec(nl),
        q,
        q_l,
        crate::score::normalize_spec(q_l),
        toks,
        opts,
    );
    if nl != q_l {
        lemma_filename_tier_bounds(
            nl,
            crate::score::normalize_spec(nl),
            q,
            q_l,
            crate::score::normalize_spec(q_l),
            toks,
            opts,
        );
    }
    lemma_library_deprioritized(tier->0, nl == q_l, is_recent, is_fav);
}

/// A recency or favorite boost never decreases a candidate's score
/// relative to its unboosted value.
pub proof fn lemma_boost_never_decreases(s: int, is_exact: bool, in_lib: bool)
    requires
        0 <= s,
    ensures
        adjusted(s, is_exact, in_lib, true, false) >= adjusted(s, is_exact, in_lib, false, false),
        adjusted(s, is_exact, in_lib, false, true) >= adjusted(s, is_exact, in_lib, false, false),
        adjusted(s, is_exact, in_lib, true, true) >= adjusted(s, is_exact, in_lib, false, false),
        forall|r: bool, f: bool|
            #[trigger] adjusted(s, is_exact, in_lib, r, f) >= adjusted(
                s,
                is_exact,
                in_lib,
                false,
                false,
            ),
{
}

/// The flat boosts of the pattern and pre-filtered tiers never decrease
/// a score either.
pub proof fn lemma_flat_boost_never_decreases(base: int)
    ensures
        forall|r: bool, f: bool|
            #[trigger] crate::search::flat_boost(base, r, f) >= crate::search::flat_boost(
                base,
                false,
                false,
            ),
{
}

/// A query carrying a literal extension marker never reaches the fuzzy
/// tiers: a candidate neither tier accepts scores nothing at all, however
/// close a fuzzy match would have been.
pub proof fn lemma_extension_blocks_fuzzy(
    name: Seq<char>,
    path: Seq<char>,
    q: Seq<char>,
    opts: SearchOptions,
    is_recent: bool,
    is_fav: bool,
)
    requires
        query_has_extension(q),
        filename_tier(
            lower_of(name),
            crate::score::normalize_spec(lower_of(name)),
            q,
            lower_of(q),
            crate::score::normalize_spec(lower_of(q)),
            tokens_of(lower_of(q)),
            opts,
        ) is None,
        path_tier(
            crate::score::components_joined(lower_of(path)),
            lower_of(q),
            tokens_of(lower_of(q)),
        ) is None,
    ensures
        literal_score(name, path, q, opts, is_recent, is_fav) is None,
{
}

/// Favoriting a match with base score 3000 lifts it to 9000, above an
/// unfavorited 8000; clearing the favorite restores the original order.
pub proof fn lemma_favorite_boost_flip()
    ensures
        adjusted(3000, false, false, false, true) == 9000,
        adjusted(8000, false, false, false, false) == 8000,
        adjusted(3000, false, false, false, true) > adjusted(8000, false, false, false, false),
        adjusted(3000, false, false, false, false) < adjusted(8000, false, false, false, false),
{
}

/// Under a prefix glob, a name equal to the prefix — with or without its
/// extension — outranks a name that merely starts with it, whatever the
/// boosts.
pub proof fn lemma_prefix_literal_ranks(
    name_a: Seq<char>,
    name_b: Seq<char>,
    literal_l: Seq<char>,
    ra: bool,
    fa: bool,
    rb: bool,
    fb: bool,
)
    requires
        lower_of(name_a) == literal_l || without_ext(lower_of(name_a)) == literal_l,
        lower_of(name_b) != literal_l,
        without_ext(lower_of(name_b)) != literal_l,
    ensures
        pattern_arm_score(name_a, literal_l, ra, fa) > pattern_arm_score(name_b, literal_l, rb, fb),
{
}

} // verus!
