//! Final ranking: stable top-K selection by score, descending; ties keep
//! scan order.
use vstd::prelude::*;

use vstd::multiset::Multiset;

verus! {

broadcast use vstd::seq_lib::group_to_multiset_ensures;

/// Scores never increase along the list.
pub open spec fn sorted_desc<T>(r: Seq<(i64, T)>) -> bool {
    forall|i: int, j: int| 0 <= i <= j < r.len() ==> (#[trigger] r[i]).0 >= (#[trigger] r[j]).0
}

/// `out` reads its rows off `input` at the positions `src` names, each
/// position once, and rows of equal score keep their scan order.
pub open spec fn stable_from<T>(out: Seq<(i64, T)>, input: Seq<(i64, T)>, src: Seq<int>) -> bool {
    &&& src.len() == out.len()
    &&& (forall|t: int| 0 <= t < src.len() ==> 0 <= #[trigger] src[t] < input.len())
    &&& (forall|t: int| 0 <= t < src.len() ==> #[trigger] out[t] == input[src[t]])
    &&& (forall|i: int, j: int| 0 <= i < j < src.len() ==> #[trigger] src[i] != #[trigger] src[j])
    &&& (forall|i: int, j: int|
        0 <= i < j < out.len() && (#[trigger] out[i]).0 == (#[trigger] out[j]).0 ==> src[i]
            < src[j])
}

/// What ranking promises: the top `k` rows of `input` by score,
/// descending, drawn stably off the input (ties keep scan order), with
/// everything left out scoring no higher than the last row kept.
pub open spec fn ranked_of<T>(out: Seq<(i64, T)>, input: Seq<(i64, T)>, k: int) -> bool {
    &&& out.len() == vstd::math::min(k, input.len() as int)
    &&& sorted_desc(out)
    &&& out.to_multiset().subset_of(input.to_multiset())
    &&& (input.len() <= k ==> out.to_multiset() == input.to_multiset())
    &&& (forall|e: (i64, T)|
        input.to_multiset().count(e) > out.to_multiset().count(e) && out.len() > 0 ==> e.0 <= out[
            out.len() - 1
        ].0)
    &&& (exists|src: Seq<int>| stable_from(out, input, src))
}

/// The top `k` of `v` by score, descending; among equal scores the earlier
/// candidate comes first.
#[verifier::rlimit(100)]
pub fn rank_descending<T>(v: Vec<(i64, T)>, k: usize) -> (r: Vec<(i64, T)>)
    ensures
        ranked_of(r@, v@, k as int),
{
    let ghost v0 = v@;
    let mut rest = v;
    let mut out: Vec<(i64, T)> = Vec::new();
    let ghost orig = rest@.to_multiset();
    let ghost mut rem_idx: Seq<int> = Seq::new(v0.len(), |i: int| i);
    let ghost mut out_src: Seq<int> = Seq::empty();
    while out.len() < k && rest.len() > 0
        invariant
            out@.len() <= k,
            orig == out@.to_multiset().add(rest@.to_multiset()),
            out@.len() + rest@.len() == orig.len(),
            orig == v0.to_multiset(),
            sorted_desc(out@),
            forall|e: (i64, T)|
                rest@.to_multiset().count(e) > 0 ==> out@.len() == 0 || e.0 <= out@[
                    out@.len() - 1
                ].0,
            rem_idx.len() == rest@.len(),
            forall|t: int|
                0 <= t < rem_idx.len() ==> 0 <= #[trigger] rem_idx[t] < v0.len() && rest@[t]
                    == v0[rem_idx[t]],
            forall|a: int, b: int| 0 <= a < b < rem_idx.len() ==> rem_idx[a] < rem_idx[b],
            out_src.len() == out@.len(),
            forall|t: int|
                0 <= t < out_src.len() ==> 0 <= #[trigger] out_src[t] < v0.len() && out@[t]
                    == v0[out_src[t]],
            forall|a: int, b: int| 0 <= a < b < out_src.len() ==> #[trigger] out_src[a] != #[trigger] out_src[b],
            forall|a: int, b: int|
                0 <= a < out_src.len() && 0 <= b < rem_idx.len() ==> #[trigger] out_src[a]
                    != #[trigger] rem_idx[b],
            forall|i: int, j: int|
                0 <= i < j < out@.len() && (#[trigger] out@[i]).0 == (#[trigger] out@[j]).0
                    ==> out_src[i] < out_src[j],
            forall|t: int, u: int|
                0 <= t < out@.len() && 0 <= u < rest@.len() && (#[trigger] out@[t]).0 == (
                #[trigger] rest@[u]).0 ==> out_src[t] < rem_idx[u],
        decreases rest@.len(),
    {
        // pick the first maximum, keeping ties in scan order
        let mut best: usize = 0;
        let mut j: usize = 1;
        while j < rest.len()
            invariant
                0 <= best < j <= rest@.len(),
                rest@.len() > 0,
                forall|t: int| 0 <= t < j ==> rest@[t].0 <= rest@[best as int].0,
                forall|t: int| 0 <= t < best ==> rest@[t].0 < rest@[best as int].0,
            decreases rest@.len() - j,
        {
            if rest[j].0 > rest[best].0 {
                best = j;
            }
            j += 1;
        }
        let ghost old_rest = rest@;
        let ghost old_out = out@;
        let ghost old_rem = rem_idx;
        let ghost old_src = out_src;
        let item = rest.remove(best);
        out.push(item);
        proof {
            out_src = old_src.push(old_rem[best as int]);
            rem_idx = old_rem.remove(best as int);
            assert(old_rest.remove(best as int).to_multiset() =~= old_rest.to_multiset().remove(
                old_rest[best as int],
            ));
            assert(out@.to_multiset() =~= old_out.to_multiset().insert(item));
            assert(orig =~= out@.to_multiset().add(rest@.to_multiset()));
            // the picked item does not break descending order
            if old_out.len() > 0 {
                assert(old_rest.contains(item));
                assert(old_rest.to_multiset().count(item) > 0);
                assert(item.0 <= old_out[old_out.len() - 1].0);
            }
            assert forall|i: int, j2: int| 0 <= i <= j2 < out@.len() implies (#[trigger] out@[i]).0
                >= (#[trigger] out@[j2]).0 by {
                if j2 < old_out.len() {
                } else {
                    if i < old_out.len() {
                        assert(old_out[i].0 >= old_out[old_out.len() - 1].0);
                    }
                }
            }
            assert forall|e: (i64, T)|
                rest@.to_multiset().count(e) > 0 implies e.0 <= out@[out@.len() - 1].0 by {
                assert(old_rest.to_multiset().count(e) > 0);
                assert(old_rest.contains(e));
                let t = choose|t: int| 0 <= t < old_rest.len() && old_rest[t] == e;
                assert(e.0 <= old_rest[best as int].0);
            }
            // the source positions stay consistent, distinct and
            // tie-ordered
            assert forall|t: int|
                0 <= t < rem_idx.len() implies 0 <= #[trigger] rem_idx[t] < v0.len() && rest@[t]
                == v0[rem_idx[t]] by {
                if t < best {
                    assert(rem_idx[t] == old_rem[t]);
                    assert(rest@[t] == old_rest[t]);
                } else {
                    assert(rem_idx[t] == old_rem[t + 1]);
                    assert(rest@[t] == old_rest[t + 1]);
                }
            }
            assert forall|a: int, b: int| 0 <= a < b < rem_idx.len() implies rem_idx[a] < rem_idx[
                b
            ] by {
                let pa: int = if a < best {
                    a
                } else {
                    a + 1
                };
                let pb: int = if b < best {
                    b
                } else {
                    b + 1
                };
                assert(rem_idx[a] == old_rem[pa]);
                assert(rem_idx[b] == old_rem[pb]);
            }
            assert forall|a: int, b: int|
                0 <= a < out_src.len() && 0 <= b < rem_idx.len() implies #[trigger] out_src[a]
                != #[trigger] rem_idx[b] by {
                let pb: int = if b < best {
                    b
                } else {
                    b + 1
                };
                assert(rem_idx[b] == old_rem[pb]);
                if a < old_src.len() {
                    assert(out_src[a] == old_src[a]);
                } else {
                    assert(out_src[a] == old_rem[best as int]);
                    if pb < best {
                        assert(old_rem[pb] < old_rem[best as int]);
                    } else {
                        assert(old_rem[best as int] < old_rem[pb]);
                    }
                }
            }
            assert forall|i: int, j2: int|
                0 <= i < j2 < out@.len() && (#[trigger] out@[i]).0 == (#[trigger] out@[j2]).0
                implies out_src[i] < out_src[j2] by {
                if j2 == out@.len() - 1 {
                    assert(out@[i] == old_out[i]);
                    assert(out@[j2] == old_rest[best as int]);
                    assert(out_src[i] == old_src[i]);
                    assert(out_src[j2] == old_rem[best as int]);
                }
            }
            assert forall|t: int, u: int|
                0 <= t < out@.len() && 0 <= u < rest@.len() && (#[trigger] out@[t]).0 == (
            #[trigger] rest@[u]).0 implies out_src[t] < rem_idx[u] by {
                let pu: int = if u < best {
                    u
                } else {
                    u + 1
                };
                assert(rest@[u] == old_rest[pu]);
                assert(rem_idx[u] == old_rem[pu]);
                if t < old_out.len() {
                    assert(out@[t] == old_out[t]);
                    assert(out_src[t] == old_src[t]);
                } else {
                    // the new row ties a remaining row: the remaining row
                    // sat strictly after the first maximum
                    assert(out@[t] == old_rest[best as int]);
                    assert(out_src[t] == old_rem[best as int]);
                    assert(old_rest[pu].0 <= old_rest[best as int].0);
                    if pu < best {
                        assert(old_rest[pu].0 < old_rest[best as int].0);
                    } else {
                        assert(old_rem[best as int] < old_rem[pu]);
                    }
                }
            }
        }
    }
    proof {
        if rest@.len() > 0 {
            assert(out@.len() == k);
        }
        assert forall|e: (i64, T)|
            orig.count(e) > out@.to_multiset().count(e) && out@.len() > 0 implies e.0 <= out@[
            out@.len() - 1
        ].0 by {
            assert(orig.count(e) == out@.to_multiset().count(e) + rest@.to_multiset().count(e));
            assert(rest@.to_multiset().count(e) > 0);
        }
        assert(out@.to_multiset().subset_of(orig)) by {
            assert forall|e: (i64, T)| out@.to_multiset().count(e) <= orig.count(e) by {
                assert(orig.count(e) == out@.to_multiset().count(e) + rest@.to_multiset().count(
                    e,
                ));
            }
        }
        if orig.len() <= k {
            assert(rest@.len() == 0);
            assert(rest@.to_multiset() =~= Multiset::<(i64, T)>::empty());
            assert(out@.to_multiset() =~= orig);
        }
        assert(stable_from(out@, v0, out_src));
    }
    out
}

} // verus!
