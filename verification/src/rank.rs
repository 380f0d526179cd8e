//! Ranking candidates and keeping the best of them.
//!
//! Both helpers here take a vector of candidates, each tagged with the
//! position it came from, select the `limit` best by a total order — an
//! integer key, or the exact similarity order of [`crate::sim`] — and hand
//! them back sorted. The tag lets callers carry every candidate's origin
//! through the sort: the results bear distinct tags, and a candidate whose
//! tag is absent from the result ranks no better than any result.

use vstd::prelude::*;
use vstd::multiset::Multiset;

use crate::sim::{rank_inv, sim_le};

verus! {

broadcast use vstd::seq_lib::group_to_multiset_ensures;

/// The tags of a candidate sequence.
pub open spec fn tags_of<T>(s: Seq<(i128, usize, T)>) -> Seq<usize> {
    s.map_values(|c: (i128, usize, T)| c.1)
}

/// Selects the `limit` lowest-keyed candidates, sorted by ascending key.
pub(crate) fn rank_take<T>(cands: Vec<(i128, usize, T)>, limit: usize) -> (r: Vec<
    (i128, usize, T),
>)
    requires
        forall|k: int, l: int| 0 <= k < l < cands@.len() ==> cands@[k].1 != cands@[l].1,
    ensures
        r@.len() == if limit as int <= cands@.len() {
            limit as int
        } else {
            cands@.len() as int
        },
        forall|k: int, l: int| 0 <= k < l < r@.len() ==> r@[k].0 <= r@[l].0,
        forall|k: int| 0 <= k < r@.len() ==> cands@.contains(r@[k]),
        forall|k: int, l: int| 0 <= k < l < r@.len() ==> r@[k].1 != r@[l].1,
        forall|j: int, k: int|
            0 <= j < cands@.len() && 0 <= k < r@.len() && !tags_of(r@).contains(cands@[j].1)
                ==> r@[k].0 <= cands@[j].0,
{
    let sorted = sort_asc(cands);
    let ghost full = sorted@;
    let mut out = sorted;
    out.truncate(limit);
    proof {
        assert forall|j: int, k: int|
            0 <= j < cands@.len() && 0 <= k < out@.len() && !tags_of(out@).contains(
                cands@[j].1,
            ) implies out@[k].0 <= cands@[j].0 by {
            assert(cands@.contains(cands@[j]));
            assert(cands@.to_multiset().count(cands@[j]) > 0);
            assert(full.to_multiset().count(cands@[j]) > 0);
            assert(full.contains(cands@[j]));
            let p = choose|p: int| 0 <= p < full.len() && #[trigger] full[p] == cands@[j];
            if p < out@.len() {
                assert(tags_of(out@)[p] == cands@[j].1);
                assert(tags_of(out@).contains(cands@[j].1));
            } else {
                assert(out@[k].0 == full[k].0);
                assert(full[k].0 <= full[p].0);
            }
        }
    }
    out
}

/// Sorts candidates by ascending key, by repeatedly extracting a minimum.
fn sort_asc<T>(cands: Vec<(i128, usize, T)>) -> (r: Vec<(i128, usize, T)>)
    requires
        forall|k: int, l: int| 0 <= k < l < cands@.len() ==> cands@[k].1 != cands@[l].1,
    ensures
        r@.to_multiset() == cands@.to_multiset(),
        r@.len() == cands@.len(),
        forall|k: int, l: int| 0 <= k < l < r@.len() ==> r@[k].0 <= r@[l].0,
        forall|k: int| 0 <= k < r@.len() ==> cands@.contains(r@[k]),
        forall|k: int, l: int| 0 <= k < l < r@.len() ==> r@[k].1 != r@[l].1,
{
    let mut src = cands;
    let mut out: Vec<(i128, usize, T)> = Vec::new();
    while src.len() > 0
        invariant
            out@.to_multiset().add(src@.to_multiset()) == cands@.to_multiset(),
            out@.len() + src@.len() == cands@.len(),
            forall|k: int, l: int| 0 <= k < l < out@.len() ==> out@[k].0 <= out@[l].0,
            forall|k: int, l: int|
                0 <= k < out@.len() && 0 <= l < src@.len() ==> out@[k].0 <= src@[l].0,
            forall|k: int| 0 <= k < out@.len() ==> cands@.contains(out@[k]),
            forall|k: int| 0 <= k < src@.len() ==> cands@.contains(src@[k]),
            forall|k: int, l: int| 0 <= k < l < out@.len() ==> out@[k].1 != out@[l].1,
            forall|k: int, l: int| 0 <= k < l < src@.len() ==> src@[k].1 != src@[l].1,
            forall|k: int, l: int|
                0 <= k < out@.len() && 0 <= l < src@.len() ==> out@[k].1 != src@[l].1,
        decreases src@.len(),
    {
        let mut mi: usize = 0;
        let mut j: usize = 1;
        while j < src.len()
            invariant
                src@.len() > 0,
                mi < j,
                j <= src@.len(),
                forall|t: int| 0 <= t < j ==> src@[mi as int].0 <= src@[t].0,
            decreases src@.len() - j,
        {
            if src[j].0 < src[mi].0 {
                mi = j;
            }
            j = j + 1;
        }
        let ghost src_before = src@;
        let item = src.remove(mi);
        out.push(item);
        proof {
            assert(src_before.remove(mi as int).to_multiset() =~= src_before.to_multiset().remove(
                item,
            ));
            assert(out@.to_multiset().add(src@.to_multiset()) =~= cands@.to_multiset());
            assert forall|k: int| 0 <= k < out@.len() implies cands@.contains(out@[k]) by {
                if k < out@.len() - 1 {
                } else {
                    assert(cands@.contains(src_before[mi as int]));
                }
            }
        }
    }
    proof {
        assert(src@.to_multiset() =~= Multiset::empty());
        assert(out@.to_multiset() =~= cands@.to_multiset());
    }
    out
}

/// Selects the `limit` most similar candidates, sorted most similar first.
/// A candidate is `(dot, norm, tag, payload)`: its dot product with the
/// query and its squared magnitude, under the exact order of
/// [`crate::sim::sim_le`].
pub(crate) fn rank_take_sim<T>(cands: Vec<(i128, u128, usize, T)>, limit: usize) -> (r: Vec<
    (i128, u128, usize, T),
>)
    requires
        forall|k: int, l: int| 0 <= k < l < cands@.len() ==> cands@[k].2 != cands@[l].2,
        forall|k: int|
            0 <= k < cands@.len() ==> rank_inv(cands@[k].0 as int, cands@[k].1 as int)
                && -0x7fff_ffff_ffff_ffff <= cands@[k].0 <= 0x7fff_ffff_ffff_ffff,
    ensures
        r@.len() == if limit as int <= cands@.len() {
            limit as int
        } else {
            cands@.len() as int
        },
        forall|k: int, l: int|
            0 <= k < l < r@.len() ==> sim_le(
                r@[l].0 as int,
                r@[l].1 as int,
                r@[k].0 as int,
                r@[k].1 as int,
            ),
        forall|k: int| 0 <= k < r@.len() ==> cands@.contains(r@[k]),
        forall|k: int, l: int| 0 <= k < l < r@.len() ==> r@[k].2 != r@[l].2,
        forall|j: int, k: int|
            0 <= j < cands@.len() && 0 <= k < r@.len() && !sim_tags_of(r@).contains(cands@[j].2)
                ==> sim_le(
                cands@[j].0 as int,
                cands@[j].1 as int,
                r@[k].0 as int,
                r@[k].1 as int,
            ),
{
    let sorted = sort_desc_sim(cands);
    let ghost full = sorted@;
    let mut out = sorted;
    out.truncate(limit);
    proof {
        assert forall|j: int, k: int|
            0 <= j < cands@.len() && 0 <= k < out@.len() && !sim_tags_of(out@).contains(
                cands@[j].2,
            ) implies sim_le(
            cands@[j].0 as int,
            cands@[j].1 as int,
            out@[k].0 as int,
            out@[k].1 as int,
        ) by {
            assert(cands@.contains(cands@[j]));
            assert(cands@.to_multiset().count(cands@[j]) > 0);
            assert(full.to_multiset().count(cands@[j]) > 0);
            assert(full.contains(cands@[j]));
            let p = choose|p: int| 0 <= p < full.len() && #[trigger] full[p] == cands@[j];
            if p < out@.len() {
                assert(sim_tags_of(out@)[p] == cands@[j].2);
                assert(sim_tags_of(out@).contains(cands@[j].2));
            } else {
                assert(out@[k] == full[k]);
                assert(sim_le(
                    full[p].0 as int,
                    full[p].1 as int,
                    full[k].0 as int,
                    full[k].1 as int,
                ));
            }
        }
    }
    out
}

/// The tags of a similarity-candidate sequence.
pub open spec fn sim_tags_of<T>(s: Seq<(i128, u128, usize, T)>) -> Seq<usize> {
    s.map_values(|c: (i128, u128, usize, T)| c.2)
}

/// Sorts candidates most similar first, by repeatedly extracting a most
/// similar one.
fn sort_desc_sim<T>(cands: Vec<(i128, u128, usize, T)>) -> (r: Vec<(i128, u128, usize, T)>)
    requires
        forall|k: int, l: int| 0 <= k < l < cands@.len() ==> cands@[k].2 != cands@[l].2,
        forall|k: int|
            0 <= k < cands@.len() ==> rank_inv(cands@[k].0 as int, cands@[k].1 as int)
                && -0x7fff_ffff_ffff_ffff <= cands@[k].0 <= 0x7fff_ffff_ffff_ffff,
    ensures
        r@.to_multiset() == cands@.to_multiset(),
        r@.len() == cands@.len(),
        forall|k: int, l: int|
            0 <= k < l < r@.len() ==> sim_le(
                r@[l].0 as int,
                r@[l].1 as int,
                r@[k].0 as int,
                r@[k].1 as int,
            ),
        forall|k: int| 0 <= k < r@.len() ==> cands@.contains(r@[k]),
        forall|k: int, l: int| 0 <= k < l < r@.len() ==> r@[k].2 != r@[l].2,
{
    let mut src = cands;
    let mut out: Vec<(i128, u128, usize, T)> = Vec::new();
    while src.len() > 0
        invariant
            out@.to_multiset().add(src@.to_multiset()) == cands@.to_multiset(),
            out@.len() + src@.len() == cands@.len(),
            forall|k: int|
                0 <= k < src@.len() ==> rank_inv(src@[k].0 as int, src@[k].1 as int)
                    && -0x7fff_ffff_ffff_ffff <= src@[k].0 <= 0x7fff_ffff_ffff_ffff,
            forall|k: int, l: int|
                0 <= k < l < out@.len() ==> sim_le(
                    out@[l].0 as int,
                    out@[l].1 as int,
                    out@[k].0 as int,
                    out@[k].1 as int,
                ),
            forall|k: int, l: int|
                0 <= k < out@.len() && 0 <= l < src@.len() ==> sim_le(
                    src@[l].0 as int,
                    src@[l].1 as int,
                    out@[k].0 as int,
                    out@[k].1 as int,
                ),
            forall|k: int| 0 <= k < out@.len() ==> cands@.contains(out@[k]),
            forall|k: int| 0 <= k < src@.len() ==> cands@.contains(src@[k]),
            forall|k: int, l: int| 0 <= k < l < out@.len() ==> out@[k].2 != out@[l].2,
            forall|k: int, l: int| 0 <= k < l < src@.len() ==> src@[k].2 != src@[l].2,
            forall|k: int, l: int|
                0 <= k < out@.len() && 0 <= l < src@.len() ==> out@[k].2 != src@[l].2,
        decreases src@.len(),
    {
        let mut mi: usize = 0;
        let mut j: usize = 1;
        while j < src.len()
            invariant
                src@.len() > 0,
                mi < j,
                j <= src@.len(),
                forall|k: int|
                    0 <= k < src@.len() ==> rank_inv(src@[k].0 as int, src@[k].1 as int)
                        && -0x7fff_ffff_ffff_ffff <= src@[k].0 <= 0x7fff_ffff_ffff_ffff,
                forall|t: int|
                    0 <= t < j ==> sim_le(
                        src@[t].0 as int,
                        src@[t].1 as int,
                        src@[mi as int].0 as int,
                        src@[mi as int].1 as int,
                    ),
            decreases src@.len() - j,
        {
            let better = crate::sim::sim_le_exec(src[mi].0, src[mi].1, src[j].0, src[j].1);
            if better {
                proof {
                    assert forall|t: int|
                        0 <= t < j + 1 implies sim_le(
                        src@[t].0 as int,
                        src@[t].1 as int,
                        src@[j as int].0 as int,
                        src@[j as int].1 as int,
                    ) by {
                        if t < j {
                            crate::sim::lemma_sim_le_trans(
                                src@[t].0 as int,
                                src@[t].1 as int,
                                src@[mi as int].0 as int,
                                src@[mi as int].1 as int,
                                src@[j as int].0 as int,
                                src@[j as int].1 as int,
                            );
                        }
                    }
                }
                mi = j;
            } else {
                proof {
                    crate::sim::lemma_sim_le_total(
                        src@[mi as int].0 as int,
                        src@[mi as int].1 as int,
                        src@[j as int].0 as int,
                        src@[j as int].1 as int,
                    );
                }
            }
            j = j + 1;
        }
        let ghost src_before = src@;
        let item = src.remove(mi);
        out.push(item);
        proof {
            assert(src_before.remove(mi as int).to_multiset() =~= src_before.to_multiset().remove(
                item,
            ));
            assert(out@.to_multiset().add(src@.to_multiset()) =~= cands@.to_multiset());
            assert forall|k: int| 0 <= k < out@.len() implies cands@.contains(out@[k]) by {
                if k < out@.len() - 1 {
                } else {
                    assert(cands@.contains(src_before[mi as int]));
                }
            }
        }
    }
    proof {
        assert(src@.to_multiset() =~= Multiset::empty());
        assert(out@.to_multiset() =~= cands@.to_multiset());
    }
    out
}

} // verus!
