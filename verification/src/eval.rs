//! Fidelity scores for a finished embedding: k-nearest-neighbour
//! precision/recall/F1 against the source space, edge-length distortion of
//! sampled triangles, and exact triangle/collinearity predicates.
//!
//! Scores are fixed-point scalars (see [`crate::fixed`]); sampling the
//! triangles and querying source-space distances stay with the caller.

use vstd::prelude::*;
use crate::cluster_id::ClusterID;
use crate::fixed::{sat64, tdiv, fx_div, fx_mul, sat_add, sat_sub, SCALE};
use crate::vec3::Vec3Fx;

verus! {

/// How many ids of `a` occur in `b`.
pub open spec fn common_count(a: Seq<ClusterID>, b: Seq<ClusterID>) -> int
    decreases a.len(),
{
    if a.len() == 0 {
        0
    } else {
        common_count(a.drop_last(), b) + (if b.contains(a.last()) {
            1int
        } else {
            0int
        })
    }
}

/// The number of ids of `a` that occur in `b`.
pub fn count_common(a: &Vec<ClusterID>, b: &Vec<ClusterID>) -> (r: usize)
    ensures
        r == common_count(a@, b@),
        r <= a@.len(),
{
    let n = a.len();
    let mut count: usize = 0;
    let mut i: usize = 0;
    proof {
        assert(a@.subrange(0, 0) =~= Seq::<ClusterID>::empty());
    }
    while i < n
        invariant
            i <= n,
            n == a@.len(),
            count <= i,
            count == common_count(a@.subrange(0, i as int), b@),
        decreases n - i,
    {
        let id = a[i];
        let m = b.len();
        let mut j: usize = 0;
        let mut found = false;
        while j < m
            invariant
                j <= m,
                m == b@.len(),
                id == a@[i as int],
                found == exists|w: int| 0 <= w < j && (#[trigger] b@[w]) == id,
            decreases m - j,
        {
            if b[j] == id {
                found = true;
                proof {
                    assert(b@[j as int] == id);
                }
            }
            j = j + 1;
        }
        proof {
            let pre = a@.subrange(0, i as int);
            let cur = a@.subrange(0, i + 1int);
            assert(cur.drop_last() =~= pre);
            assert(cur.last() == a@[i as int]);
            if found {
                let w = choose|w: int| 0 <= w < b@.len() && (#[trigger] b@[w]) == id;
                assert(b@.contains(id));
            } else {
                if b@.contains(id) {
                    let w = choose|w: int| 0 <= w < b@.len() && (#[trigger] b@[w]) == id;
                }
            }
        }
        if found {
            count = count + 1;
        }
        i = i + 1;
    }
    proof {
        assert(a@.subrange(0, n as int) =~= a@);
    }
    count
}

/// The precision, recall and F1 score of one query's neighbour lists, in
/// fixed-point units: precision is the shared count over the true list's
/// size, recall over the embedding list's size, and F1 their harmonic mean.
pub open spec fn fnn_scores_spec(original: Seq<ClusterID>, embedded: Seq<ClusterID>) -> (
    int,
    int,
    int,
) {
    let c_fx = sat64(common_count(original, embedded) * SCALE);
    let p = tdiv(c_fx, original.len() as int);
    let r = tdiv(c_fx, embedded.len() as int);
    let f = if p + r > 0 {
        let pr = sat64(tdiv(p * r, SCALE as int));
        sat64(tdiv(sat64(pr + pr) * SCALE, sat64(p + r)))
    } else {
        0int
    };
    (p, r, f)
}

/// Precision, recall and F1 for one query (both lists non-empty, as the
/// evaluation only scores queries with neighbours on both sides).
pub fn fnn_pair_scores(original: &Vec<ClusterID>, embedded: &Vec<ClusterID>) -> (r: (
    i64,
    i64,
    i64,
))
    requires
        original@.len() > 0,
        embedded@.len() > 0,
        original@.len() <= i64::MAX,
        embedded@.len() <= i64::MAX,
    ensures
        (r.0 as int, r.1 as int, r.2 as int) == fnn_scores_spec(original@, embedded@),
        r.0 >= 0,
        r.1 >= 0,
{
    let c = count_common(original, embedded);
    let c_fx = crate::fixed::fx_of_count(c);
    let p = crate::fixed::div_by(c_fx, original.len() as i64);
    let r = crate::fixed::div_by(c_fx, embedded.len() as i64);
    proof {
        assert(p >= 0 && r >= 0) by {
            assert(tdiv(c_fx as int, original@.len() as int) >= 0) by (nonlinear_arith)
                requires
                    c_fx >= 0,
                    original@.len() > 0,
                    tdiv(c_fx as int, original@.len() as int) == (c_fx as int) / (
                    original@.len() as int),
            ;
            assert(tdiv(c_fx as int, embedded@.len() as int) >= 0) by (nonlinear_arith)
                requires
                    c_fx >= 0,
                    embedded@.len() > 0,
                    tdiv(c_fx as int, embedded@.len() as int) == (c_fx as int) / (
                    embedded@.len() as int),
            ;
        }
    }
    let f = if p > 0 || r > 0 {
        let pr = fx_mul(p, r);
        let num = sat_add(pr, pr);
        fx_div(num, sat_add(p, r))
    } else {
        0
    };
    (p, r, f)
}

/// The saturating sums of the per-query precision, recall and F1 scores.
pub open spec fn fnn_totals_spec(qs: Seq<(Vec<ClusterID>, Vec<ClusterID>)>) -> (int, int, int)
    decreases qs.len(),
{
    if qs.len() == 0 {
        (0int, 0int, 0int)
    } else {
        let rest = fnn_totals_spec(qs.drop_last());
        let s = fnn_scores_spec(qs.last().0@, qs.last().1@);
        (sat64(rest.0 + s.0), sat64(rest.1 + s.1), sat64(rest.2 + s.2))
    }
}

/// The mean precision, recall and F1 over every query's pair of neighbour
/// lists (true neighbours first, embedding neighbours second).  The
/// evaluation needs at least one query, each with neighbours on both sides.
pub fn calc_fnn_scores(queries: &Vec<(Vec<ClusterID>, Vec<ClusterID>)>) -> (r: (i64, i64, i64))
    requires
        queries@.len() > 0,
        queries@.len() <= i64::MAX,
        forall|i: int|
            0 <= i < queries@.len() ==> 0 < (#[trigger] queries@[i]).0@.len() <= i64::MAX && 0 < (
            #[trigger] queries@[i]).1@.len() <= i64::MAX,
    ensures
        ({
            let totals = fnn_totals_spec(queries@);
            let n = queries@.len() as int;
            &&& r.0 as int == tdiv(totals.0, n)
            &&& r.1 as int == tdiv(totals.1, n)
            &&& r.2 as int == tdiv(totals.2, n)
        }),
{
    let n = queries.len();
    let mut p_tot: i64 = 0;
    let mut r_tot: i64 = 0;
    let mut f_tot: i64 = 0;
    let mut i: usize = 0;
    proof {
        assert(queries@.subrange(0, 0) =~= Seq::<(Vec<ClusterID>, Vec<ClusterID>)>::empty());
    }
    while i < n
        invariant
            i <= n,
            n == queries@.len(),
            forall|j: int|
                0 <= j < queries@.len() ==> 0 < (#[trigger] queries@[j]).0@.len() <= i64::MAX && 0
                    < (#[trigger] queries@[j]).1@.len() <= i64::MAX,
            (p_tot as int, r_tot as int, f_tot as int) == fnn_totals_spec(
                queries@.subrange(0, i as int),
            ),
        decreases n - i,
    {
        let (p, r, f) = fnn_pair_scores(&queries[i].0, &queries[i].1);
        p_tot = sat_add(p_tot, p);
        r_tot = sat_add(r_tot, r);
        f_tot = sat_add(f_tot, f);
        proof {
            let pre = queries@.subrange(0, i as int);
            let cur = queries@.subrange(0, i + 1int);
            assert(cur.drop_last() =~= pre);
            assert(cur.last() == queries@[i as int]);
        }
        i = i + 1;
    }
    proof {
        assert(queries@.subrange(0, n as int) =~= queries@);
    }
    let count = n as i64;
    (
        crate::fixed::div_by(p_tot, count),
        crate::fixed::div_by(r_tot, count),
        crate::fixed::div_by(f_tot, count),
    )
}

/// The saturating sum of a score list.
pub open spec fn sum_sat_spec(s: Seq<i64>) -> int
    decreases s.len(),
{
    if s.len() == 0 {
        0
    } else {
        sat64(sum_sat_spec(s.drop_last()) + s.last())
    }
}

/// The truncating mean of a score list; an empty list has no mean and is
/// the one input rejected.
pub fn mean_fx(scores: &Vec<i64>) -> (r: Result<i64, crate::error::FFIError>)
    requires
        scores@.len() <= i64::MAX,
    ensures
        match r {
            Ok(m) => scores@.len() > 0 && m as int == tdiv(
                sum_sat_spec(scores@),
                scores@.len() as int,
            ),
            Err(e) => scores@.len() == 0 && e == crate::error::FFIError::DivisionByZero,
        },
{
    let n = scores.len();
    if n == 0 {
        return Err(crate::error::FFIError::DivisionByZero);
    }
    let mut total: i64 = 0;
    let mut i: usize = 0;
    proof {
        assert(scores@.subrange(0, 0) =~= Seq::<i64>::empty());
    }
    while i < n
        invariant
            i <= n,
            n == scores@.len(),
            total as int == sum_sat_spec(scores@.subrange(0, i as int)),
        decreases n - i,
    {
        proof {
            let pre = scores@.subrange(0, i as int);
            let cur = scores@.subrange(0, i + 1int);
            assert(cur.drop_last() =~= pre);
            assert(cur.last() == scores@[i as int]);
        }
        total = sat_add(total, scores[i]);
        i = i + 1;
    }
    proof {
        assert(scores@.subrange(0, n as int) =~= scores@);
    }
    Ok(crate::fixed::div_by(total, n as i64))
}

/// Two distinct random indices below `n`, both different from `avoid`:
/// the sampler behind triangle evaluation.  `None` exactly when fewer than
/// two candidates exist.
pub fn choose_two_exclusive(n: usize, avoid: usize) -> (r: Option<(usize, usize)>)
    requires
        n <= i64::MAX,
    ensures
        match r {
            Some(p) => p.0 < n && p.1 < n && p.0 != p.1 && p.0 != avoid && p.1 != avoid,
            None => (if avoid < n {
                n - 1
            } else {
                n as int
            }) < 2,
        },
{
    // The candidates: every index except the avoided one, in order.
    let mut cands: Vec<usize> = Vec::new();
    let mut i: usize = 0;
    while i < n
        invariant
            i <= n,
            n <= i64::MAX,
            cands@.len() == if avoid < i {
                i - 1
            } else {
                i as int
            },
            forall|a: int|
                0 <= a < cands@.len() ==> (#[trigger] cands@[a]) < i && cands@[a] != avoid,
            forall|a: int, b: int|
                0 <= a < b < cands@.len() ==> (#[trigger] cands@[a]) < (#[trigger] cands@[b]),
        decreases n - i,
    {
        if i != avoid {
            cands.push(i);
        }
        i = i + 1;
    }
    if cands.len() < 2 {
        return None;
    }
    let first_pick = crate::rng::rand_index(cands.len());
    let first = cands[first_pick];
    // Remove the drawn candidate, then draw the second from the rest.
    let last = cands.len() - 1;
    let moved = cands[last];
    let ghost pre = cands@;
    cands.set(first_pick, moved);
    cands.pop();
    proof {
        assert(cands@ =~= pre.update(first_pick as int, moved).drop_last());
        assert forall|a: int|
            0 <= a < cands@.len() implies (#[trigger] cands@[a]) != first && cands@[a] < n
            && cands@[a] != avoid by {
            let ia: int = if a == first_pick {
                last as int
            } else {
                a
            };
            assert(cands@[a] == pre[ia]);
            if ia != first_pick {
                assert(pre[ia] != pre[first_pick as int]) by {
                    if ia < first_pick {
                        assert(pre[ia] < pre[first_pick as int]);
                    } else {
                        assert(pre[first_pick as int] < pre[ia]);
                    }
                }
            }
        }
    }
    let second_pick = crate::rng::rand_index(cands.len());
    let second = cands[second_pick];
    Some((first, second))
}

/// How often the pair `p` occurs in the list.
pub open spec fn pair_count(s: Seq<(ClusterID, i64)>, p: (ClusterID, i64)) -> int
    decreases s.len(),
{
    if s.len() == 0 {
        0
    } else {
        pair_count(s.drop_last(), p) + (if s.last() == p {
            1int
        } else {
            0int
        })
    }
}

proof fn lemma_pair_count_nonneg(s: Seq<(ClusterID, i64)>, p: (ClusterID, i64))
    ensures
        pair_count(s, p) >= 0,
    decreases s.len(),
{
    if s.len() > 0 {
        lemma_pair_count_nonneg(s.drop_last(), p);
    }
}

proof fn lemma_pair_count_remove(s: Seq<(ClusterID, i64)>, i: int, p: (ClusterID, i64))
    requires
        0 <= i < s.len(),
    ensures
        pair_count(s.remove(i), p) == pair_count(s, p) - (if s[i] == p {
            1int
        } else {
            0int
        }),
    decreases s.len(),
{
    if i == s.len() - 1 {
        assert(s.remove(i) =~= s.drop_last());
    } else {
        assert(s.remove(i).drop_last() =~= s.drop_last().remove(i));
        assert(s.remove(i).last() == s.last());
        lemma_pair_count_remove(s.drop_last(), i, p);
        assert(s.drop_last()[i] == s[i]);
    }
}

proof fn lemma_pair_count_member(s: Seq<(ClusterID, i64)>, i: int)
    requires
        0 <= i < s.len(),
    ensures
        pair_count(s, s[i]) >= 1,
    decreases s.len(),
{
    lemma_pair_count_nonneg(s.drop_last(), s[i]);
    if i < s.len() - 1 {
        lemma_pair_count_member(s.drop_last(), i);
        assert(s.drop_last()[i] == s[i]);
    }
}

proof fn lemma_pair_count_exists(s: Seq<(ClusterID, i64)>, p: (ClusterID, i64))
    requires
        pair_count(s, p) >= 1,
    ensures
        exists|i: int| 0 <= i < s.len() && (#[trigger] s[i]) == p,
    decreases s.len(),
{
    lemma_pair_count_nonneg(s.drop_last(), p);
    if s.last() == p {
        assert(s[s.len() - 1] == p);
    } else {
        lemma_pair_count_exists(s.drop_last(), p);
        let w = choose|w: int| 0 <= w < s.drop_last().len() && (#[trigger] s.drop_last()[w]) == p;
        assert(s[w] == p);
    }
}

/// The `k` nearest candidates by distance: the result holds `min(k, n)`
/// pairs drawn from the input (counted with multiplicity), sorted by
/// distance, and no dropped candidate is nearer than a kept one.
pub fn nearest_k(cands: &Vec<(ClusterID, i64)>, k: usize) -> (r: Vec<(ClusterID, i64)>)
    ensures
        r@.len() == if k <= cands@.len() {
            k as int
        } else {
            cands@.len() as int
        },
        forall|a: int, b: int| 0 <= a < b < r@.len() ==> (#[trigger] r@[a]).1 <= (#[trigger] r@[b]).1,
        forall|p: (ClusterID, i64)| #[trigger] pair_count(r@, p) <= pair_count(cands@, p),
        forall|j: int|
            0 <= j < cands@.len() ==> pair_count(r@, #[trigger] cands@[j]) >= 1 || r@.len() == 0
                || cands@[j].1 >= r@[r@.len() - 1].1,
{
    let total = cands.len();
    let take = if k <= total {
        k
    } else {
        total
    };

    // A working copy holding the not-yet-selected candidates.
    let mut work: Vec<(ClusterID, i64)> = Vec::new();
    let mut i: usize = 0;
    while i < total
        invariant
            i <= total,
            total == cands@.len(),
            work@ =~= cands@.subrange(0, i as int),
        decreases total - i,
    {
        work.push(cands[i]);
        proof {
            assert(work@.drop_last() =~= cands@.subrange(0, i as int));
            assert(work@ =~= cands@.subrange(0, i + 1int));
        }
        i = i + 1;
    }
    proof {
        assert(work@ =~= cands@);
        assert(work@ == cands@);
    }

    let mut out: Vec<(ClusterID, i64)> = Vec::new();
    while out.len() < take
        invariant
            take <= total == cands@.len(),
            out@.len() <= take,
            out@.len() + work@.len() == total,
            forall|a: int, b: int|
                0 <= a < b < out@.len() ==> (#[trigger] out@[a]).1 <= (#[trigger] out@[b]).1,
            forall|a: int, b: int|
                0 <= a < out@.len() && 0 <= b < work@.len() ==> (#[trigger] out@[a]).1 <= (
                #[trigger] work@[b]).1,
            forall|p: (ClusterID, i64)| #[trigger]
                pair_count(out@, p) + pair_count(work@, p) == pair_count(cands@, p),
        decreases take - out@.len(),
    {
        // The nearest remaining candidate.
        let m = work.len();
        let mut best: usize = 0;
        let mut j: usize = 1;
        while j < m
            invariant
                1 <= j <= m,
                m == work@.len(),
                best < j,
                forall|w: int| 0 <= w < j ==> (#[trigger] work@[w]).1 >= work@[best as int].1,
            decreases m - j,
        {
            if work[j].1 < work[best].1 {
                best = j;
            }
            j = j + 1;
        }
        let chosen = work[best];
        let ghost pre_out = out@;
        let ghost pre_work = work@;
        out.push(chosen);
        work.remove(best);
        proof {
            assert(work@ =~= pre_work.remove(best as int));
            assert(out@.drop_last() =~= pre_out);
            assert forall|p: (ClusterID, i64)| #[trigger]
                pair_count(out@, p) + pair_count(work@, p) == pair_count(cands@, p) by {
                lemma_pair_count_remove(pre_work, best as int, p);
                assert(pair_count(pre_out, p) + pair_count(pre_work, p) == pair_count(cands@, p));
                assert(pre_work[best as int] == chosen);
                assert(pair_count(out@, p) == pair_count(pre_out, p) + (if chosen == p {
                    1int
                } else {
                    0int
                }));
            }
            // The drawn minimum keeps both orderings: it is at least every
            // already-selected pair and at most every remaining one.
            assert forall|a: int, b: int|
                0 <= a < out@.len() && 0 <= b < work@.len() implies (#[trigger] out@[a]).1 <= (
            #[trigger] work@[b]).1 by {
                let src: int = if b < best {
                    b
                } else {
                    b + 1
                };
                assert(work@[b] == pre_work[src]);
                if a < out@.len() - 1 {
                    assert(out@[a] == pre_out[a]);
                } else {
                    assert(out@[a] == chosen);
                    assert(pre_work[src].1 >= pre_work[best as int].1);
                }
            }
            assert forall|a: int, b: int|
                0 <= a < b < out@.len() implies (#[trigger] out@[a]).1 <= (
            #[trigger] out@[b]).1 by {
                if b == out@.len() - 1 {
                    assert(out@[a] == pre_out[a]);
                    assert(pre_out[a].1 <= pre_work[best as int].1);
                }
            }
        }
    }
    proof {
        assert forall|p: (ClusterID, i64)| #[trigger]
            pair_count(out@, p) <= pair_count(cands@, p) by {
            lemma_pair_count_nonneg(work@, p);
        }
        assert forall|j: int|
            0 <= j < cands@.len() implies (pair_count(out@, #[trigger] cands@[j]) >= 1
            || out@.len() == 0 || cands@[j].1 >= out@[out@.len() - 1].1) by {
            lemma_pair_count_member(cands@, j);
            lemma_pair_count_nonneg(out@, cands@[j]);
            if pair_count(out@, cands@[j]) == 0 && out@.len() > 0 {
                lemma_pair_count_exists(work@, cands@[j]);
                let w = choose|w: int| 0 <= w < work@.len() && (#[trigger] work@[w]) == cands@[j];
                assert(out@[out@.len() - 1].1 <= work@[w].1);
            }
        }
    }
    out
}

/// The edge-length distortion of one triangle: the lengths are normalized
/// by their perimeter on each side, and the distortion is the sum of the
/// absolute differences of corresponding shares.
pub open spec fn edge_distortion_spec(reference: (int, int, int), test: (int, int, int)) -> int {
    let pr = sat64(sat64(reference.0 + reference.1) + reference.2);
    let pt = sat64(sat64(test.0 + test.1) + test.2);
    let r0 = sat64(tdiv(reference.0 * SCALE, pr));
    let r1 = sat64(tdiv(reference.1 * SCALE, pr));
    let r2 = sat64(tdiv(reference.2 * SCALE, pr));
    let t0 = sat64(tdiv(test.0 * SCALE, pt));
    let t1 = sat64(tdiv(test.1 * SCALE, pt));
    let t2 = sat64(tdiv(test.2 * SCALE, pt));
    sat64(sat64(abs_int(t0 - r0) + abs_int(t1 - r1)) + abs_int(t2 - r2))
}

/// The absolute value.
pub open spec fn abs_int(x: int) -> int {
    if x >= 0 {
        x
    } else {
        -x
    }
}

/// Saturating absolute difference.
fn abs_diff(a: i64, b: i64) -> (r: i64)
    ensures
        r as int == sat64(abs_int(sat64(a - b))),
{
    if a >= b {
        sat_sub(a, b)
    } else {
        sat_sub(b, a)
    }
}

/// The edge-length distortion between a triangle's source-space side
/// lengths and its rendered side lengths (both positive, so each perimeter
/// is a valid normalizer).
pub fn calc_edge_distortion(reference: (i64, i64, i64), test: (i64, i64, i64)) -> (r: i64)
    requires
        reference.0 > 0 && reference.1 > 0 && reference.2 > 0,
        test.0 > 0 && test.1 > 0 && test.2 > 0,
    ensures
        r as int == edge_distortion_spec(
            (reference.0 as int, reference.1 as int, reference.2 as int),
            (test.0 as int, test.1 as int, test.2 as int),
        ),
{
    let pr = sat_add(sat_add(reference.0, reference.1), reference.2);
    let pt = sat_add(sat_add(test.0, test.1), test.2);
    let r0 = fx_div(reference.0, pr);
    let r1 = fx_div(reference.1, pr);
    let r2 = fx_div(reference.2, pr);
    let t0 = fx_div(test.0, pt);
    let t1 = fx_div(test.1, pt);
    let t2 = fx_div(test.2, pt);
    proof {
        assert(abs_int(sat64(t0 - r0)) == abs_int(t0 - r0));
        assert(abs_int(sat64(t1 - r1)) == abs_int(t1 - r1));
        assert(abs_int(sat64(t2 - r2)) == abs_int(t2 - r2));
    }
    sat_add(sat_add(abs_diff(t0, r0), abs_diff(t1, r1)), abs_diff(t2, r2))
}

/// The three labelled edges of each triangle, sorted by length, carry the
/// same labels in the same order.
pub open spec fn triangles_equivalent_spec(
    reference: Seq<(u8, i64)>,
    test: Seq<(u8, i64)>,
) -> bool {
    sort3_spec(reference).0 == sort3_spec(test).0 && sort3_spec(reference).1 == sort3_spec(test).1
        && sort3_spec(reference).2 == sort3_spec(test).2
}

/// Three labelled lengths in non-decreasing length order (stable).
pub open spec fn sort3_spec(t: Seq<(u8, i64)>) -> (u8, u8, u8)
    recommends
        t.len() == 3,
{
    let a = t[0];
    let b = t[1];
    let c = t[2];
    let (x, y) = if b.1 < a.1 {
        (b, a)
    } else {
        (a, b)
    };
    let (x2, z) = if c.1 < x.1 {
        (c, x)
    } else {
        (x, c)
    };
    let (y2, z2) = if z.1 < y.1 {
        (z, y)
    } else {
        (y, z)
    };
    (x2.0, y2.0, z2.0)
}

/// Whether the two triangles' edges, sorted by length, carry the same
/// labels in the same order: one exactly when the orderings agree.
pub fn are_triangles_equivalent(reference: &Vec<(u8, i64)>, test: &Vec<(u8, i64)>) -> (r: bool)
    requires
        reference@.len() == 3,
        test@.len() == 3,
    ensures
        r == triangles_equivalent_spec(reference@, test@),
{
    let ra = sort3(reference);
    let ta = sort3(test);
    ra.0 == ta.0 && ra.1 == ta.1 && ra.2 == ta.2
}

/// Sort three labelled lengths by length.
fn sort3(t: &Vec<(u8, i64)>) -> (r: (u8, u8, u8))
    requires
        t@.len() == 3,
    ensures
        r == sort3_spec(t@),
{
    let a = t[0];
    let b = t[1];
    let c = t[2];
    let (x, y) = if b.1 < a.1 {
        (b, a)
    } else {
        (a, b)
    };
    let (x2, z) = if c.1 < x.1 {
        (c, x)
    } else {
        (x, c)
    };
    let (y2, z2) = if z.1 < y.1 {
        (z, y)
    } else {
        (y, z)
    };
    (x2.0, y2.0, z2.0)
}

/// The three points lie on one line: the cross product of the two edge
/// vectors vanishes.
pub open spec fn collinear_spec(p1: Vec3Fx, p2: Vec3Fx, p3: Vec3Fx) -> bool {
    let ux = p2.x - p1.x;
    let uy = p2.y - p1.y;
    let uz = p2.z - p1.z;
    let vx = p3.x - p1.x;
    let vy = p3.y - p1.y;
    let vz = p3.z - p1.z;
    &&& uy * vz - uz * vy == 0
    &&& uz * vx - ux * vz == 0
    &&& ux * vy - uy * vx == 0
}

/// Exact collinearity of three positions.  Machine limit: the edge-vector
/// components must fit `i64`, so that their products fit `i128`.
pub fn are_collinear(p1: Vec3Fx, p2: Vec3Fx, p3: Vec3Fx) -> (r: bool)
    requires
        i64::MIN <= p2.x - p1.x <= i64::MAX,
        i64::MIN <= p2.y - p1.y <= i64::MAX,
        i64::MIN <= p2.z - p1.z <= i64::MAX,
        i64::MIN <= p3.x - p1.x <= i64::MAX,
        i64::MIN <= p3.y - p1.y <= i64::MAX,
        i64::MIN <= p3.z - p1.z <= i64::MAX,
    ensures
        r == collinear_spec(p1, p2, p3),
{
    let ux = (p2.x as i128) - (p1.x as i128);
    let uy = (p2.y as i128) - (p1.y as i128);
    let uz = (p2.z as i128) - (p1.z as i128);
    let vx = (p3.x as i128) - (p1.x as i128);
    let vy = (p3.y as i128) - (p1.y as i128);
    let vz = (p3.z as i128) - (p1.z as i128);
    proof {
        crate::fixed::lemma_mul_i64_fits(uy as int, vz as int);
        crate::fixed::lemma_mul_i64_fits(uz as int, vy as int);
        crate::fixed::lemma_mul_i64_fits(uz as int, vx as int);
        crate::fixed::lemma_mul_i64_fits(ux as int, vz as int);
        crate::fixed::lemma_mul_i64_fits(ux as int, vy as int);
        crate::fixed::lemma_mul_i64_fits(uy as int, vx as int);
    }
    (uy * vz == uz * vy) && (uz * vx == ux * vz) && (ux * vy == uy * vx)
}

} // verus!
