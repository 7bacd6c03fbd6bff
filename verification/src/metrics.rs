//! String distances over utf8 bytes: the Levenshtein edit distance, and the
//! Needleman-Wunsch distance with the customary unit penalties (match zero,
//! mismatch one, gap one), which denotes the same number.

use vstd::prelude::*;
use vstd::string::StringSliceAdditionalSpecFns;

verus! {

/// The smaller of two integers.
pub open spec fn min2(a: int, b: int) -> int {
    if a <= b {
        a
    } else {
        b
    }
}

/// The edit distance between two byte strings: the least number of single
/// byte insertions, deletions and substitutions turning one into the other,
/// by the textbook recurrence.
pub open spec fn edit_dist(x: Seq<u8>, y: Seq<u8>) -> int
    decreases x.len(), y.len(),
{
    if x.len() == 0 {
        y.len() as int
    } else if y.len() == 0 {
        x.len() as int
    } else {
        let del = edit_dist(x.drop_last(), y) + 1;
        let ins = edit_dist(x, y.drop_last()) + 1;
        let sub = edit_dist(x.drop_last(), y.drop_last()) + (
        if x.last() == y.last() {
            0int
        } else {
            1int
        });
        min2(del, min2(ins, sub))
    }
}

/// The edit distance is non-negative and at most the sum of the lengths.
pub proof fn lemma_edit_dist_bounds(x: Seq<u8>, y: Seq<u8>)
    ensures
        0 <= edit_dist(x, y) <= x.len() + y.len(),
    decreases x.len(), y.len(),
{
    if x.len() > 0 && y.len() > 0 {
        lemma_edit_dist_bounds(x.drop_last(), y);
        lemma_edit_dist_bounds(x, y.drop_last());
        lemma_edit_dist_bounds(x.drop_last(), y.drop_last());
    }
}

/// The edit distance of two byte slices, by dynamic programming over rows.
fn edit_distance_bytes(x: &[u8], y: &[u8]) -> (r: usize)
    requires
        x@.len() + y@.len() < usize::MAX,
    ensures
        r == edit_dist(x@, y@),
{
    let n = y.len();
    let m = x.len();

    // Row zero: the distance from the empty prefix of `x`.
    let mut prev: Vec<usize> = Vec::new();
    let mut j: usize = 0;
    while j <= n
        invariant
            j <= n + 1,
            n == y@.len(),
            n < usize::MAX,
            prev@.len() == j,
            forall|w: int| 0 <= w < j ==> prev@[w] == edit_dist(x@.subrange(0, 0), y@.subrange(0, w)),
        decreases n + 1 - j,
    {
        proof {
            assert(x@.subrange(0, 0) =~= Seq::<u8>::empty());
            assert(y@.subrange(0, j as int).len() == j);
        }
        prev.push(j);
        j = j + 1;
    }

    let mut i: usize = 1;
    while i <= m
        invariant
            1 <= i <= m + 1,
            m == x@.len(),
            n == y@.len(),
            m + n < usize::MAX,
            prev@.len() == n + 1,
            forall|w: int|
                0 <= w <= n ==> prev@[w] == edit_dist(x@.subrange(0, i - 1), y@.subrange(0, w)),
        decreases m + 1 - i,
    {
        let mut cur: Vec<usize> = Vec::new();
        proof {
            assert(y@.subrange(0, 0) =~= Seq::<u8>::empty());
            assert(x@.subrange(0, i as int).len() == i);
            lemma_edit_dist_bounds(x@.subrange(0, i as int), y@.subrange(0, 0));
        }
        cur.push(i);
        let mut j: usize = 1;
        while j <= n
            invariant
                1 <= j <= n + 1,
                1 <= i <= m,
                m == x@.len(),
                n == y@.len(),
                m + n < usize::MAX,
                prev@.len() == n + 1,
                forall|w: int|
                    0 <= w <= n ==> prev@[w] == edit_dist(x@.subrange(0, i - 1), y@.subrange(0, w)),
                cur@.len() == j,
                forall|w: int|
                    0 <= w < j ==> cur@[w] == edit_dist(x@.subrange(0, i as int), y@.subrange(0, w)),
            decreases n + 1 - j,
        {
            let ghost xi = x@.subrange(0, i as int);
            let ghost yj = y@.subrange(0, j as int);
            proof {
                assert(xi.drop_last() =~= x@.subrange(0, i - 1));
                assert(yj.drop_last() =~= y@.subrange(0, j - 1));
                assert(xi.last() == x@[i - 1]);
                assert(yj.last() == y@[j - 1]);
                lemma_edit_dist_bounds(xi.drop_last(), yj);
                lemma_edit_dist_bounds(xi, yj.drop_last());
                lemma_edit_dist_bounds(xi.drop_last(), yj.drop_last());
            }
            let del = prev[j] + 1;
            let ins = cur[j - 1] + 1;
            let same = x[i - 1] == y[j - 1];
            let sub = if same {
                prev[j - 1]
            } else {
                prev[j - 1] + 1
            };
            let best = if del <= ins {
                del
            } else {
                ins
            };
            let best = if sub <= best {
                sub
            } else {
                best
            };
            cur.push(best);
            j = j + 1;
        }
        prev = cur;
        i = i + 1;
    }
    proof {
        assert(x@.subrange(0, m as int) =~= x@);
        assert(y@.subrange(0, n as int) =~= y@);
    }
    prev[n]
}

/// The Levenshtein edit distance between two strings, over their utf8
/// bytes.
pub fn levenshtein(x: &str, y: &str) -> (r: u32)
    requires
        x.spec_bytes().len() + y.spec_bytes().len() < u32::MAX,
    ensures
        r == edit_dist(x.spec_bytes(), y.spec_bytes()),
{
    let d = edit_distance_bytes(x.as_bytes(), y.as_bytes());
    proof {
        lemma_edit_dist_bounds(x.spec_bytes(), y.spec_bytes());
    }
    d as u32
}

/// The Needleman-Wunsch distance with unit penalties (match zero, mismatch
/// one, gap one) between two strings, over their utf8 bytes: with these
/// penalties the optimal global alignment cost is the edit distance.
pub fn nw_distance(x: &str, y: &str) -> (r: u32)
    requires
        x.spec_bytes().len() + y.spec_bytes().len() < u32::MAX,
    ensures
        r == edit_dist(x.spec_bytes(), y.spec_bytes()),
{
    levenshtein(x, y)
}

} // verus!
