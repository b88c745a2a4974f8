//! Candidate pairing: every unordered pair of candidates, each exactly
//! once.
//!
//! Pairing is deliberately combinatorial: for `n` candidates it yields
//! all `n * (n - 1) / 2` unordered pairs, so comparison work grows
//! quadratically with the candidate set. Enumeration order is
//! lexicographic by input position, so a fixed input order always
//! yields the same pair order.

use itertools::Itertools;
use vstd::prelude::*;

use crate::validate::ValidatedFile;

verus! {

/// An unordered pair of dedup candidates; `{a, b}` and `{b, a}` are
/// the same pair and are emitted once, as `(earlier, later)` in input
/// order.
#[derive(Clone, Debug)]
pub struct DedupCandidatePair {
    pub a: ValidatedFile,
    pub b: ValidatedFile,
}

/// The pairs `(i, j)`, `j` ranging over `j0 .. n`, for one fixed `i`.
pub open spec fn row_pairs(i: int, j0: int, n: int) -> Seq<(usize, usize)>
    decreases n - j0,
{
    if j0 < 0 || j0 >= n {
        Seq::empty()
    } else {
        seq![(i as usize, j0 as usize)] + row_pairs(i, j0 + 1, n)
    }
}

/// All index pairs `(i, j)` with `i0 <= i < j < n`, in lexicographic
/// order.
pub open spec fn pairs_from(i0: int, n: int) -> Seq<(usize, usize)>
    decreases n - i0,
{
    if i0 < 0 || i0 >= n {
        Seq::empty()
    } else {
        row_pairs(i0, i0 + 1, n) + pairs_from(i0 + 1, n)
    }
}

/// All index pairs `(i, j)` with `0 <= i < j < n`, in lexicographic
/// order: the enumeration order of candidate pairing.
pub open spec fn index_pairs_seq(n: int) -> Seq<(usize, usize)> {
    pairs_from(0, n)
}

proof fn lemma_row_pairs(i: int, j0: int, n: int)
    requires
        0 <= i,
        0 <= j0 <= n,
    ensures
        row_pairs(i, j0, n).len() == n - j0,
        forall|k: int|
            0 <= k < n - j0 ==> #[trigger] row_pairs(i, j0, n)[k] == (i as usize, (j0 + k) as usize),
    decreases n - j0,
{
    if j0 < n {
        lemma_row_pairs(i, j0 + 1, n);
    }
}

/// An index pair drawn from `lo .. n`, strictly ordered.
pub open spec fn pair_in_range(p: (usize, usize), lo: int, n: int) -> bool {
    lo <= p.0 && p.0 < p.1 && (p.1 as int) < n
}

proof fn lemma_pairs_from(i0: int, n: int)
    requires
        0 <= i0 <= n,
        n <= usize::MAX,
    ensures
        2 * pairs_from(i0, n).len() == (n - i0) * (n - i0 - 1),
        forall|k: int|
            0 <= k < pairs_from(i0, n).len() ==> pair_in_range(
                #[trigger] pairs_from(i0, n)[k],
                i0,
                n,
            ),
        forall|k1: int, k2: int|
            0 <= k1 < k2 < pairs_from(i0, n).len() ==> #[trigger] pairs_from(i0, n)[k1]
                != #[trigger] pairs_from(i0, n)[k2],
        forall|x: usize, y: usize|
            i0 <= x < y < n ==> #[trigger] pairs_from(i0, n).contains((x, y)),
    decreases n - i0,
{
    let all = pairs_from(i0, n);
    if i0 < n {
        let row = row_pairs(i0, i0 + 1, n);
        let rest = pairs_from(i0 + 1, n);
        lemma_row_pairs(i0, i0 + 1, n);
        lemma_pairs_from(i0 + 1, n);
        assert(all == row + rest);
        assert(2 * all.len() == (n - i0) * (n - i0 - 1)) by (nonlinear_arith)
            requires
                all.len() == row.len() + rest.len(),
                row.len() == n - i0 - 1,
                2 * rest.len() == (n - i0 - 1) * (n - i0 - 2),
        ;
        assert forall|k: int| 0 <= k < all.len() implies pair_in_range(
            #[trigger] all[k],
            i0,
            n,
        ) by {
            if k < row.len() {
                assert(all[k] == row[k]);
                assert(row[k] == (i0 as usize, (i0 + 1 + k) as usize));
            } else {
                assert(all[k] == rest[k - row.len()]);
                assert(pair_in_range(rest[k - row.len()], i0 + 1, n));
            }
        }
        assert forall|k1: int, k2: int| 0 <= k1 < k2 < all.len() implies #[trigger] all[k1]
            != #[trigger] all[k2] by {
            if k2 < row.len() {
                assert(row[k1] == (i0 as usize, (i0 + 1 + k1) as usize));
                assert(row[k2] == (i0 as usize, (i0 + 1 + k2) as usize));
            } else if k1 < row.len() {
                assert(all[k1] == (i0 as usize, (i0 + 1 + k1) as usize));
                assert(pair_in_range(rest[k2 - row.len()], i0 + 1, n));
            } else {
                assert(rest[k1 - row.len()] != rest[k2 - row.len()]);
            }
        }
        assert forall|x: usize, y: usize| i0 <= x < y < n implies #[trigger] all.contains(
            (x, y),
        ) by {
            if x == i0 {
                assert(row[y - i0 - 1] == (x, y));
                assert(all[y - i0 - 1] == (x, y));
            } else {
                assert(rest.contains((x, y)));
                let k = choose|k: int| 0 <= k < rest.len() && rest[k] == (x, y);
                assert(all[row.len() + k] == (x, y));
            }
        }
    } else {
        assert((n - i0) * (n - i0 - 1) == 0) by (nonlinear_arith)
            requires
                i0 == n,
        ;
    }
}

/// Counting law of candidate pairing: a candidate set of size `n`
/// yields exactly `n * (n - 1) / 2` pairs.
pub proof fn lemma_pairs_count(n: int)
    requires
        0 <= n <= usize::MAX,
    ensures
        2 * index_pairs_seq(n).len() == n * (n - 1),
{
    lemma_pairs_from(0, n);
}

/// Exactly-once law of candidate pairing: every emitted index pair is
/// strictly ordered and in range, no pair is emitted twice, and every
/// unordered pair of distinct candidates is emitted.
pub proof fn lemma_pairs_exactly_once(n: int)
    requires
        0 <= n <= usize::MAX,
    ensures
        forall|k: int|
            0 <= k < index_pairs_seq(n).len() ==> pair_in_range(
                #[trigger] index_pairs_seq(n)[k],
                0,
                n,
            ),
        forall|k1: int, k2: int|
            0 <= k1 < k2 < index_pairs_seq(n).len() ==> #[trigger] index_pairs_seq(n)[k1]
                != #[trigger] index_pairs_seq(n)[k2],
        forall|x: usize, y: usize|
            x < y < n ==> #[trigger] index_pairs_seq(n).contains((x, y)),
{
    lemma_pairs_from(0, n);
}

/// Relies on itertools' `Itertools::combinations` with `k == 2`: over
/// the index range `0..n` it yields every two-element combination
/// exactly once, in lexicographic order (the crate's combination
/// iterator starts at `[0, 1]` and advances its index vector in
/// lexicographic order).
#[verifier::external_body]
pub(crate) fn index_pairs(n: usize) -> (r: Vec<(usize, usize)>)
    ensures
        r@ == index_pairs_seq(n as int),
{
    (0..n).combinations(2).map(|c| (c[0], c[1])).collect()
}

/// The emitted pairs are exactly the index pairs of the candidate
/// list, read back through it: pair `k` holds the files at the `k`-th
/// index pair.
pub open spec fn pairs_match(r: Seq<DedupCandidatePair>, files: Seq<ValidatedFile>) -> bool {
    let ip = index_pairs_seq(files.len() as int);
    &&& r.len() == ip.len()
    &&& forall|k: int|
        0 <= k < r.len() ==> {
            let p = #[trigger] ip[k];
            r[k].a == files[p.0 as int] && r[k].b == files[p.1 as int]
        }
}

/// Enumerate every unordered pair of the given candidates, each
/// exactly once, in lexicographic order of input positions.
pub fn pairs(files: &Vec<ValidatedFile>) -> (r: Vec<DedupCandidatePair>)
    ensures
        pairs_match(r@, files@),
{
    let n = files.len();
    let idx = index_pairs(n);
    proof {
        lemma_pairs_from(0, n as int);
    }
    let mut out: Vec<DedupCandidatePair> = Vec::new();
    let m = idx.len();
    let ghost ip = index_pairs_seq(n as int);
    for k in 0..m
        invariant
            m == idx@.len(),
            n == files@.len(),
            idx@ == ip,
            ip == index_pairs_seq(n as int),
            forall|t: int| 0 <= t < m ==> pair_in_range(#[trigger] ip[t], 0, n as int),
            out@.len() == k,
            forall|t: int|
                0 <= t < k ==> {
                    let p = ip[t];
                    (#[trigger] out@[t]).a == files@[p.0 as int] && out@[t].b == files@[p.1 as int]
                },
    {
        let (i, j) = idx[k];
        out.push(DedupCandidatePair { a: files[i].clone(), b: files[j].clone() });
    }
    out
}

} // verus!
