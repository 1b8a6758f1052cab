//! Who meets whom in a season.

use vstd::prelude::*;

verus! {

/// The pairings `(first, first)`, `(first, first + 1)`, ..., `len` of them.
pub open spec fn row_of(first: int, len: int) -> Seq<(usize, usize)> {
    Seq::new(len as nat, |k: int| (first as usize, (first + k) as usize))
}

/// The pairings of the players from `first` on among `n` players: the row
/// of `first`, then the rows of those after it.
pub open spec fn pairings_from(first: int, n: int) -> Seq<(usize, usize)>
    decreases n - first,
{
    if first >= n {
        Seq::empty()
    } else {
        row_of(first, n - first) + pairings_from(first + 1, n)
    }
}

/// The pairings of a season among `n` players, in the order in which they
/// are played: every player meets itself and every player after it.
pub open spec fn all_pairings(n: int) -> Seq<(usize, usize)> {
    pairings_from(0, n)
}

/// Whether pairing `a` stands before pairing `b` in dictionary order.
pub open spec fn comes_before(a: (usize, usize), b: (usize, usize)) -> bool {
    a.0 < b.0 || (a.0 == b.0 && a.1 < b.1)
}

/// How often player `p` takes part in `pairs`. A pairing of `p` with itself
/// counts twice: the player sits on both sides.
pub open spec fn appearances(pairs: Seq<(usize, usize)>, p: int) -> int
    decreases pairs.len(),
{
    if pairs.len() == 0 {
        0
    } else {
        appearances(pairs.drop_last(), p) + (if pairs.last().0 == p {
            1int
        } else {
            0int
        }) + (if pairs.last().1 == p {
            1int
        } else {
            0int
        })
    }
}

/// Among `n` players there are `n * (n + 1) / 2` pairings.
pub proof fn lemma_pairings_len(first: int, n: int)
    requires
        0 <= first <= n,
    ensures
        2 * pairings_from(first, n).len() == (n - first) * (n - first + 1),
    decreases n - first,
{
    if first < n {
        lemma_pairings_len(first + 1, n);
        let m = n - first;
        let rest = pairings_from(first + 1, n).len() as int;
        assert(pairings_from(first, n).len() == m + rest);
        assert(2 * rest == (m - 1) * m);
        assert(m * (m + 1) == (m - 1) * m + 2 * m) by (nonlinear_arith);
        assert(2 * (m + rest) == (n - first) * (n - first + 1));
    } else {
        assert((n - first) * (n - first + 1) == 0) by (nonlinear_arith)
            requires
                n - first == 0,
        ;
    }
}

/// Twice the number of pairings among `n` players is `n * (n + 1)`.
pub proof fn lemma_pairings_count(n: int)
    requires
        0 <= n,
    ensures
        2 * all_pairings(n).len() == n * (n + 1),
{
    lemma_pairings_len(0, n);
    assert((n - 0) * (n - 0 + 1) == n * (n + 1));
}

/// The pairings hold every pair `(a, b)` with `a <= b` of players below `n`
/// and nothing else, in dictionary order, and so each of them once.
pub proof fn lemma_pairings_are_all_pairs(first: int, n: int)
    requires
        0 <= first <= n <= usize::MAX,
    ensures
        forall|k: int|
            0 <= k < pairings_from(first, n).len() ==> {
                let pair = #[trigger] pairings_from(first, n)[k];
                first <= pair.0 <= pair.1 < n
            },
        forall|a: int, b: int|
            first <= a <= b < n ==> #[trigger] pairings_from(first, n).contains(
                (a as usize, b as usize),
            ),
        forall|i: int, j: int|
            0 <= i < j < pairings_from(first, n).len() ==> comes_before(
                #[trigger] pairings_from(first, n)[i],
                #[trigger] pairings_from(first, n)[j],
            ),
    decreases n - first,
{
    if first < n {
        lemma_pairings_are_all_pairs(first + 1, n);
        let row = row_of(first, n - first);
        let rest = pairings_from(first + 1, n);
        let all = pairings_from(first, n);
        assert(all == row + rest);
        assert forall|k: int| 0 <= k < all.len() implies {
            let pair = #[trigger] all[k];
            first <= pair.0 <= pair.1 < n
        } by {
            if k >= row.len() {
                assert(all[k] == rest[k - row.len()]);
            }
        }
        assert forall|a: int, b: int| first <= a <= b < n implies #[trigger] all.contains(
            (a as usize, b as usize),
        ) by {
            if a == first {
                assert(all[b - first] == (a as usize, b as usize));
            } else {
                assert(rest.contains((a as usize, b as usize)));
                let k = choose|k: int| 0 <= k < rest.len() && rest[k] == (a as usize, b as usize);
                assert(all[row.len() + k] == rest[k]);
            }
        }
        assert forall|i: int, j: int| 0 <= i < j < all.len() implies comes_before(
            #[trigger] all[i],
            #[trigger] all[j],
        ) by {
            if j < row.len() {
            } else if i < row.len() {
                assert(all[j] == rest[j - row.len()]);
            } else {
                assert(all[i] == rest[i - row.len()]);
                assert(all[j] == rest[j - row.len()]);
            }
        }
    }
}

/// Appearances add up over the two parts of a sequence, and are never
/// negative.
pub proof fn lemma_appearances_add(left: Seq<(usize, usize)>, right: Seq<(usize, usize)>, p: int)
    ensures
        appearances(left + right, p) == appearances(left, p) + appearances(right, p),
        appearances(left, p) >= 0,
        appearances(right, p) >= 0,
    decreases right.len(),
{
    lemma_appearances_nonnegative(left, p);
    lemma_appearances_nonnegative(right, p);
    if right.len() == 0 {
        assert(left + right == left);
    } else {
        lemma_appearances_add(left, right.drop_last(), p);
        assert((left + right).drop_last() == left + right.drop_last());
    }
}

proof fn lemma_appearances_nonnegative(pairs: Seq<(usize, usize)>, p: int)
    ensures
        appearances(pairs, p) >= 0,
    decreases pairs.len(),
{
    if pairs.len() > 0 {
        lemma_appearances_nonnegative(pairs.drop_last(), p);
    }
}

/// In the start of a sequence of pairings a player appears no more often
/// than in all of it.
pub proof fn lemma_appearances_grow(pairs: Seq<(usize, usize)>, k: int, p: int)
    requires
        0 <= k <= pairs.len(),
    ensures
        0 <= appearances(pairs.take(k), p) <= appearances(pairs, p),
{
    lemma_appearances_add(pairs.take(k), pairs.skip(k), p);
    assert(pairs.take(k) + pairs.skip(k) == pairs);
}

/// In its own row a player appears once for each pairing and once more for
/// meeting itself; in the row of a player before it, once; in a later row,
/// never.
proof fn lemma_appearances_in_row(first: int, len: int, p: int)
    requires
        0 <= first,
        0 <= len,
        first + len <= usize::MAX + 1,
    ensures
        appearances(row_of(first, len), p) == (if first == p {
            len
        } else {
            0
        }) + (if first <= p < first + len {
            1int
        } else {
            0int
        }),
    decreases len,
{
    if len > 0 {
        lemma_appearances_in_row(first, len - 1, p);
        assert(row_of(first, len).drop_last() == row_of(first, len - 1));
    }
}

proof fn lemma_appearances_from(first: int, n: int, p: int)
    requires
        0 <= first <= n <= usize::MAX,
        0 <= p < n,
    ensures
        appearances(pairings_from(first, n), p) == (if first <= p {
            n - first + 1
        } else {
            0
        }),
    decreases n - first,
{
    if first < n {
        lemma_appearances_from(first + 1, n, p);
        lemma_appearances_in_row(first, n - first, p);
        lemma_appearances_add(row_of(first, n - first), pairings_from(first + 1, n), p);
    }
}

/// In a season among `n` players every player plays `n + 1` times: once
/// against each of the others and twice, on both sides, against itself.
pub proof fn lemma_everyone_plays(n: int, p: int)
    requires
        0 <= p < n <= usize::MAX,
    ensures
        appearances(all_pairings(n), p) == n + 1,
{
    lemma_appearances_from(0, n, p);
}

} // verus!
