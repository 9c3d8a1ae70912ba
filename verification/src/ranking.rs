//! The order in which eigenpairs are taken.
//!
//! Eigenpairs are ranked by eigenvalue, largest first; pairs with equal
//! eigenvalues stay in the order in which they were given. Eigenvalues are
//! compared through their order keys, so the ranking is that of the numbers
//! they encode. A NaN has no place in it.

use crate::binary64::{encodes_nan, is_nan, key, order_key};
use crate::error::Error;
use vstd::prelude::*;

verus! {

/// Among the eigenpairs of `values`, the one at index `p` is taken before the
/// one at index `q`: its eigenvalue is larger, or the two are equal and it
/// was given first.
pub open spec fn precedes(values: Seq<u64>, p: int, q: int) -> bool {
    order_key(values[p]) > order_key(values[q]) || (order_key(values[p]) == order_key(values[q])
        && p < q)
}

/// The index `q` stands somewhere in `order`.
pub open spec fn occurs(order: Seq<usize>, q: int) -> bool {
    exists|i: int| 0 <= i < order.len() && order[i] == q
}

/// `order` lists every index of `values` once, eigenvalues descending, equal
/// eigenvalues in the order in which they were given.
pub open spec fn is_ranking(values: Seq<u64>, order: Seq<usize>) -> bool {
    &&& order.len() == values.len()
    &&& forall|i: int| 0 <= i < order.len() ==> order[i] < values.len()
    &&& forall|q: int| 0 <= q < values.len() ==> #[trigger] occurs(order, q)
    &&& forall|i: int, j: int|
        #![trigger order[i], order[j]]
        0 <= i < j < order.len() ==> precedes(values, order[i] as int, order[j] as int)
}

/// The ranking of `values`. There is exactly one: see `lemma_ranking_exists`
/// and `lemma_ranking_unique`.
pub open spec fn ranking_of(values: Seq<u64>) -> Seq<usize> {
    choose|order: Seq<usize>| is_ranking(values, order)
}

/// Some eigenvalue is a NaN.
pub open spec fn has_nan(values: Seq<u64>) -> bool {
    exists|i: int| 0 <= i < values.len() && encodes_nan(values[i])
}

/// The eigenvalue at `index` is a NaN and none before it is.
pub open spec fn is_first_nan(values: Seq<u64>, index: int) -> bool {
    &&& 0 <= index < values.len()
    &&& encodes_nan(values[index])
    &&& forall|i: int| 0 <= i < index ==> !encodes_nan(values[i])
}

/// Puts eigenpairs in the order in which components are taken: eigenvalues
/// descending, equal eigenvalues in the order in which they were given. The
/// result lists the indices of `values` in that order. A NaN among the
/// eigenvalues leaves them without an order, and the first one is reported.
pub fn rank_eigenvalues(values: &Vec<u64>) -> (r: Result<Vec<usize>, Error>)
    ensures
        match r {
            Ok(order) => !has_nan(values@) && is_ranking(values@, order@) && order@ == ranking_of(
                values@,
            ),
            Err(e) => e matches Error::NanEigenvalue { index } && is_first_nan(
                values@,
                index as int,
            ),
        },
{
    let n: usize = values.len();
    let mut scanned: usize = 0;
    while scanned < n
        invariant
            scanned <= n,
            n == values@.len(),
            forall|i: int| 0 <= i < scanned ==> !encodes_nan(values@[i]),
        decreases n - scanned,
    {
        if is_nan(values[scanned]) {
            return Err(Error::NanEigenvalue { index: scanned });
        }
        scanned = scanned + 1;
    }
    let mut order: Vec<usize> = Vec::new();
    let mut count: usize = 0;
    while count < n
        invariant
            count <= n,
            n == values@.len(),
            ranks_first(values@, order@, count as int),
        decreases n - count,
    {
        let incoming: i64 = key(values[count]);
        let mut pos: usize = 0;
        while pos < count && key(values[order[pos]]) >= incoming
            invariant
                pos <= count,
                count < n,
                n == values@.len(),
                incoming == order_key(values@[count as int]),
                ranks_first(values@, order@, count as int),
                forall|i: int|
                    0 <= i < pos ==> order_key(values@[order@[i] as int]) >= order_key(
                        values@[count as int],
                    ),
            decreases count - pos,
        {
            pos = pos + 1;
        }
        proof {
            lemma_insert_next(values@, order@, count, pos as int);
        }
        order.insert(pos, count);
        count = count + 1;
    }
    proof {
        assert(is_ranking(values@, order@));
        lemma_ranking_unique(values@, order@, ranking_of(values@));
    }
    Ok(order)
}

/// Every sequence of eigenvalues has a ranking, so `ranking_of` is one. The
/// bound is that of an index.
pub proof fn lemma_ranking_exists(values: Seq<u64>)
    requires
        values.len() <= usize::MAX,
    ensures
        is_ranking(values, ranking_of(values)),
{
    lemma_ranking_upto(values, values.len());
    assert(is_ranking(values, ranking_upto(values, values.len())));
}

/// A sequence of eigenvalues has at most one ranking: the order of the
/// eigenpairs is fixed by the eigenvalues alone, ties included.
pub proof fn lemma_ranking_unique(values: Seq<u64>, a: Seq<usize>, b: Seq<usize>)
    requires
        is_ranking(values, a),
        is_ranking(values, b),
    ensures
        a == b,
{
    lemma_rankings_agree(values, a, b, values.len() as int);
    assert(a =~= b);
}

/// The eigenpair taken first has the largest eigenvalue, and every later one
/// has an eigenvalue no larger than the one before it.
pub proof fn lemma_ranking_descends(values: Seq<u64>, order: Seq<usize>)
    requires
        is_ranking(values, order),
    ensures
        forall|q: int|
            0 <= q < values.len() ==> order_key(#[trigger] values[q]) <= order_key(
                values[order[0] as int],
            ),
        forall|i: int, j: int|
            #![trigger order[i], order[j]]
            0 <= i <= j < order.len() ==> order_key(values[order[i] as int]) >= order_key(
                values[order[j] as int],
            ),
{
    assert forall|q: int| 0 <= q < values.len() implies order_key(#[trigger] values[q])
        <= order_key(values[order[0] as int]) by {
        assert(occurs(order, q));
        let w = choose|i: int| 0 <= i < order.len() && order[i] == q;
        if w > 0 {
            assert(precedes(values, order[0] as int, order[w] as int));
        }
    }
    assert forall|i: int, j: int|
        #![trigger order[i], order[j]]
        0 <= i <= j < order.len() implies order_key(values[order[i] as int]) >= order_key(
        values[order[j] as int],
    ) by {
        if i < j {
            assert(precedes(values, order[i] as int, order[j] as int));
        }
    }
}

/// `order` ranks the first `count` indices of `values` among themselves.
spec fn ranks_first(values: Seq<u64>, order: Seq<usize>, count: int) -> bool {
    &&& order.len() == count
    &&& forall|i: int| 0 <= i < count ==> order[i] < count
    &&& forall|q: int| 0 <= q < count ==> #[trigger] occurs(order, q)
    &&& forall|i: int, j: int|
        #![trigger order[i], order[j]]
        0 <= i < j < count ==> precedes(values, order[i] as int, order[j] as int)
}

proof fn lemma_insert_next(values: Seq<u64>, order: Seq<usize>, count: usize, pos: int)
    requires
        ranks_first(values, order, count as int),
        0 <= pos <= count,
        forall|i: int|
            0 <= i < pos ==> order_key(values[order[i] as int]) >= order_key(values[count as int]),
        pos < count ==> order_key(values[order[pos] as int]) < order_key(values[count as int]),
    ensures
        ranks_first(values, order.insert(pos, count), count + 1),
{
    let next = order.insert(pos, count);
    order.insert_ensures(pos, count);
    assert forall|q: int| 0 <= q < count + 1 implies #[trigger] occurs(next, q) by {
        if q == count {
            assert(next[pos] == q);
        } else {
            assert(occurs(order, q));
            let w = choose|i: int| 0 <= i < order.len() && order[i] == q;
            if w < pos {
                assert(next[w] == q);
            } else {
                assert(next[w + 1] == q);
            }
        }
    }
    assert forall|i: int, j: int| 0 <= i < j < count + 1 implies precedes(
        values,
        #[trigger] next[i] as int,
        #[trigger] next[j] as int,
    ) by {
        if i == pos {
            assert(next[j] == order[j - 1]);
            if j - 1 > pos {
                assert(precedes(values, order[pos] as int, order[j - 1] as int));
            }
        } else if j == pos {
            assert(next[i] == order[i]);
        } else {
            let oi = if i < pos { i } else { i - 1 };
            let oj = if j < pos { j } else { j - 1 };
            assert(next[i] == order[oi] && next[j] == order[oj]);
            assert(precedes(values, order[oi] as int, order[oj] as int));
        }
    }
}

proof fn lemma_rankings_agree(values: Seq<u64>, a: Seq<usize>, b: Seq<usize>, upto: int)
    requires
        is_ranking(values, a),
        is_ranking(values, b),
        0 <= upto <= values.len(),
    ensures
        forall|k: int| 0 <= k < upto ==> a[k] == b[k],
    decreases upto,
{
    if upto > 0 {
        let m = upto - 1;
        lemma_rankings_agree(values, a, b, m);
        let x = a[m] as int;
        let y = b[m] as int;
        if x != y {
            assert(occurs(b, x));
            let jb = choose|i: int| 0 <= i < b.len() && b[i] == x;
            if jb < m {
                assert(a[jb] == b[jb]);
                assert(precedes(values, a[jb] as int, a[m] as int));
            }
            assert(jb > m);
            assert(precedes(values, b[m] as int, b[jb] as int));
            assert(occurs(a, y));
            let ja = choose|i: int| 0 <= i < a.len() && a[i] == y;
            if ja < m {
                assert(a[ja] == b[ja]);
                assert(precedes(values, b[ja] as int, b[m] as int));
            }
            assert(ja > m);
            assert(precedes(values, a[m] as int, a[ja] as int));
            assert(false);
        }
    }
}

/// Where index `count` goes into `order`, a ranking of the indices before it:
/// counting from `from`, behind every entry whose eigenvalue is at least as
/// large as its own.
spec fn insertion_point(values: Seq<u64>, order: Seq<usize>, count: int, from: int) -> int
    decreases order.len() - from,
{
    if 0 <= from < order.len() && order_key(values[order[from] as int]) >= order_key(
        values[count],
    ) {
        insertion_point(values, order, count, from + 1)
    } else {
        from
    }
}

proof fn lemma_insertion_point(values: Seq<u64>, order: Seq<usize>, count: int, from: int)
    requires
        0 <= from <= order.len(),
    ensures
        from <= insertion_point(values, order, count, from) <= order.len(),
        forall|i: int|
            from <= i < insertion_point(values, order, count, from) ==> order_key(
                values[#[trigger] order[i] as int],
            ) >= order_key(values[count]),
        insertion_point(values, order, count, from) < order.len() ==> order_key(
            values[order[insertion_point(values, order, count, from)] as int],
        ) < order_key(values[count]),
    decreases order.len() - from,
{
    if from < order.len() && order_key(values[order[from] as int]) >= order_key(values[count]) {
        lemma_insertion_point(values, order, count, from + 1);
    }
}

/// The ranking of the first `count` indices of `values`, built one index at
/// a time.
spec fn ranking_upto(values: Seq<u64>, count: nat) -> Seq<usize>
    decreases count,
{
    if count == 0 {
        Seq::empty()
    } else {
        let before = ranking_upto(values, (count - 1) as nat);
        before.insert(insertion_point(values, before, count - 1, 0), (count - 1) as usize)
    }
}

proof fn lemma_ranking_upto(values: Seq<u64>, count: nat)
    requires
        count <= values.len() <= usize::MAX,
    ensures
        ranks_first(values, ranking_upto(values, count), count as int),
    decreases count,
{
    if count > 0 {
        let last = (count - 1) as usize;
        let before = ranking_upto(values, last as nat);
        lemma_ranking_upto(values, last as nat);
        lemma_insertion_point(values, before, last as int, 0);
        lemma_insert_next(values, before, last, insertion_point(values, before, last as int, 0));
    }
}

} // verus!
