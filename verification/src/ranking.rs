//! The order in which the entries of an aggregate are reported: by falling
//! count, and entries with the same count in their own order.

use crate::aggregate::RecordView;
use vstd::prelude::*;

verus! {

/// Whether entry `i` is reported before entry `j`: the larger count first,
/// and of two equal counts the one that stands first.
pub open spec fn precedes(entries: Seq<RecordView>, i: int, j: int) -> bool {
    entries[i].count > entries[j].count || (entries[i].count == entries[j].count && i < j)
}

/// How many of the first `n` entries are reported before entry `j`.
pub open spec fn count_preceding(entries: Seq<RecordView>, j: int, n: int) -> nat
    decreases n,
{
    if n <= 0 {
        0
    } else {
        count_preceding(entries, j, n - 1) + if precedes(entries, n - 1, j) {
            1nat
        } else {
            0nat
        }
    }
}

/// The place of entry `j` in the report: the number of entries that are
/// reported before it.
pub open spec fn rank(entries: Seq<RecordView>, j: int) -> nat {
    count_preceding(entries, j, entries.len() as int)
}

/// The entry that is reported at place `k`.
pub open spec fn entry_at_rank(entries: Seq<RecordView>, k: int) -> int {
    choose|i: int| 0 <= i < entries.len() && #[trigger] rank(entries, i) == k
}

/// The first `num` entries of the report, or all of them where there are
/// fewer: the entries by falling count, equal counts in their own order.
pub open spec fn top(entries: Seq<RecordView>, num: nat) -> Seq<RecordView> {
    Seq::new(
        if num <= entries.len() { num } else { entries.len() },
        |k: int| entries[entry_at_rank(entries, k)],
    )
}

proof fn lemma_count_preceding_bound(entries: Seq<RecordView>, j: int, n: int)
    requires
        0 <= n <= entries.len(),
        0 <= j < entries.len(),
    ensures
        count_preceding(entries, j, n) + (if j < n { 1int } else { 0int }) <= n,
    decreases n,
{
    if n > 0 {
        lemma_count_preceding_bound(entries, j, n - 1);
    }
}

proof fn lemma_count_preceding_order(entries: Seq<RecordView>, i: int, j: int, n: int)
    requires
        0 <= n <= entries.len(),
        0 <= i < entries.len(),
        0 <= j < entries.len(),
        precedes(entries, i, j),
    ensures
        count_preceding(entries, i, n) + (if i < n { 1int } else { 0int }) <= count_preceding(
            entries,
            j,
            n,
        ),
    decreases n,
{
    if n > 0 {
        lemma_count_preceding_order(entries, i, j, n - 1);
    }
}

/// The ranks of the entries are the places `0..len`, each taken once, and
/// they follow `precedes`: so counts fall along the ranks, and equal counts
/// keep the order of the entries.
pub proof fn lemma_rank_is_permutation(entries: Seq<RecordView>)
    ensures
        forall|i: int| 0 <= i < entries.len() ==> #[trigger] rank(entries, i) < entries.len(),
        forall|i: int, j: int|
            0 <= i < entries.len() && 0 <= j < entries.len() && i != j ==> (precedes(entries, i, j)
                <==> #[trigger] rank(entries, i) < #[trigger] rank(entries, j)),
        forall|k: int|
            0 <= k < entries.len() ==> 0 <= #[trigger] entry_at_rank(entries, k) < entries.len()
                && rank(entries, entry_at_rank(entries, k)) == k,
{
    let n = entries.len() as int;
    assert forall|i: int| 0 <= i < n implies #[trigger] rank(entries, i) < n by {
        lemma_count_preceding_bound(entries, i, n);
    }
    assert forall|i: int, j: int| 0 <= i < n && 0 <= j < n && i != j implies (precedes(
        entries,
        i,
        j,
    ) <==> #[trigger] rank(entries, i) < #[trigger] rank(entries, j)) by {
        if precedes(entries, i, j) {
            lemma_count_preceding_order(entries, i, j, n);
        } else {
            assert(precedes(entries, j, i));
            lemma_count_preceding_order(entries, j, i, n);
        }
    }
    lemma_ranks_fill(entries, n);
    assert forall|k: int| 0 <= k < n implies 0 <= #[trigger] entry_at_rank(entries, k) < n
        && rank(entries, entry_at_rank(entries, k)) == k by {
        assert(ranks_below(entries, n).contains(k));
    }
}

/// The ranks of the first `m` entries.
spec fn ranks_below(entries: Seq<RecordView>, m: int) -> Set<int> {
    Set::new(|k: int| exists|i: int| 0 <= i < m && #[trigger] rank(entries, i) == k)
}

proof fn lemma_ranks_count(entries: Seq<RecordView>, m: int)
    requires
        0 <= m <= entries.len(),
    ensures
        ranks_below(entries, m).finite(),
        ranks_below(entries, m).len() == m,
    decreases m,
{
    if m == 0 {
        assert(ranks_below(entries, m) =~= Set::<int>::empty());
    } else {
        lemma_ranks_count(entries, m - 1);
        let before = ranks_below(entries, m - 1);
        let r = rank(entries, m - 1) as int;
        assert(!before.contains(r)) by {
            if before.contains(r) {
                let i = choose|i: int| 0 <= i < m - 1 && #[trigger] rank(entries, i) == r;
                if precedes(entries, i, m - 1) {
                    lemma_count_preceding_order(entries, i, m - 1, entries.len() as int);
                } else {
                    assert(precedes(entries, m - 1, i));
                    lemma_count_preceding_order(entries, m - 1, i, entries.len() as int);
                }
            }
        }
        assert(ranks_below(entries, m) =~= before.insert(r)) by {
            assert forall|k: int| ranks_below(entries, m).contains(k) implies before.insert(
                r,
            ).contains(k) by {
                let i = choose|i: int| 0 <= i < m && #[trigger] rank(entries, i) == k;
                if i < m - 1 {
                    assert(before.contains(k));
                }
            }
            assert forall|k: int| before.insert(r).contains(k) implies ranks_below(
                entries,
                m,
            ).contains(k) by {
                if k == r {
                    assert(rank(entries, m - 1) == k);
                } else {
                    let i = choose|i: int| 0 <= i < m - 1 && #[trigger] rank(entries, i) == k;
                    assert(rank(entries, i) == k);
                }
            }
        }
    }
}

proof fn lemma_ranks_fill(entries: Seq<RecordView>, n: int)
    requires
        n == entries.len(),
    ensures
        forall|k: int| 0 <= k < n ==> ranks_below(entries, n).contains(k),
{
    let places = vstd::set_lib::set_int_range(0, n);
    let taken = ranks_below(entries, n);
    lemma_ranks_count(entries, n);
    vstd::set_lib::lemma_int_range(0, n);
    assert(taken.subset_of(places)) by {
        assert forall|k: int| taken.contains(k) implies places.contains(k) by {
            let i = choose|i: int| 0 <= i < n && #[trigger] rank(entries, i) == k;
            lemma_count_preceding_bound(entries, i, n);
        }
    }
    vstd::set_lib::lemma_subset_equality(taken, places);
    assert forall|k: int| 0 <= k < n implies taken.contains(k) by {
        assert(places.contains(k));
    }
}

/// The report is in order: of two places, the earlier holds the entry with
/// the larger count or, where the counts are the same, the entry that
/// stands first in the aggregate.
pub proof fn lemma_top_is_ordered(entries: Seq<RecordView>, num: nat, a: int, b: int)
    requires
        0 <= a < b < top(entries, num).len(),
    ensures
        precedes(entries, entry_at_rank(entries, a), entry_at_rank(entries, b)),
        top(entries, num)[a].count >= top(entries, num)[b].count,
{
    lemma_rank_is_permutation(entries);
    let i = entry_at_rank(entries, a);
    let j = entry_at_rank(entries, b);
    assert(rank(entries, i) == a && rank(entries, j) == b);
}

} // verus!
