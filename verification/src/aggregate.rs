//! Aggregation of normalized candidate records: structural deduplication.
//!
//! Candidates gathered from several independent sources (registry,
//! filesystem, setup enumeration) may describe the same installation. Two
//! records that are field-wise identical collapse to one; the first
//! occurrence is kept, so the relative order of distinct records is
//! preserved.

use vstd::prelude::*;

verus! {

/// Deduplication keeping the first occurrence of each value.
pub open spec fn dedup_keep_first<T>(s: Seq<T>) -> Seq<T>
    decreases s.len(),
{
    if s.len() == 0 {
        Seq::<T>::empty()
    } else {
        let d = dedup_keep_first(s.drop_last());
        if d.contains(s.last()) {
            d
        } else {
            d.push(s.last())
        }
    }
}

/// Whether no two entries of a sequence are equal.
pub open spec fn pairwise_distinct<T>(s: Seq<T>) -> bool {
    forall|i: int, j: int| 0 <= i < j < s.len() ==> s[i] != s[j]
}

/// Aggregation collapses structurally identical records: after
/// deduplication no two entries are equal, whatever sources the records came
/// from, and exactly the values of the input survive.
pub proof fn lemma_dedup_collapses_duplicates<T>(s: Seq<T>)
    ensures
        pairwise_distinct(dedup_keep_first(s)),
        forall|x: T| dedup_keep_first(s).contains(x) == s.contains(x),
    decreases s.len(),
{
    if s.len() == 0 {
    } else {
        lemma_dedup_collapses_duplicates(s.drop_last());
        let d = dedup_keep_first(s.drop_last());
        let r = dedup_keep_first(s);
        assert forall|x: T| r.contains(x) == s.contains(x) by {
            if r.contains(x) {
                if d.contains(x) {
                    assert(s.drop_last().contains(x));
                    let k = choose|k: int| 0 <= k < s.drop_last().len() && s.drop_last()[k] == x;
                    assert(s[k] == x);
                } else {
                    assert(x == s.last());
                    assert(s[s.len() - 1] == x);
                }
            }
            if s.contains(x) {
                let k = choose|k: int| 0 <= k < s.len() && s[k] == x;
                if k < s.len() - 1 {
                    assert(s.drop_last()[k] == x);
                    assert(s.drop_last().contains(x));
                    assert(d.contains(x) == s.drop_last().contains(x));
                    if !d.contains(s.last()) {
                        assert(r[choose|m: int| 0 <= m < d.len() && d[m] == x] == x);
                    }
                } else {
                    if d.contains(s.last()) {
                        assert(r.contains(x));
                    } else {
                        assert(r[r.len() - 1] == x);
                    }
                }
            }
        }
        if !d.contains(s.last()) {
            assert forall|i: int, j: int| 0 <= i < j < r.len() implies r[i] != r[j] by {
                if j == r.len() - 1 {
                    assert(d.contains(d[i]));
                }
            }
        }
    }
}

} // verus!
