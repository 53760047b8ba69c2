//! The high-water mark of one watched folder: the largest message id the user
//! has already been told about, and the sifting of a search result against it.

use vstd::prelude::*;

verus! {

/// The ids of `uids` above `mark`, in the order they came.
pub open spec fn unseen(uids: Seq<u32>, mark: u32) -> Seq<u32> {
    uids.filter(|uid: u32| uid > mark)
}

/// The largest id in `uids`, or 0 when there is none.
pub open spec fn largest(uids: Seq<u32>) -> u32
    decreases uids.len(),
{
    if uids.len() == 0 {
        0
    } else {
        let rest = largest(uids.drop_last());
        if uids.last() > rest {
            uids.last()
        } else {
            rest
        }
    }
}

/// The mark after a search that returned `uids`.
pub open spec fn advanced(mark: u32, uids: Seq<u32>) -> u32 {
    if largest(uids) > mark {
        largest(uids)
    } else {
        mark
    }
}

/// What one search amounts to: how many messages matched, and which of them
/// the user has not been told about yet.
#[derive(Debug)]
pub struct Batch {
    /// The size of the whole search result.
    pub num_new: usize,
    /// The ids above the mark, in the order the search gave them.
    pub fresh: Vec<u32>,
}

/// The largest message id already surfaced for one watch target.
#[derive(Clone, Copy, Debug, PartialEq, Eq, Structural)]
pub struct HighWaterMark {
    pub value: u32,
}

impl HighWaterMark {
    /// The mark of a target nothing was reported of yet.
    pub fn new() -> (mark: HighWaterMark)
        ensures
            mark.value == 0,
    {
        HighWaterMark { value: 0 }
    }

    /// Sifts a search result against the mark and raises the mark to the
    /// largest id seen so far. The batch counts the whole result and lists
    /// the ids above the mark as it was, and no others; the mark never falls.
    pub fn observe(&mut self, uids: &[u32]) -> (batch: Batch)
        ensures
            batch.num_new == uids@.len(),
            batch.fresh@ == unseen(uids@, old(self).value),
            final(self).value == advanced(old(self).value, uids@),
            batch.fresh@.len() <= uids@.len(),
            forall|i: int| 0 <= i < batch.fresh@.len() ==> batch.fresh@[i] > old(self).value,
            forall|i: int|
                0 <= i < batch.fresh@.len() ==> uids@.contains(#[trigger] batch.fresh@[i]),
            forall|i: int|
                0 <= i < uids@.len() && uids@[i] > old(self).value ==> batch.fresh@.contains(
                    #[trigger] uids@[i],
                ),
            final(self).value >= old(self).value,
            forall|i: int| 0 <= i < uids@.len() ==> uids@[i] <= final(self).value,
            final(self).value == old(self).value || uids@.contains(final(self).value),
            (forall|i: int| 0 <= i < uids@.len() ==> uids@[i] <= old(self).value)
                ==> batch.fresh@.len() == 0 && final(self).value == old(self).value,
    {
        proof {
            if forall|i: int| 0 <= i < uids@.len() ==> uids@[i] <= self.value {
                lemma_stale_result_sifts_empty(uids@, self.value);
            }
            lemma_unseen_is_above_mark(uids@, self.value);
            lemma_mark_only_rises(self.value, uids@);
            uids@.lemma_filter_len(|uid: u32| uid > self.value);
        }
        let mark = self.value;
        let mut top: u32 = 0;
        let mut fresh: Vec<u32> = Vec::new();
        let mut i: usize = 0;
        while i < uids.len()
            invariant
                i <= uids@.len(),
                fresh@ == unseen(uids@.take(i as int), mark),
                top == largest(uids@.take(i as int)),
            decreases uids@.len() - i,
        {
            let uid = uids[i];
            proof {
                let seen = uids@.take(i as int);
                assert(uids@.take(i + 1) == seen.push(uid));
                assert(seen.push(uid).drop_last() == seen);
                seen.lemma_filter_push(uid, |uid: u32| uid > mark);
            }
            if uid > mark {
                fresh.push(uid);
            }
            if uid > top {
                top = uid;
            }
            i += 1;
        }
        proof {
            assert(uids@.take(i as int) == uids@);
        }
        if top > mark {
            self.value = top;
        }
        Batch { num_new: uids.len(), fresh }
    }
}

/// No id of a sifted batch is at or below the mark it was sifted against;
/// each comes from the search result, and no id above the mark is lost.
pub proof fn lemma_unseen_is_above_mark(uids: Seq<u32>, mark: u32)
    ensures
        forall|i: int| 0 <= i < unseen(uids, mark).len() ==> unseen(uids, mark)[i] > mark,
        forall|i: int|
            0 <= i < unseen(uids, mark).len() ==> uids.contains(#[trigger] unseen(uids, mark)[i]),
        forall|i: int|
            0 <= i < uids.len() && uids[i] > mark ==> unseen(uids, mark).contains(
                #[trigger] uids[i],
            ),
{
    let above = |uid: u32| uid > mark;
    let sifted = uids.filter(above);
    assert forall|i: int| 0 <= i < sifted.len() implies sifted[i] > mark && uids.contains(
        sifted[i],
    ) by {
        uids.lemma_filter_pred(above, i);
        assert(sifted.contains(sifted[i]));
        uids.lemma_filter_contains_rev(above, sifted[i]);
    }
    assert forall|i: int| 0 <= i < uids.len() && uids[i] > mark implies sifted.contains(
        uids[i],
    ) by {
        uids.lemma_filter_contains(above, i);
    }
}

/// A search result with nothing above the mark sifts to an empty batch.
pub proof fn lemma_stale_result_sifts_empty(uids: Seq<u32>, mark: u32)
    requires
        forall|i: int| 0 <= i < uids.len() ==> uids[i] <= mark,
    ensures
        unseen(uids, mark) == Seq::<u32>::empty(),
        advanced(mark, uids) == mark,
    decreases uids.len(),
{
    lemma_unseen_is_above_mark(uids, mark);
    lemma_largest_bounds(uids);
    let sifted = unseen(uids, mark);
    if sifted.len() > 0 {
        assert(uids.contains(sifted[0]));
        assert(sifted[0] > mark);
    }
    assert(sifted =~= Seq::<u32>::empty());
}

/// `largest` bounds every id, and is one of them unless there is none.
pub proof fn lemma_largest_bounds(uids: Seq<u32>)
    ensures
        forall|i: int| 0 <= i < uids.len() ==> uids[i] <= largest(uids),
        uids.len() > 0 ==> uids.contains(largest(uids)),
        uids.len() == 0 ==> largest(uids) == 0,
    decreases uids.len(),
{
    if uids.len() > 0 {
        let rest = uids.drop_last();
        lemma_largest_bounds(rest);
        assert forall|i: int| 0 <= i < uids.len() implies uids[i] <= largest(uids) by {
            if i < rest.len() {
                assert(rest[i] == uids[i]);
            }
        }
        if uids.last() > largest(rest) || rest.len() == 0 {
            assert(uids[uids.len() - 1] == largest(uids));
        } else {
            let j = rest.index_of(largest(rest));
            assert(uids[j] == largest(uids));
        }
    }
}

/// The mark never falls: after any search it is at least what it was, at
/// least every id of the result, and either unchanged or one of those ids.
pub proof fn lemma_mark_only_rises(mark: u32, uids: Seq<u32>)
    ensures
        advanced(mark, uids) >= mark,
        forall|i: int| 0 <= i < uids.len() ==> uids[i] <= advanced(mark, uids),
        advanced(mark, uids) == mark || uids.contains(advanced(mark, uids)),
{
    lemma_largest_bounds(uids);
}

/// A search that returns the same ids again has nothing left to surface,
/// and leaves the mark where it is.
pub proof fn lemma_repeated_result_is_stale(mark: u32, uids: Seq<u32>)
    ensures
        unseen(uids, advanced(mark, uids)) == Seq::<u32>::empty(),
        advanced(advanced(mark, uids), uids) == advanced(mark, uids),
{
    lemma_mark_only_rises(mark, uids);
    lemma_stale_result_sifts_empty(uids, advanced(mark, uids));
}

} // verus!
