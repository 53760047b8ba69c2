//! The fan-in of all watch connections: the last count each connection
//! reported, and the state of the indicator that follows from them.

use crate::tray_icon::{icon_for_total, Icon};
use vstd::prelude::*;

verus! {

/// The sum of all counts.
pub open spec fn total(counts: Seq<usize>) -> nat
    decreases counts.len(),
{
    if counts.len() == 0 {
        0
    } else {
        total(counts.drop_last()) + (counts.last() as nat)
    }
}

/// The counts after one report: the slot of connection `id` holds `count`.
/// A report for a connection that does not exist changes nothing.
pub open spec fn recorded(counts: Seq<usize>, id: usize, count: usize) -> Seq<usize> {
    if id < counts.len() {
        counts.update(id as int, count)
    } else {
        counts
    }
}

/// The counts after the reports `updates`, each a connection and its count,
/// taken in the order they arrived.
pub open spec fn replay(counts: Seq<usize>, updates: Seq<(usize, usize)>) -> Seq<usize>
    decreases updates.len(),
{
    if updates.len() == 0 {
        counts
    } else {
        recorded(replay(counts, updates.drop_last()), updates.last().0, updates.last().1)
    }
}

/// The last count that each connection reported; zero for a connection that
/// has not reported yet.
#[derive(Debug)]
pub struct Aggregator {
    counts: Vec<usize>,
    running: bool,
}

impl View for Aggregator {
    type V = Seq<usize>;

    closed spec fn view(&self) -> Seq<usize> {
        self.counts@
    }
}

impl Aggregator {
    /// Whether the shutdown message has not come yet.
    pub closed spec fn running(self) -> bool {
        self.running
    }

    /// The aggregate of `connections` connections, none of which has
    /// reported anything.
    pub fn new(connections: usize) -> (aggregator: Aggregator)
        ensures
            aggregator@ == Seq::new(connections as nat, |i: int| 0usize),
            aggregator.running(),
    {
        let mut counts: Vec<usize> = Vec::new();
        while counts.len() < connections
            invariant
                counts@.len() <= connections,
                forall|i: int| 0 <= i < counts@.len() ==> counts@[i] == 0,
            decreases connections - counts@.len(),
        {
            counts.push(0);
        }
        assert(counts@ =~= Seq::new(connections as nat, |i: int| 0usize));
        Aggregator { counts, running: true }
    }

    /// How many connections the aggregate has a slot for.
    pub fn len(&self) -> (n: usize)
        ensures
            n == self@.len(),
    {
        self.counts.len()
    }

    /// Whether the shutdown message has not come yet.
    pub fn is_running(&self) -> (yes: bool)
        ensures
            yes == self.running(),
    {
        self.running
    }

    /// The last count that connection `id` reported.
    pub fn count_of(&self, id: usize) -> (count: usize)
        requires
            id < self@.len(),
        ensures
            count == self@[id as int],
    {
        self.counts[id]
    }

    /// Whether any connection's last report was of new mail.
    pub fn has_new(&self) -> (any: bool)
        ensures
            any == (total(self@) > 0),
            any == exists|id: int| 0 <= id < self@.len() && self@[id] != 0,
    {
        proof {
            lemma_total_zero(self@);
        }
        let mut i: usize = 0;
        proof {
            assert(self.counts@.take(0) =~= Seq::<usize>::empty());
        }
        while i < self.counts.len()
            invariant
                i <= self.counts@.len(),
                total(self.counts@.take(i as int)) == 0,
            decreases self.counts@.len() - i,
        {
            proof {
                assert(self.counts@.take(i + 1).drop_last() =~= self.counts@.take(i as int));
                lemma_total_grows(self.counts@, i + 1);
            }
            if self.counts[i] != 0 {
                return true;
            }
            i += 1;
        }
        proof {
            assert(self.counts@.take(i as int) =~= self.counts@);
        }
        false
    }

    /// How many new messages all connections have reported, taken together.
    pub fn total_new(&self) -> (sum: u128)
        ensures
            sum == total(self@),
    {
        let mut sum: u128 = 0;
        let mut i: usize = 0;
        proof {
            assert(self.counts@.take(0) =~= Seq::<usize>::empty());
        }
        while i < self.counts.len()
            invariant
                i <= self.counts@.len(),
                sum == total(self.counts@.take(i as int)),
                sum <= i * usize::MAX,
            decreases self.counts@.len() - i,
        {
            proof {
                assert(self.counts@.take(i + 1).drop_last() =~= self.counts@.take(i as int));
                assert((i + 1) * usize::MAX == i * usize::MAX + usize::MAX) by (nonlinear_arith);
                assert((i + 1) * usize::MAX <= 0xffff_ffff_ffff_ffff * 0xffff_ffff_ffff_ffff)
                    by (nonlinear_arith)
                    requires
                        0 <= i + 1 <= 0xffff_ffff_ffff_ffff,
                        0 <= usize::MAX <= 0xffff_ffff_ffff_ffff,
                ;
            }
            sum = sum + self.counts[i] as u128;
            i += 1;
        }
        proof {
            assert(self.counts@.take(i as int) =~= self.counts@);
        }
        sum
    }

    /// What the indicator shows for the counts as they are: the plain
    /// mailbox while every count is zero, the highlighted one otherwise.
    pub fn icon(&self) -> (icon: Icon)
        ensures
            icon == icon_for_total(total(self@)),
            icon == Icon::NewMail <==> exists|id: int| 0 <= id < self@.len() && self@[id] != 0,
            icon == Icon::NewMail || icon == Icon::UnreadMail,
    {
        if self.has_new() {
            Icon::NewMail
        } else {
            Icon::UnreadMail
        }
    }

    /// Takes the report that connection `id` has `count` new messages, and
    /// gives what the indicator shows from then on, derived from all counts.
    pub fn record(&mut self, id: usize, count: usize) -> (icon: Icon)
        requires
            id < old(self)@.len(),
        ensures
            final(self)@ == recorded(old(self)@, id, count),
            final(self).running() == old(self).running(),
            icon == icon_for_total(total(final(self)@)),
            icon == Icon::NewMail <==> exists|slot: int|
                0 <= slot < final(self)@.len() && final(self)@[slot] != 0,
            icon == Icon::NewMail || icon == Icon::UnreadMail,
    {
        self.counts[id] = count;
        self.icon()
    }

    /// Takes the shutdown message: the counts stay, the loop is over.
    pub fn record_shutdown(&mut self)
        ensures
            final(self)@ == old(self)@,
            !final(self).running(),
    {
        self.running = false;
    }

    /// Takes one message off the channel: a report, which gives what the
    /// indicator shows next, or the shutdown message, which gives `None`.
    pub fn receive(&mut self, message: Option<(usize, usize)>) -> (icon: Option<Icon>)
        requires
            message matches Some((id, _)) ==> id < old(self)@.len(),
        ensures
            match message {
                Some((id, count)) => {
                    &&& final(self)@ == recorded(old(self)@, id, count)
                    &&& final(self).running() == old(self).running()
                    &&& icon == Some(icon_for_total(total(final(self)@)))
                },
                None => {
                    &&& final(self)@ == old(self)@
                    &&& !final(self).running()
                    &&& icon is None
                },
            },
    {
        match message {
            Some((id, count)) => Some(self.record(id, count)),
            None => {
                self.record_shutdown();
                None
            },
        }
    }
}

/// The sum over a longer stretch of the counts is no smaller.
pub proof fn lemma_total_grows(counts: Seq<usize>, n: int)
    requires
        0 <= n <= counts.len(),
    ensures
        total(counts.take(n)) <= total(counts),
    decreases counts.len() - n,
{
    if n < counts.len() {
        lemma_total_grows(counts, n + 1);
        assert(counts.take(n + 1).drop_last() =~= counts.take(n));
    } else {
        assert(counts.take(n) =~= counts);
    }
}

/// The total is zero just when every count is.
pub proof fn lemma_total_zero(counts: Seq<usize>)
    ensures
        total(counts) == 0 <==> forall|i: int| 0 <= i < counts.len() ==> counts[i] == 0,
    decreases counts.len(),
{
    if counts.len() > 0 {
        let rest = counts.drop_last();
        lemma_total_zero(rest);
        if total(counts) == 0 {
            assert forall|i: int| 0 <= i < counts.len() implies counts[i] == 0 by {
                if i < rest.len() {
                    assert(rest[i] == counts[i]);
                }
            }
        } else if counts.last() == 0 {
            let i = choose|i: int| 0 <= i < rest.len() && rest[i] != 0;
            assert(counts[i] != 0);
        }
    }
}

/// Reports never add or remove a slot.
pub proof fn lemma_replay_len(counts: Seq<usize>, updates: Seq<(usize, usize)>)
    ensures
        replay(counts, updates).len() == counts.len(),
    decreases updates.len(),
{
    if updates.len() > 0 {
        lemma_replay_len(counts, updates.drop_last());
    }
}

/// A connection that stops reporting keeps its last count: reports of other
/// connections leave its slot alone.
pub proof fn lemma_silent_slot_is_frozen(
    counts: Seq<usize>,
    updates: Seq<(usize, usize)>,
    slot: int,
)
    requires
        0 <= slot < counts.len(),
        forall|k: int| 0 <= k < updates.len() ==> updates[k].0 != slot,
    ensures
        replay(counts, updates).len() == counts.len(),
        replay(counts, updates)[slot] == counts[slot],
    decreases updates.len(),
{
    lemma_replay_len(counts, updates);
    if updates.len() > 0 {
        let rest = updates.drop_last();
        assert forall|k: int| 0 <= k < rest.len() implies rest[k].0 != slot by {
            assert(rest[k] == updates[k]);
        }
        lemma_silent_slot_is_frozen(counts, rest, slot);
        assert(updates.last() == updates[updates.len() - 1]);
    }
}

/// A slot holds what its connection reported last.
pub proof fn lemma_last_report_wins(counts: Seq<usize>, updates: Seq<(usize, usize)>, k: int)
    requires
        0 <= k < updates.len(),
        updates[k].0 < counts.len(),
        forall|j: int| k < j < updates.len() ==> updates[j].0 != updates[k].0,
    ensures
        replay(counts, updates)[updates[k].0 as int] == updates[k].1,
    decreases updates.len(),
{
    let rest = updates.drop_last();
    lemma_replay_len(counts, rest);
    if k < updates.len() - 1 {
        assert(rest[k] == updates[k]);
        assert forall|j: int| k < j < rest.len() implies rest[j].0 != rest[k].0 by {
            assert(rest[j] == updates[j]);
        }
        lemma_last_report_wins(counts, rest, k);
        assert(updates.last() == updates[updates.len() - 1]);
    } else {
        assert(updates.last() == updates[k]);
    }
}

/// Whether no two of the reports are of the same connection.
pub open spec fn one_report_each(updates: Seq<(usize, usize)>) -> bool {
    forall|i: int, j: int|
        0 <= i < j < updates.len() ==> (#[trigger] updates[i]).0 != (#[trigger] updates[j]).0
}

/// The order in which the connections' reports arrive does not matter: the
/// same reports, one of each connection, give the same counts, and so the
/// same derived state.
pub proof fn lemma_arrival_order_is_irrelevant(
    counts: Seq<usize>,
    first: Seq<(usize, usize)>,
    second: Seq<(usize, usize)>,
)
    requires
        one_report_each(first),
        one_report_each(second),
        forall|update: (usize, usize)| first.contains(update) <==> second.contains(update),
    ensures
        replay(counts, first) == replay(counts, second),
        total(replay(counts, first)) == total(replay(counts, second)),
{
    lemma_replay_len(counts, first);
    lemma_replay_len(counts, second);
    assert forall|slot: int| 0 <= slot < counts.len() implies replay(counts, first)[slot]
        == replay(counts, second)[slot] by {
        if exists|k: int| 0 <= k < first.len() && first[k].0 == slot {
            let k = choose|k: int| 0 <= k < first.len() && first[k].0 == slot;
            assert(first.contains(first[k]));
            assert(second.contains(first[k]));
            let m = second.index_of(first[k]);
            lemma_last_report_wins(counts, first, k);
            lemma_last_report_wins(counts, second, m);
        } else {
            assert forall|m: int| 0 <= m < second.len() implies second[m].0 != slot by {
                if second[m].0 == slot {
                    assert(second.contains(second[m]));
                    assert(first.contains(second[m]));
                    let k = first.index_of(second[m]);
                    assert(first[k].0 == slot);
                }
            }
            lemma_silent_slot_is_frozen(counts, first, slot);
            lemma_silent_slot_is_frozen(counts, second, slot);
        }
    }
    assert(replay(counts, first) =~= replay(counts, second));
}

} // verus!
