//! The failures whose evidence is being gathered, and what is sent of them.

use vstd::prelude::*;
use std::collections::BTreeMap;
use crate::order::{is_order, lemma_sorted_by, stable_sort};

verus! {

broadcast use vstd::std_specs::btree::group_btree_axioms;

/// The reports that workers are gathering evidence for, by the workers' numbers.
///
/// Whoever takes a report out sends it, so none is sent twice.
#[derive(Debug)]
pub struct PendingFailureWorkers<R> {
    next_id: u64,
    reports: BTreeMap<u64, R>,
}

/// The order of numbers.
pub open spec fn number_order() -> spec_fn(u64, u64) -> bool {
    |left: u64, right: u64| left <= right
}

/// `ids` are the keys of a map, in order.
pub open spec fn are_keys<R>(ids: Seq<u64>, map: Map<u64, R>) -> bool {
    &&& ids.to_set() == map.dom()
    &&& forall|i: int, j: int|
        0 <= i < j < ids.len() ==> #[trigger] ids[i] < #[trigger] ids[j]
}

impl<R> PendingFailureWorkers<R> {
    /// The reports by the numbers of their workers.
    pub closed spec fn reports(self) -> Map<u64, R> {
        self.reports@
    }

    /// The number that the next worker gets.
    pub closed spec fn next(self) -> u64 {
        self.next_id
    }

    /// No worker is gathering evidence.
    pub fn new() -> (workers: Self)
        ensures
            workers.reports() == Map::<u64, R>::empty(),
            workers.next() == 1,
    {
        PendingFailureWorkers { next_id: 1, reports: BTreeMap::new() }
    }

    /// Registers a report, unless reporting is shutting down, and gives the number of its worker.
    pub fn register(&mut self, closing: bool, report: R) -> (id: Option<u64>)
        ensures
            closing ==> id is None && *final(self) == *old(self),
            !closing ==> {
                &&& id == Some(old(self).next())
                &&& final(self).reports() == old(self).reports().insert(old(self).next(), report)
                &&& final(self).next() == old(self).next().wrapping_add(1)
            },
    {
        if closing {
            return None;
        }
        let id: u64 = self.next_id;
        self.next_id = id.wrapping_add(1);
        self.reports.insert(id, report);
        Some(id)
    }

    /// Takes a report out, if it is still there.
    pub fn take(&mut self, id: u64) -> (report: Option<R>)
        ensures
            final(self).reports() == old(self).reports().remove(id),
            final(self).next() == old(self).next(),
            match report {
                Some(report) => old(self).reports().dom().contains(id) && report
                    == old(self).reports()[id],
                None => !old(self).reports().dom().contains(id),
            },
    {
        self.reports.remove(&id)
    }

    /// Whether no worker is gathering evidence.
    pub fn is_idle(&self) -> (idle: bool)
        ensures
            idle == (self.reports() == Map::<u64, R>::empty()),
    {
        let idle = self.reports.is_empty();
        proof {
            if idle {
                assert(self.reports@ =~= Map::<u64, R>::empty());
            } else {
                assert(!self.reports@.is_empty());
            }
        }
        idle
    }

    /// Takes all reports out, in the order of their workers' numbers.
    pub fn drain(&mut self) -> (reports: Vec<R>)
        ensures
            final(self).reports() == Map::<u64, R>::empty(),
            final(self).next() == old(self).next(),
            exists|ids: Seq<u64>|
                {
                    &&& #[trigger] are_keys(ids, old(self).reports())
                    &&& reports@ == ids.map_values(|id: u64| old(self).reports()[id])
                },
    {
        let ghost all = self.reports@;
        let ids = sort_numbers(numbers_of(&self.reports));
        let mut drained: Vec<R> = Vec::new();
        let mut index: usize = 0;
        while index < ids.len()
            invariant
                index <= ids@.len(),
                are_keys(ids@, all),
                self.next_id == old(self).next_id,
                drained@ == ids@.take(index as int).map_values(|id: u64| all[id]),
                forall|i: int|
                    index <= i < ids@.len() ==> self.reports@.dom().contains(#[trigger] ids@[i])
                        && self.reports@[ids@[i]] == all[ids@[i]],
            decreases ids@.len() - index,
        {
            let id: u64 = ids[index];
            let ghost before = drained@;
            if let Some(report) = self.reports.remove(&id) {
                drained.push(report);
            }
            proof {
                assert(drained@ =~= ids@.take(index + 1).map_values(|id: u64| all[id]));
            }
            index += 1;
        }
        proof {
            assert(ids@.take(index as int) =~= ids@);
            assert(are_keys(ids@, old(self).reports()));
            assert(drained@ =~= ids@.map_values(|id: u64| old(self).reports()[id]));
        }
        self.reports.clear();
        drained
    }

    /// Gives all reports up.
    pub fn cancel_all(&mut self)
        ensures
            final(self).reports() == Map::<u64, R>::empty(),
            final(self).next() == old(self).next(),
    {
        self.drain();
    }
}

/// A report that was registered is found, and once it was taken out, whether alone or with all
/// others, nobody finds it any more: its event is sent at most once. The other reports are still
/// found.
pub proof fn lemma_taken_once<R>(reports: Map<u64, R>, id: u64, other: u64, report: R)
    requires
        other != id,
    ensures
        reports.insert(id, report).dom().contains(id),
        !reports.insert(id, report).remove(id).dom().contains(id),
        !reports.remove(id).dom().contains(id),
        reports.remove(id).dom().contains(other) == reports.dom().contains(other),
        !Map::<u64, R>::empty().dom().contains(id),
{
}

/// The keys of a map.
fn numbers_of<R>(map: &BTreeMap<u64, R>) -> (ids: Vec<u64>)
    ensures
        ids@.no_duplicates(),
        ids@.to_set() == map@.dom(),
{
    let mut ids: Vec<u64> = Vec::new();
    for key in it: map.keys()
        invariant
            ids@ == it.seq().unref().take(it.index() as int),
            it.seq().no_duplicates(),
            it.seq().unref().to_set() == map@.dom(),
            it.index() == it.seq().len() ==> ids@ == it.seq().unref(),
            ids@.no_duplicates(),
    {
        let ghost before = ids@;
        assert(forall|i: int|
            0 <= i < before.len() ==> before[i] == *it.seq()[i] && #[trigger] it.seq()[i] != key);
        assert(forall|i: int| 0 <= i < before.len() ==> #[trigger] before[i] != *key);
        ids.push(*key);
        assert(it.seq().unref()[it.index() as int] == *key);
        assert(ids@ =~= it.seq().unref().take(it.index() + 1));
        assert(it.index() + 1 == it.seq().len() ==> ids@ =~= it.seq().unref());
    }
    ids
}

/// Puts numbers in order.
fn sort_numbers(ids: Vec<u64>) -> (sorted: Vec<u64>)
    requires
        ids@.no_duplicates(),
    ensures
        sorted@.to_set() == ids@.to_set(),
        forall|i: int, j: int|
            0 <= i < j < sorted@.len() ==> #[trigger] sorted@[i] < #[trigger] sorted@[j],
{
    let ghost given = ids@;
    let le = |a: &u64, b: &u64| -> (answer: bool)
        ensures
            answer == (*a <= *b),
        { *a <= *b };
    let sorted = stable_sort(ids, le, Ghost(number_order()));
    proof {
        broadcast use vstd::seq_lib::group_to_multiset_ensures;
        assert(is_order(number_order()));
        lemma_sorted_by(given, number_order());
        let all = sorted@;
        given.lemma_multiset_has_no_duplicates();
        all.lemma_multiset_has_no_duplicates_conv();
        assert forall|i: int, j: int| 0 <= i < j < all.len() implies #[trigger] all[i]
            < #[trigger] all[j] by {
            assert(number_order()(all[i], all[j]));
        }
        assert forall|id: u64| all.to_set().contains(id) == given.to_set().contains(id) by {
            assert(all.contains(id) <==> all.to_multiset().count(id) > 0);
            assert(given.contains(id) <==> given.to_multiset().count(id) > 0);
        }
        assert(all.to_set() =~= given.to_set());
    }
    sorted
}

} // verus!
