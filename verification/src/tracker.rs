//! Proposal performance tracker.
//!
//! Within one epoch, the tracker accumulates successful and failed
//! block-proposal counts per active validator slot, keyed by proposer
//! index.  Entries are created lazily on a slot's first proposal event
//! and the whole tracker is drained at the epoch boundary.

use vstd::prelude::*;
use crate::reward::ProposalRecord;

verus! {

/// One tracker entry: a proposer index with its counters.
pub type TrackerEntry = (u64, ProposalRecord);

/// No two entries share a proposer index.
pub open spec fn keys_distinct(s: Seq<TrackerEntry>) -> bool {
    forall|i: int, j: int|
        #![trigger s[i], s[j]]
        0 <= i < j < s.len() ==> s[i].0 != s[j].0
}

/// Whether some entry carries this proposer index.
pub open spec fn has_key(s: Seq<TrackerEntry>, key: u64) -> bool {
    exists|i: int| 0 <= i < s.len() && #[trigger] s[i].0 == key
}

/// The position of the entry with this proposer index; meaningful only
/// when `has_key` holds and keys are distinct.
pub open spec fn index_of_key(s: Seq<TrackerEntry>, key: u64) -> int {
    choose|i: int| 0 <= i < s.len() && #[trigger] s[i].0 == key
}

/// With distinct keys, any position holding `key` is the position
/// `index_of_key` picks.
pub proof fn lemma_index_of_key(s: Seq<TrackerEntry>, key: u64, i: int)
    requires
        keys_distinct(s),
        0 <= i < s.len(),
        s[i].0 == key,
    ensures
        has_key(s, key),
        index_of_key(s, key) == i,
{
    assert(has_key(s, key));
    let j = index_of_key(s, key);
    assert(0 <= j < s.len() && s[j].0 == key);
    if i != j {
        assert(s[i].0 != s[j].0);
    }
}

/// One successful proposal for `key`: its counter is incremented, or a
/// fresh record with one success is created.
pub open spec fn bump_success(s: Seq<TrackerEntry>, key: u64) -> Seq<TrackerEntry> {
    if has_key(s, key) {
        let i = index_of_key(s, key);
        s.update(i, (key, ProposalRecord {
            successful_proposals: (s[i].1.successful_proposals + 1) as u32,
            ..s[i].1
        }))
    } else {
        s.push((key, ProposalRecord { successful_proposals: 1, failed_proposals: 0 }))
    }
}

/// One missed proposal turn for `key`: its failure counter is
/// incremented, or a fresh record with one failure is created.
pub open spec fn bump_failure(s: Seq<TrackerEntry>, key: u64) -> Seq<TrackerEntry> {
    if has_key(s, key) {
        let i = index_of_key(s, key);
        s.update(i, (key, ProposalRecord {
            failed_proposals: (s[i].1.failed_proposals + 1) as u32,
            ..s[i].1
        }))
    } else {
        s.push((key, ProposalRecord { successful_proposals: 0, failed_proposals: 1 }))
    }
}

/// Failure bumps applied left to right for every listed index.
pub open spec fn bump_failures(s: Seq<TrackerEntry>, failed: Seq<u64>) -> Seq<TrackerEntry>
    decreases failed.len(),
{
    if failed.len() == 0 {
        s
    } else {
        bump_failures(bump_failure(s, failed[0]), failed.drop_first())
    }
}

/// The whole effect of one observed block on the tracker: one success
/// for the block's proposer, one failure for every index that had a
/// turn in the block's rounds but did not propose.
pub open spec fn record_proposal_spec(
    s: Seq<TrackerEntry>,
    proposer_index: u64,
    failed: Seq<u64>,
) -> Seq<TrackerEntry> {
    bump_failures(bump_success(s, proposer_index), failed)
}

/// Every success counter can take one more bump without overflowing.
pub open spec fn success_headroom(s: Seq<TrackerEntry>) -> bool {
    forall|i: int| 0 <= i < s.len() ==> (#[trigger] s[i]).1.successful_proposals < u32::MAX
}

/// Every failure counter can take `n` more bumps without overflowing.
pub open spec fn failure_headroom(s: Seq<TrackerEntry>, n: int) -> bool {
    forall|i: int| 0 <= i < s.len() ==> (#[trigger] s[i]).1.failed_proposals + n <= u32::MAX
}

/// The per-epoch proposal performance tracker.
pub struct ProposalTracker {
    pub records: Vec<TrackerEntry>,
}

impl ProposalTracker {
    /// Proposer indices are unique within the tracker.
    pub open spec fn wf(self) -> bool {
        keys_distinct(self.records@)
    }

    /// An empty tracker, as at the start of an epoch.
    pub fn new() -> (t: ProposalTracker)
        ensures
            t.records@ == Seq::<TrackerEntry>::empty(),
            t.wf(),
    {
        ProposalTracker { records: Vec::new() }
    }

    /// The position of the entry for `key`, if there is one.
    fn position_of(&self, key: u64) -> (r: Option<usize>)
        requires
            self.wf(),
        ensures
            match r {
                Some(i) => i < self.records@.len() && self.records@[i as int].0 == key
                    && index_of_key(self.records@, key) == i,
                None => !has_key(self.records@, key),
            },
    {
        let n = self.records.len();
        let mut i: usize = 0;
        while i < n
            invariant
                self.wf(),
                n == self.records@.len(),
                i <= n,
                forall|j: int| 0 <= j < i ==> (#[trigger] self.records@[j]).0 != key,
            decreases n - i,
        {
            if self.records[i].0 == key {
                proof {
                    lemma_index_of_key(self.records@, key, i as int);
                }
                return Some(i);
            }
            i = i + 1;
        }
        None
    }

    /// Applies one failure bump for `key`.
    fn bump_failure_exec(&mut self, key: u64)
        requires
            old(self).wf(),
            failure_headroom(old(self).records@, 1),
        ensures
            final(self).records@ == bump_failure(old(self).records@, key),
            final(self).wf(),
    {
        match self.position_of(key) {
            Some(i) => {
                let entry = self.records[i];
                self.records[i] = (key, ProposalRecord {
                    failed_proposals: entry.1.failed_proposals + 1,
                    ..entry.1
                });
            }
            None => {
                self.records.push((key, ProposalRecord {
                    successful_proposals: 0,
                    failed_proposals: 1,
                }));
            }
        }
    }

    /// Applies one success bump for `key`.
    fn bump_success_exec(&mut self, key: u64)
        requires
            old(self).wf(),
            success_headroom(old(self).records@),
        ensures
            final(self).records@ == bump_success(old(self).records@, key),
            final(self).wf(),
    {
        match self.position_of(key) {
            Some(i) => {
                let entry = self.records[i];
                self.records[i] = (key, ProposalRecord {
                    successful_proposals: entry.1.successful_proposals + 1,
                    ..entry.1
                });
            }
            None => {
                self.records.push((key, ProposalRecord {
                    successful_proposals: 1,
                    failed_proposals: 0,
                }));
            }
        }
    }

    /// Records one observed block: a success for `proposer_index` and a
    /// failure for every index listed in `failed_proposer_indices`
    /// (with repeats counted as many times as they appear).  Counts are
    /// cumulative until the epoch boundary drains them.
    pub fn record_proposal(&mut self, proposer_index: u64, failed_proposer_indices: &Vec<u64>)
        requires
            old(self).wf(),
            success_headroom(old(self).records@),
            failed_proposer_indices@.len() <= u32::MAX,
            failure_headroom(old(self).records@, failed_proposer_indices@.len() as int),
        ensures
            final(self).records@ == record_proposal_spec(
                old(self).records@,
                proposer_index,
                failed_proposer_indices@,
            ),
            final(self).wf(),
    {
        let ghost failed = failed_proposer_indices@;
        let ghost start = bump_success(self.records@, proposer_index);
        proof {
            lemma_bump_success_headroom(self.records@, proposer_index, failed.len() as int);
        }
        self.bump_success_exec(proposer_index);
        assert(self.records@ == start);
        proof {
            assert(failed.skip(0) =~= failed);
        }
        let n = failed_proposer_indices.len();
        let mut i: usize = 0;
        while i < n
            invariant
                self.wf(),
                failed == failed_proposer_indices@,
                n == failed.len(),
                n <= u32::MAX,
                i <= n,
                failure_headroom(self.records@, n - i),
                bump_failures(self.records@, failed.skip(i as int)) == bump_failures(start, failed),
            decreases n - i,
        {
            let key = failed_proposer_indices[i];
            let ghost prev = self.records@;
            proof {
                lemma_bump_failure_headroom(self.records@, key, n - i);
            }
            self.bump_failure_exec(key);
            proof {
                lemma_bump_failures_step(prev, failed, i as int);
            }
            i = i + 1;
        }
        proof {
            assert(failed.skip(n as int) =~= Seq::<u64>::empty());
        }
    }

    /// Returns all records and atomically clears the tracker; called
    /// only by the orchestrator at the epoch boundary.
    pub fn drain(&mut self) -> (records: Vec<TrackerEntry>)
        ensures
            records@ == old(self).records@,
            final(self).records@ == Seq::<TrackerEntry>::empty(),
            final(self).wf(),
    {
        let mut out: Vec<TrackerEntry> = Vec::new();
        core::mem::swap(&mut out, &mut self.records);
        proof {
            assert(self.records@ =~= Seq::<TrackerEntry>::empty());
        }
        out
    }
}

/// Peeling one listed index off the front of the remaining failure
/// bumps.
proof fn lemma_bump_failures_step(s: Seq<TrackerEntry>, failed: Seq<u64>, i: int)
    requires
        0 <= i < failed.len(),
    ensures
        bump_failures(s, failed.skip(i)) == bump_failures(
            bump_failure(s, failed[i]),
            failed.skip(i + 1),
        ),
{
    assert(failed.skip(i).len() > 0);
    assert(failed.skip(i)[0] == failed[i]);
    assert(failed.skip(i).drop_first() =~= failed.skip(i + 1));
    assert(bump_failures(s, failed.skip(i)) == bump_failures(
        bump_failure(s, failed.skip(i)[0]),
        failed.skip(i).drop_first(),
    ));
}

/// A success bump leaves every failure counter's headroom intact.
proof fn lemma_bump_success_headroom(s: Seq<TrackerEntry>, key: u64, n: int)
    requires
        keys_distinct(s),
        0 <= n <= u32::MAX,
        failure_headroom(s, n),
    ensures
        failure_headroom(bump_success(s, key), n),
{
}

/// A failure bump spends one unit of failure headroom.
proof fn lemma_bump_failure_headroom(s: Seq<TrackerEntry>, key: u64, n: int)
    requires
        keys_distinct(s),
        1 <= n <= u32::MAX,
        failure_headroom(s, n),
    ensures
        failure_headroom(s, 1),
        failure_headroom(bump_failure(s, key), n - 1),
{
}

} // verus!
