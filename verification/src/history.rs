//! The operation journal: a bounded, ordered history of completed
//! synchronization runs, oldest first, evicting from the front when the cap
//! is exceeded.

use vstd::prelude::*;

verus! {

/// The direction of a completed run.
#[derive(Clone, Copy, PartialEq, Eq, Structural, Debug)]
pub enum OperationType {
    /// Copy from system locations into the managed directory.
    Gather,
    /// Copy from the managed directory back to system locations.
    Scatter,
}

/// One transferred entry within a recorded run.  `source_path` always
/// names the system-side location and `target_path` the managed-side one;
/// `backup_path` is set exactly when a pre-existing target was snapshotted
/// before being overwritten.
#[derive(Debug)]
pub struct OperationEntry {
    pub entry_name: String,
    pub source_path: String,
    pub target_path: String,
    pub backup_path: Option<String>,
}

/// The mathematical model of an `OperationEntry`.
#[verifier::ext_equal]
pub struct OperationEntryModel {
    pub entry_name: Seq<char>,
    pub source_path: Seq<char>,
    pub target_path: Seq<char>,
    pub backup_path: Option<Seq<char>>,
}

impl View for OperationEntry {
    type V = OperationEntryModel;

    open spec fn view(&self) -> OperationEntryModel {
        OperationEntryModel {
            entry_name: self.entry_name@,
            source_path: self.source_path@,
            target_path: self.target_path@,
            backup_path: self.backup_path.deep_view(),
        }
    }
}

/// One completed gather or scatter run.
#[derive(Debug)]
pub struct Operation {
    pub operation_type: OperationType,
    pub timestamp: u64,
    pub entries: Vec<OperationEntry>,
}

/// The mathematical model of an `Operation`.
#[verifier::ext_equal]
pub struct OperationModel {
    pub operation_type: OperationType,
    pub timestamp: u64,
    pub entries: Seq<OperationEntryModel>,
}

impl View for Operation {
    type V = OperationModel;

    open spec fn view(&self) -> OperationModel {
        OperationModel {
            operation_type: self.operation_type,
            timestamp: self.timestamp,
            entries: self.entries.deep_view(),
        }
    }
}

impl DeepView for OperationEntry {
    type V = OperationEntryModel;

    open spec fn deep_view(&self) -> OperationEntryModel {
        self.view()
    }
}

impl DeepView for Operation {
    type V = OperationModel;

    open spec fn deep_view(&self) -> OperationModel {
        self.view()
    }
}

/// The models of a list of operations.
pub open spec fn operation_models(s: Seq<Operation>) -> Seq<OperationModel> {
    s.map_values(|o: Operation| o@)
}

/// A journal after appending one record under a cap: the record goes to
/// the end, and the oldest records are evicted from the front until the
/// cap holds.
pub open spec fn spec_journal_append(
    j: Seq<OperationModel>,
    op: OperationModel,
    cap: int,
) -> Seq<OperationModel> {
    let s = j.push(op);
    if s.len() > cap {
        s.skip(s.len() - cap)
    } else {
        s
    }
}

/// Appending to a full journal evicts exactly the oldest record, leaving
/// the most recent ones with the new record last.
pub proof fn lemma_journal_append_evicts_oldest(
    j: Seq<OperationModel>,
    op: OperationModel,
    cap: int,
)
    requires
        j.len() == cap,
        cap > 0,
    ensures
        spec_journal_append(j, op, cap) == j.skip(1).push(op),
{
    assert(spec_journal_append(j, op, cap) =~= j.skip(1).push(op));
}

/// An append never grows the journal past its cap, and never evicts when
/// there is room.
pub proof fn lemma_journal_append_len(j: Seq<OperationModel>, op: OperationModel, cap: int)
    requires
        cap >= 0,
    ensures
        j.len() < cap ==> spec_journal_append(j, op, cap) == j.push(op),
        spec_journal_append(j, op, cap).len() <= cap || cap == 0,
        j.len() <= cap ==> spec_journal_append(j, op, cap).len() == if j.len() + 1 <= cap {
            j.len() + 1
        } else {
            cap as nat
        },
{
}

/// A bounded, ordered journal of completed runs.
pub struct Journal {
    records: Vec<Operation>,
    limit: usize,
}

impl Journal {
    /// The recorded runs, oldest first.
    pub closed spec fn records_model(&self) -> Seq<OperationModel> {
        operation_models(self.records@)
    }

    /// The cap on the number of records kept.
    pub closed spec fn spec_limit(&self) -> int {
        self.limit as int
    }

    /// The journal never holds more records than its cap.
    pub open spec fn wf(&self) -> bool {
        self.records_model().len() <= self.spec_limit()
    }

    /// An empty journal with the given cap.
    pub fn new(limit: usize) -> (r: Journal)
        ensures
            r.records_model() == Seq::<OperationModel>::empty(),
            r.spec_limit() == limit,
            r.wf(),
    {
        let r = Journal { records: Vec::new(), limit };
        proof {
            assert(r.records_model() =~= Seq::<OperationModel>::empty());
        }
        r
    }

    /// Rebuild a journal from records loaded elsewhere, evicting from the
    /// front if they exceed the cap.
    pub fn from_records(records: Vec<Operation>, limit: usize) -> (r: Journal)
        ensures
            r.spec_limit() == limit,
            r.records_model() == if operation_models(records@).len() > limit {
                operation_models(records@).skip(operation_models(records@).len() - limit)
            } else {
                operation_models(records@)
            },
            r.wf(),
    {
        let mut j = Journal { records, limit };
        let ghost all = operation_models(j.records@);
        while j.records.len() > limit
            invariant
                j.limit == limit,
                operation_models(j.records@) == all.skip(all.len() - j.records@.len()),
                j.records@.len() <= all.len(),
                j.records@.len() >= limit || j.records@.len() == all.len(),
            decreases j.records@.len(),
        {
            let ghost before = operation_models(j.records@);
            j.records.remove(0);
            proof {
                assert(operation_models(j.records@) =~= before.skip(1));
                assert(before.skip(1) =~= all.skip(all.len() - j.records@.len()));
            }
        }
        proof {
            if all.len() <= limit {
                assert(all.skip(0) =~= all);
            }
        }
        j
    }

    /// How many runs are recorded.
    pub fn len(&self) -> (r: usize)
        ensures
            r == self.records_model().len(),
    {
        self.records.len()
    }

    /// The recorded runs, oldest first.
    pub fn records(&self) -> (r: &Vec<Operation>)
        ensures
            operation_models(r@) == self.records_model(),
    {
        &self.records
    }

    /// Append one completed run, evicting the oldest records if the cap is
    /// now exceeded.
    pub fn append(&mut self, op: Operation)
        ensures
            final(self).spec_limit() == old(self).spec_limit(),
            final(self).records_model() == spec_journal_append(
                old(self).records_model(),
                op@,
                old(self).spec_limit(),
            ),
            final(self).wf(),
    {
        let ghost target = spec_journal_append(self.records_model(), op@, self.spec_limit());
        self.records.push(op);
        let ghost all = operation_models(self.records@);
        proof {
            assert(all =~= old(self).records_model().push(op@));
        }
        while self.records.len() > self.limit
            invariant
                self.limit == old(self).limit,
                operation_models(self.records@) == all.skip(all.len() - self.records@.len()),
                self.records@.len() <= all.len(),
                self.records@.len() >= self.limit || self.records@.len() == all.len(),
            decreases self.records@.len(),
        {
            let ghost before = operation_models(self.records@);
            self.records.remove(0);
            proof {
                assert(operation_models(self.records@) =~= before.skip(1));
                assert(before.skip(1) =~= all.skip(all.len() - self.records@.len()));
            }
        }
        proof {
            if all.len() <= self.spec_limit() {
                assert(all.skip(0) =~= all);
            }
            assert(final(self).records_model() =~= target);
        }
    }

    /// The most recent run, if any.
    pub fn peek_last(&self) -> (r: Option<&Operation>)
        ensures
            match r {
                Some(op) => self.records_model().len() > 0 && op@ == self.records_model().last(),
                None => self.records_model().len() == 0,
            },
    {
        let n: usize = self.records.len();
        if n == 0 {
            None
        } else {
            Some(&self.records[n - 1])
        }
    }

    /// Remove and return the most recent run; an empty journal is left
    /// unchanged.
    pub fn pop_last(&mut self) -> (r: Option<Operation>)
        ensures
            final(self).spec_limit() == old(self).spec_limit(),
            match r {
                Some(op) => old(self).records_model().len() > 0 && op@ == old(
                    self,
                ).records_model().last() && final(self).records_model() == old(
                    self,
                ).records_model().drop_last(),
                None => old(self).records_model().len() == 0 && final(self).records_model() == old(
                    self,
                ).records_model(),
            },
            final(self).wf() == old(self).wf() || final(self).wf(),
    {
        let r = self.records.pop();
        proof {
            match &r {
                Some(op) => {
                    assert(final(self).records_model() =~= old(self).records_model().drop_last());
                },
                None => {
                    assert(final(self).records_model() =~= old(self).records_model());
                },
            }
        }
        r
    }
}

} // verus!
