//! The synchronization engine's decisions: which file moves where for a
//! gather or scatter, when a backup is taken and where it goes, how a run
//! is recorded for undo, and how an undo reverses a recorded run.
//!
//! All file copying, hook execution and existence checking is the
//! caller's: these functions turn entries and observed facts (does the
//! target exist, what time is it) into exact plans and records.

use vstd::prelude::*;

use crate::entry::{Entry, EntryModel, spec_display_name};
use crate::history::{Operation, OperationEntry, OperationEntryModel, OperationType};
use crate::paths::spec_join;
use crate::text::{dec_string, push_char, spec_dec};

verus! {

/// A path separator flattened into an underscore, so that a nested name
/// collapses to one managed filename.
pub open spec fn spec_flat_char(c: char) -> char {
    if c == '/' || c == '\\' {
        '_'
    } else {
        c
    }
}

/// A name with every path separator flattened.
pub open spec fn spec_flatten(name: Seq<char>) -> Seq<char> {
    name.map_values(|c: char| spec_flat_char(c))
}

/// Flatten a name into a single managed filename.
pub fn flatten_name(name: &str) -> (r: String)
    ensures
        r@ == spec_flatten(name@),
{
    let n: usize = name.unicode_len();
    let mut out = String::new();
    let mut i: usize = 0;
    while i < n
        invariant
            i <= n,
            n == name@.len(),
            out@ =~= spec_flatten(name@).take(i as int),
        decreases n - i,
    {
        let c = name.get_char(i);
        if c == '/' || c == '\\' {
            push_char(&mut out, '_');
        } else {
            push_char(&mut out, c);
        }
        proof {
            assert(out@ =~= spec_flatten(name@).take(i + 1));
        }
        i = i + 1;
    }
    proof {
        assert(spec_flatten(name@).take(n as int) =~= spec_flatten(name@));
    }
    out
}

/// The managed-directory location for an entry name.
pub open spec fn spec_managed_path(files_dir: Seq<char>, name: Seq<char>) -> Seq<char> {
    spec_join(files_dir, spec_flatten(name))
}

/// The managed-directory location for an entry name.
pub fn managed_path(files_dir: &str, name: &str) -> (r: String)
    ensures
        r@ == spec_managed_path(files_dir@, name@),
{
    crate::paths::path_join(files_dir, flatten_name(name).as_str())
}

/// The backup location for an entry name: the flattened name and the
/// run's timestamp, under the backup root.
pub open spec fn spec_backup_path(cache_dir: Seq<char>, name: Seq<char>, timestamp: u64) -> Seq<
    char,
> {
    spec_join(cache_dir, spec_flatten(name) + seq!['_'] + spec_dec(timestamp as int) + ".backup"@)
}

/// The backup location for an entry name.
pub fn backup_path(cache_dir: &str, name: &str, timestamp: u64) -> (r: String)
    ensures
        r@ == spec_backup_path(cache_dir@, name@, timestamp),
{
    let mut file = flatten_name(name);
    push_char(&mut file, '_');
    let file = file.concat(dec_string(timestamp).as_str()).concat(".backup");
    proof {
        assert(file@ =~= spec_flatten(name@) + seq!['_'] + spec_dec(timestamp as int)
            + ".backup"@);
    }
    crate::paths::path_join(cache_dir, file.as_str())
}

/// Whether a selector string picks an entry: by name, alias, or display
/// name.
pub open spec fn spec_matches_selector(e: EntryModel, sel: Seq<char>) -> bool {
    ||| e.name == sel
    ||| e.alias_as == Some(sel)
    ||| spec_display_name(e) == sel
}

/// Whether a selector string picks an entry.
pub fn matches_selector(entry: &Entry, selector: &str) -> (r: bool)
    ensures
        r == spec_matches_selector(entry@, selector@),
{
    if entry.matches_name(selector) {
        return true;
    }
    let d = entry.get_display_name();
    d.to_owned() == selector.to_owned()
}

/// Whether any of the selectors picks the entry.
pub open spec fn spec_matches_any(e: EntryModel, sels: Seq<Seq<char>>) -> bool {
    exists|k: int| 0 <= k < sels.len() && spec_matches_selector(e, #[trigger] sels[k])
}

/// The entries picked by the selectors, in order.
pub open spec fn spec_filter_entries(s: Seq<EntryModel>, sels: Seq<Seq<char>>) -> Seq<EntryModel>
    decreases s.len(),
{
    if s.len() == 0 {
        Seq::empty()
    } else {
        let rest = spec_filter_entries(s.subrange(1, s.len() as int), sels);
        if spec_matches_any(s[0], sels) {
            seq![s[0]] + rest
        } else {
            rest
        }
    }
}

/// Restrict entries to those picked by a selector, keeping their order.
/// An empty selector list keeps everything; a selector that matches
/// nothing simply contributes nothing.
pub fn filter_entries(entries: Vec<Entry>, selectors: &Vec<String>) -> (r: Vec<Entry>)
    ensures
        selectors@.len() == 0 ==> crate::config::entry_models(r@) == crate::config::entry_models(
            entries@,
        ),
        selectors@.len() > 0 ==> crate::config::entry_models(r@) == spec_filter_entries(
            crate::config::entry_models(entries@),
            selectors.deep_view(),
        ),
{
    if selectors.len() == 0 {
        return entries;
    }
    let ghost s = crate::config::entry_models(entries@);
    let ghost sels = selectors.deep_view();
    let n: usize = entries.len();
    let mut out: Vec<Entry> = Vec::new();
    let mut i: usize = 0;
    proof {
        assert(s.subrange(0, n as int) =~= s);
        assert(crate::config::entry_models(out@) + spec_filter_entries(
            s.subrange(0, n as int),
            sels,
        ) =~= spec_filter_entries(s, sels));
    }
    while i < n
        invariant
            i <= n,
            n == entries@.len(),
            s == crate::config::entry_models(entries@),
            sels == selectors.deep_view(),
            spec_filter_entries(s, sels) == crate::config::entry_models(out@)
                + spec_filter_entries(s.subrange(i as int, n as int), sels),
        decreases n - i,
    {
        let ghost rem = s.subrange(i as int, n as int);
        let ghost done = crate::config::entry_models(out@);
        proof {
            assert(rem[0] == s[i as int]);
            assert(rem.subrange(1, rem.len() as int) =~= s.subrange(i + 1, n as int));
        }
        let m: usize = selectors.len();
        let mut keep = false;
        let mut k: usize = 0;
        while k < m
            invariant
                k <= m,
                m == selectors@.len(),
                sels == selectors.deep_view(),
                i < n,
                n == entries@.len(),
                s == crate::config::entry_models(entries@),
                keep <==> exists|k2: int|
                    0 <= k2 < k && spec_matches_selector(s[i as int], #[trigger] sels[k2]),
            decreases m - k,
        {
            if matches_selector(&entries[i], selectors[k].as_str()) {
                keep = true;
                proof {
                    assert(spec_matches_selector(s[i as int], sels[k as int]));
                }
            } else {
                proof {
                    assert(!spec_matches_selector(s[i as int], sels[k as int]));
                }
            }
            k = k + 1;
        }
        if keep {
            out.push(crate::resolve::clone_entry(&entries[i]));
            proof {
                assert(crate::config::entry_models(out@) =~= done.push(s[i as int]));
                assert(done.push(s[i as int]) + spec_filter_entries(
                    s.subrange(i + 1, n as int),
                    sels,
                ) =~= done + spec_filter_entries(rem, sels));
            }
        } else {
            proof {
                assert(!spec_matches_any(s[i as int], sels));
            }
        }
        i = i + 1;
    }
    proof {
        assert(s.subrange(n as int, n as int) =~= Seq::<EntryModel>::empty());
        assert(crate::config::entry_models(out@) + Seq::<EntryModel>::empty()
            =~= crate::config::entry_models(out@));
    }
    out
}

/// The location content is copied from, per direction.
pub open spec fn spec_transfer_source(
    e: EntryModel,
    direction: OperationType,
    files_dir: Seq<char>,
) -> Seq<char> {
    match direction {
        OperationType::Gather => e.path,
        OperationType::Scatter => spec_managed_path(files_dir, e.name),
    }
}

/// The location content is copied to, per direction.
pub open spec fn spec_transfer_target(
    e: EntryModel,
    direction: OperationType,
    files_dir: Seq<char>,
) -> Seq<char> {
    match direction {
        OperationType::Gather => spec_managed_path(files_dir, e.name),
        OperationType::Scatter => e.path,
    }
}

/// The per-entry plan of one transfer: the hooks to run around it, the
/// exact source and target, and the backup to take first when the target
/// already exists.
pub struct TransferPlan {
    pub run_before: Option<String>,
    pub source: String,
    pub target: String,
    pub backup: Option<String>,
    pub run_after: Option<String>,
}

/// The mathematical model of a `TransferPlan`.
#[verifier::ext_equal]
pub struct TransferPlanModel {
    pub run_before: Option<Seq<char>>,
    pub source: Seq<char>,
    pub target: Seq<char>,
    pub backup: Option<Seq<char>>,
    pub run_after: Option<Seq<char>>,
}

impl View for TransferPlan {
    type V = TransferPlanModel;

    open spec fn view(&self) -> TransferPlanModel {
        TransferPlanModel {
            run_before: self.run_before.deep_view(),
            source: self.source@,
            target: self.target@,
            backup: self.backup.deep_view(),
            run_after: self.run_after.deep_view(),
        }
    }
}

/// The plan a transfer must follow, given the direction and whether the
/// target already exists at this timestamp.
pub fn plan_transfer(
    entry: &Entry,
    direction: OperationType,
    files_dir: &str,
    cache_dir: &str,
    target_exists: bool,
    timestamp: u64,
) -> (r: TransferPlan)
    ensures
        r@ == (TransferPlanModel {
            run_before: entry@.run_before,
            source: spec_transfer_source(entry@, direction, files_dir@),
            target: spec_transfer_target(entry@, direction, files_dir@),
            backup: if target_exists {
                Some(spec_backup_path(cache_dir@, entry@.name, timestamp))
            } else {
                None
            },
            run_after: entry@.run_after,
        }),
{
    let source: String;
    let target: String;
    match direction {
        OperationType::Gather => {
            source = entry.path.clone();
            target = managed_path(files_dir, entry.name.as_str());
        },
        OperationType::Scatter => {
            source = managed_path(files_dir, entry.name.as_str());
            target = entry.path.clone();
        },
    }
    let backup: Option<String> = if target_exists {
        Some(backup_path(cache_dir, entry.name.as_str(), timestamp))
    } else {
        None
    };
    TransferPlan {
        run_before: match &entry.run_before {
            Some(c) => Some(c.clone()),
            None => None,
        },
        source,
        target,
        backup,
        run_after: match &entry.run_after {
            Some(c) => Some(c.clone()),
            None => None,
        },
    }
}

/// The record a successful transfer leaves behind: system side, managed
/// side, and the backup if one was taken.
pub open spec fn spec_record_entry(
    e: EntryModel,
    files_dir: Seq<char>,
    backup: Option<Seq<char>>,
) -> OperationEntryModel {
    OperationEntryModel {
        entry_name: e.name,
        source_path: e.path,
        target_path: spec_managed_path(files_dir, e.name),
        backup_path: backup,
    }
}

/// Record one successful transfer.  Whatever the direction, the record's
/// source is the system-side location and its target the managed-side
/// one, so an undo can invert the exact transfer that happened.
pub fn record_entry(entry: &Entry, files_dir: &str, backup: Option<String>) -> (r: OperationEntry)
    ensures
        r@ == spec_record_entry(entry@, files_dir@, backup.deep_view()),
{
    OperationEntry {
        entry_name: entry.name.clone(),
        source_path: entry.path.clone(),
        target_path: managed_path(files_dir, entry.name.as_str()),
        backup_path: backup,
    }
}

/// Bundle the records of one run; a run with no successful transfer is
/// never recorded.
pub fn make_operation(
    operation_type: OperationType,
    timestamp: u64,
    entries: Vec<OperationEntry>,
) -> (r: Option<Operation>)
    ensures
        entries@.len() == 0 ==> r is None,
        entries@.len() > 0 ==> match r {
            Some(op) => op.operation_type == operation_type && op.timestamp == timestamp
                && op@.entries == entries.deep_view(),
            None => false,
        },
{
    if entries.len() == 0 {
        None
    } else {
        Some(Operation { operation_type, timestamp, entries })
    }
}

/// The classification of one entry's undo.
#[derive(Clone, Copy, PartialEq, Eq, Structural, Debug)]
pub enum UndoOutcome {
    /// The written location was removed and the backup copied back.
    Restored,
    /// A backup was recorded but no longer exists; nothing was restored.
    NoBackup,
    /// No backup was ever taken: the written location was simply removed.
    Removed,
}

/// The written location an undo must clear: the managed side of a gather,
/// the system side of a scatter.
pub open spec fn spec_undo_location(op: OperationEntryModel, kind: OperationType) -> Seq<char> {
    match kind {
        OperationType::Gather => op.target_path,
        OperationType::Scatter => op.source_path,
    }
}

/// The per-entry plan of one undo: the location to clear and the backup
/// to restore, if one was recorded.
pub struct UndoPlan {
    pub location: String,
    pub backup: Option<String>,
}

/// The mathematical model of an `UndoPlan`.
#[verifier::ext_equal]
pub struct UndoPlanModel {
    pub location: Seq<char>,
    pub backup: Option<Seq<char>>,
}

impl View for UndoPlan {
    type V = UndoPlanModel;

    open spec fn view(&self) -> UndoPlanModel {
        UndoPlanModel { location: self.location@, backup: self.backup.deep_view() }
    }
}

/// The plan an undo of one recorded entry must follow.
pub fn plan_undo(op_entry: &OperationEntry, kind: OperationType) -> (r: UndoPlan)
    ensures
        r@ == (UndoPlanModel {
            location: spec_undo_location(op_entry@, kind),
            backup: op_entry@.backup_path,
        }),
{
    let location = match kind {
        OperationType::Gather => op_entry.target_path.clone(),
        OperationType::Scatter => op_entry.source_path.clone(),
    };
    UndoPlan {
        location,
        backup: match &op_entry.backup_path {
            Some(b) => Some(b.clone()),
            None => None,
        },
    }
}

/// How one entry's undo is classified, given whether a backup was
/// recorded and whether it still exists.
pub open spec fn spec_classify_undo(backup_recorded: bool, backup_exists: bool) -> UndoOutcome {
    if backup_recorded {
        if backup_exists {
            UndoOutcome::Restored
        } else {
            UndoOutcome::NoBackup
        }
    } else {
        UndoOutcome::Removed
    }
}

/// Classify one entry's undo.
pub fn classify_undo(backup_recorded: bool, backup_exists: bool) -> (r: UndoOutcome)
    ensures
        r == spec_classify_undo(backup_recorded, backup_exists),
{
    if backup_recorded {
        if backup_exists {
            UndoOutcome::Restored
        } else {
            UndoOutcome::NoBackup
        }
    } else {
        UndoOutcome::Removed
    }
}

/// Gathering writes the managed file that scattering reads, and
/// scattering writes back to the entry's own system path: a gather
/// followed by a scatter moves content between exactly the same two
/// locations, in both directions.
pub proof fn lemma_round_trip_same_locations(e: EntryModel, files_dir: Seq<char>)
    ensures
        spec_transfer_target(e, OperationType::Gather, files_dir) == spec_transfer_source(
            e,
            OperationType::Scatter,
            files_dir,
        ),
        spec_transfer_source(e, OperationType::Gather, files_dir) == spec_transfer_target(
            e,
            OperationType::Scatter,
            files_dir,
        ),
{
}

/// An undo clears exactly the location the recorded transfer wrote, and
/// restores exactly the backup the record holds — for both directions.
pub proof fn lemma_undo_reverses_transfer(
    e: EntryModel,
    direction: OperationType,
    files_dir: Seq<char>,
    backup: Option<Seq<char>>,
)
    ensures
        spec_undo_location(spec_record_entry(e, files_dir, backup), direction)
            == spec_transfer_target(e, direction, files_dir),
        spec_record_entry(e, files_dir, backup).backup_path == backup,
{
}


/// What happened to one entry during a run.
#[derive(Clone, Copy, PartialEq, Eq, Structural, Debug)]
pub enum EntryOutcome {
    /// The entry was copied; `backed_up` says whether the target was
    /// snapshotted first.
    Transferred { backed_up: bool },
    /// The entry failed and was skipped; the rest of the run went on.
    Failed,
}

/// How many entries were transferred.
pub open spec fn spec_transferred_count(s: Seq<EntryOutcome>) -> nat
    decreases s.len(),
{
    if s.len() == 0 {
        0
    } else {
        spec_transferred_count(s.drop_last()) + if s.last() is Transferred {
            1nat
        } else {
            0nat
        }
    }
}

/// How many entries were backed up before being transferred.
pub open spec fn spec_backed_up_count(s: Seq<EntryOutcome>) -> nat
    decreases s.len(),
{
    if s.len() == 0 {
        0
    } else {
        spec_backed_up_count(s.drop_last()) + if s.last() == (EntryOutcome::Transferred {
            backed_up: true,
        }) {
            1nat
        } else {
            0nat
        }
    }
}

/// How many entries failed.
pub open spec fn spec_failed_count(s: Seq<EntryOutcome>) -> nat
    decreases s.len(),
{
    if s.len() == 0 {
        0
    } else {
        spec_failed_count(s.drop_last()) + if s.last() is Failed {
            1nat
        } else {
            0nat
        }
    }
}

proof fn lemma_outcome_counts_bounded(s: Seq<EntryOutcome>)
    ensures
        spec_transferred_count(s) <= s.len(),
        spec_backed_up_count(s) <= s.len(),
        spec_failed_count(s) <= s.len(),
    decreases s.len(),
{
    if s.len() > 0 {
        lemma_outcome_counts_bounded(s.drop_last());
    }
}

/// The aggregate summary of one run.
#[derive(Clone, Copy, PartialEq, Eq, Structural, Debug)]
pub struct SyncReport {
    pub transferred: usize,
    pub backed_up: usize,
    pub failed: usize,
}

/// Count a run's outcomes into its aggregate summary.
pub fn summarize_sync(outcomes: &Vec<EntryOutcome>) -> (r: SyncReport)
    ensures
        r.transferred == spec_transferred_count(outcomes@),
        r.backed_up == spec_backed_up_count(outcomes@),
        r.failed == spec_failed_count(outcomes@),
{
    let n: usize = outcomes.len();
    let mut transferred: usize = 0;
    let mut backed_up: usize = 0;
    let mut failed: usize = 0;
    let mut i: usize = 0;
    while i < n
        invariant
            i <= n,
            n == outcomes@.len(),
            transferred == spec_transferred_count(outcomes@.take(i as int)),
            backed_up == spec_backed_up_count(outcomes@.take(i as int)),
            failed == spec_failed_count(outcomes@.take(i as int)),
        decreases n - i,
    {
        proof {
            lemma_outcome_counts_bounded(outcomes@.take(i as int));
            assert(outcomes@.take(i + 1).drop_last() =~= outcomes@.take(i as int));
            assert(outcomes@.take(i + 1).last() == outcomes@[i as int]);
        }
        match outcomes[i] {
            EntryOutcome::Transferred { backed_up: b } => {
                transferred = transferred + 1;
                if b {
                    backed_up = backed_up + 1;
                }
            },
            EntryOutcome::Failed => {
                failed = failed + 1;
            },
        }
        i = i + 1;
    }
    proof {
        assert(outcomes@.take(n as int) =~= outcomes@);
    }
    SyncReport { transferred, backed_up, failed }
}

/// How many undone entries were classified as the given outcome.
pub open spec fn spec_undo_count(s: Seq<Option<UndoOutcome>>, which: UndoOutcome) -> nat
    decreases s.len(),
{
    if s.len() == 0 {
        0
    } else {
        spec_undo_count(s.drop_last(), which) + if s.last() == Some(which) {
            1nat
        } else {
            0nat
        }
    }
}

/// How many undone entries failed outright.
pub open spec fn spec_undo_failed_count(s: Seq<Option<UndoOutcome>>) -> nat
    decreases s.len(),
{
    if s.len() == 0 {
        0
    } else {
        spec_undo_failed_count(s.drop_last()) + if s.last() is None {
            1nat
        } else {
            0nat
        }
    }
}

proof fn lemma_undo_counts_bounded(s: Seq<Option<UndoOutcome>>)
    ensures
        forall|w: UndoOutcome| #[trigger] spec_undo_count(s, w) <= s.len(),
        spec_undo_failed_count(s) <= s.len(),
    decreases s.len(),
{
    if s.len() > 0 {
        lemma_undo_counts_bounded(s.drop_last());
        assert forall|w: UndoOutcome| #[trigger] spec_undo_count(s, w) <= s.len() by {
            assert(spec_undo_count(s.drop_last(), w) <= s.drop_last().len());
        }
    }
}

/// The aggregate summary of one undo; a failed entry is one whose
/// filesystem work did not complete.
#[derive(Clone, Copy, PartialEq, Eq, Structural, Debug)]
pub struct UndoReport {
    pub restored: usize,
    pub removed: usize,
    pub no_backup: usize,
    pub failed: usize,
}

/// Count an undo's per-entry outcomes into its aggregate summary.
pub fn summarize_undo(outcomes: &Vec<Option<UndoOutcome>>) -> (r: UndoReport)
    ensures
        r.restored == spec_undo_count(outcomes@, UndoOutcome::Restored),
        r.removed == spec_undo_count(outcomes@, UndoOutcome::Removed),
        r.no_backup == spec_undo_count(outcomes@, UndoOutcome::NoBackup),
        r.failed == spec_undo_failed_count(outcomes@),
{
    let n: usize = outcomes.len();
    let mut restored: usize = 0;
    let mut removed: usize = 0;
    let mut no_backup: usize = 0;
    let mut failed: usize = 0;
    let mut i: usize = 0;
    while i < n
        invariant
            i <= n,
            n == outcomes@.len(),
            restored == spec_undo_count(outcomes@.take(i as int), UndoOutcome::Restored),
            removed == spec_undo_count(outcomes@.take(i as int), UndoOutcome::Removed),
            no_backup == spec_undo_count(outcomes@.take(i as int), UndoOutcome::NoBackup),
            failed == spec_undo_failed_count(outcomes@.take(i as int)),
        decreases n - i,
    {
        proof {
            lemma_undo_counts_bounded(outcomes@.take(i as int));
            assert(outcomes@.take(i + 1).drop_last() =~= outcomes@.take(i as int));
            assert(outcomes@.take(i + 1).last() == outcomes@[i as int]);
        }
        match outcomes[i] {
            Some(UndoOutcome::Restored) => {
                restored = restored + 1;
            },
            Some(UndoOutcome::Removed) => {
                removed = removed + 1;
            },
            Some(UndoOutcome::NoBackup) => {
                no_backup = no_backup + 1;
            },
            None => {
                failed = failed + 1;
            },
        }
        i = i + 1;
    }
    proof {
        assert(outcomes@.take(n as int) =~= outcomes@);
    }
    UndoReport { restored, removed, no_backup, failed }
}

} // verus!
