//! What was achieved so far: one record for each run that deleted something.
//!
//! No path is recorded.

use crate::delete::{DeleteMethod, DeleteOutcome, DeleteOutcomeView};
use crate::path::{file_in_dir, is_file_in, FilePath};
use crate::platform::Platform;
use crate::seqs::{total, total_take};
use vstd::prelude::*;

verus! {

/// One run.
#[derive(Debug, Clone, Copy, PartialEq, Eq, Structural)]
pub struct HistoryEntry {
    /// When it ran, in seconds since the epoch.
    pub timestamp_secs: u64,
    /// The bytes that it freed.
    pub freed_bytes: u64,
    /// How many items it deleted.
    pub deleted_count: usize,
    /// How many items failed.
    pub failed_count: usize,
    /// It deleted for good.
    pub permanent: bool,
    /// The run in the deletion log; zero for a record from before runs were
    /// numbered.
    pub run_id: u64,
}

/// The runs, the oldest first.
#[derive(Debug, PartialEq, Eq)]
pub struct History {
    /// The runs.
    pub entries: Vec<HistoryEntry>,
}

impl Default for History {
    fn default() -> (r: History)
        ensures
            r.entries@.len() == 0,
    {
        History { entries: Vec::new() }
    }
}

impl Clone for History {
    fn clone(&self) -> (r: History)
        ensures
            r.entries@ == self.entries@,
    {
        let mut entries: Vec<HistoryEntry> = Vec::new();
        let mut i: usize = 0;
        while i < self.entries.len()
            invariant
                i <= self.entries@.len(),
                entries@ == self.entries@.take(i as int),
            decreases self.entries@.len() - i,
        {
            entries.push(self.entries[i]);
            i = i + 1;
            assert(entries@ =~= self.entries@.take(i as int));
        }
        assert(entries@ =~= self.entries@);
        History { entries }
    }
}

/// How many runs are kept.
pub const MAX_ENTRIES: usize = 100;

/// The bytes that a run freed.
pub open spec fn freed_in() -> spec_fn(HistoryEntry) -> nat {
    |e: HistoryEntry| e.freed_bytes as nat
}

/// The last `n` of a sequence, or all where it is shorter.
pub open spec fn last_of<A>(s: Seq<A>, n: nat) -> Seq<A> {
    if s.len() <= n {
        s
    } else {
        s.skip(s.len() - n)
    }
}

/// The last `n` of a sequence, the last one first.
pub open spec fn newest_first<A>(s: Seq<A>, n: nat) -> Seq<A> {
    last_of(s, n).reverse()
}

impl History {
    /// The bytes that all runs freed.
    pub open spec fn freed(self) -> nat {
        total(self.entries@, freed_in())
    }

    /// Whether the bytes that all runs freed can be counted.
    pub fn is_countable(&self) -> (r: bool)
        ensures
            r == (self.freed() <= u64::MAX),
    {
        let mut sum: u64 = 0;
        let mut i: usize = 0;
        while i < self.entries.len()
            invariant
                i <= self.entries@.len(),
                sum == total(self.entries@.take(i as int), freed_in()),
            decreases self.entries@.len() - i,
        {
            proof {
                total_take(self.entries@, i as int, freed_in());
            }
            match sum.checked_add(self.entries[i].freed_bytes) {
                Some(s) => {
                    sum = s;
                },
                None => {
                    return false;
                },
            }
            i = i + 1;
        }
        assert(self.entries@.take(i as int) =~= self.entries@);
        true
    }

    /// The bytes that all runs freed.
    pub fn total_freed_bytes(&self) -> (r: u64)
        requires
            self.freed() <= u64::MAX,
        ensures
            r == self.freed(),
    {
        let mut sum: u64 = 0;
        let mut i: usize = 0;
        while i < self.entries.len()
            invariant
                i <= self.entries@.len(),
                self.freed() <= u64::MAX,
                sum == total(self.entries@.take(i as int), freed_in()),
            decreases self.entries@.len() - i,
        {
            proof {
                total_take(self.entries@, i as int, freed_in());
            }
            sum = sum + self.entries[i].freed_bytes;
            i = i + 1;
        }
        assert(self.entries@.take(i as int) =~= self.entries@);
        sum
    }

    /// How many runs are recorded.
    pub fn run_count(&self) -> (r: usize)
        ensures
            r == self.entries@.len(),
    {
        self.entries.len()
    }

    /// The newest runs, `limit` at most, the newest first.
    pub fn recent(&self, limit: usize) -> (r: Vec<&HistoryEntry>)
        ensures
            r@.map_values(|e: &HistoryEntry| *e) == newest_first(self.entries@, limit as nat),
    {
        let n: usize = self.entries.len();
        let wanted: usize = if limit < n {
            limit
        } else {
            n
        };
        let mut r: Vec<&HistoryEntry> = Vec::new();
        let mut i: usize = 0;
        while i < wanted
            invariant
                i <= wanted <= n,
                n == self.entries@.len(),
                r@.len() == i,
                forall|j: int| 0 <= j < i ==> *(#[trigger] r@[j]) == self.entries@[n - 1 - j],
            decreases wanted - i,
        {
            r.push(&self.entries[n - 1 - i]);
            i = i + 1;
        }
        assert(r@.map_values(|e: &HistoryEntry| *e) =~= newest_first(
            self.entries@,
            limit as nat,
        ));
        r
    }
}

/// The record of a run that came to `outcome`.
pub open spec fn entry_for(
    outcome: DeleteOutcomeView,
    now_secs: i64,
    run_id: u64,
) -> Option<HistoryEntry> {
    if outcome.mode.is_dry_run() || outcome.deleted() == 0 {
        None
    } else {
        Some(
            HistoryEntry {
                timestamp_secs: if now_secs < 0 {
                    0
                } else {
                    now_secs as u64
                },
                freed_bytes: outcome.freed() as u64,
                deleted_count: outcome.deleted() as usize,
                failed_count: outcome.failed() as usize,
                permanent: outcome.mode.method == DeleteMethod::Permanent,
                run_id,
            },
        )
    }
}

/// The record of a run that came to `outcome`. A dry run leaves none, nor does
/// a run that deleted nothing. A time before the epoch counts as the epoch.
pub fn entry_from_outcome(outcome: &DeleteOutcome, now_secs: i64, run_id: u64) -> (r: Option<
    HistoryEntry,
>)
    requires
        outcome@.freed() <= u64::MAX,
    ensures
        r == entry_for(outcome@, now_secs, run_id),
{
    if outcome.is_dry_run() {
        return None;
    }
    let deleted_count: usize = outcome.deleted_count();
    if deleted_count == 0 {
        return None;
    }
    let timestamp_secs: u64 = if now_secs < 0 {
        0
    } else {
        now_secs as u64
    };
    Some(
        HistoryEntry {
            timestamp_secs,
            freed_bytes: outcome.freed_bytes(),
            deleted_count,
            failed_count: outcome.failed_count(),
            permanent: outcome.method() == DeleteMethod::Permanent,
            run_id,
        },
    )
}

/// Adds a run, and drops the oldest ones beyond [`MAX_ENTRIES`].
pub fn push(history: &mut History, entry: HistoryEntry)
    ensures
        final(history).entries@ == last_of(
            old(history).entries@.push(entry),
            MAX_ENTRIES as nat,
        ),
{
    history.entries.push(entry);
    let n: usize = history.entries.len();
    if n > MAX_ENTRIES {
        let kept = history.entries.split_off(n - MAX_ENTRIES);
        history.entries = kept;
        assert(history.entries@ =~= last_of(old(history).entries@.push(entry), MAX_ENTRIES as nat));
    }
}

/// Where the history is kept: `history.json` in the platform's settings
/// directory, where there is one.
pub fn history_file_path<P: Platform + ?Sized>(platform: &P) -> (r: Option<FilePath>)
    ensures
        r is Some == platform.settings_dir() is Some,
        r is Some ==> is_file_in(r->0@, platform.settings_dir()->0, "history.json"@),
{
    file_in_dir(platform.config_dir(), "history.json")
}

/// Records a run that came to `outcome`. Whether there was anything to record
/// is returned: only then has the history to be saved.
pub fn record_outcome(
    history: &mut History,
    outcome: &DeleteOutcome,
    now_secs: i64,
    run_id: u64,
) -> (r: bool)
    requires
        outcome@.freed() <= u64::MAX,
    ensures
        r == entry_for(outcome@, now_secs, run_id) is Some,
        r ==> final(history).entries@ == last_of(
            old(history).entries@.push(entry_for(outcome@, now_secs, run_id)->0),
            MAX_ENTRIES as nat,
        ),
        !r ==> *final(history) == *old(history),
{
    match entry_from_outcome(outcome, now_secs, run_id) {
        Some(entry) => {
            push(history, entry);
            true
        },
        None => false,
    }
}

/// What there is to do to record a run.
#[derive(Debug)]
pub enum HistoryStep {
    /// There is no place for the history.
    NoPlace,
    /// The history could not be read. It is left as it is.
    Unread {
        /// Why.
        error: String,
    },
    /// There is nothing to record, and nothing is written.
    Keep {
        /// The history as it was read.
        history: History,
    },
    /// The history is written anew.
    Save {
        /// Where.
        path: FilePath,
        /// The history with the run.
        history: History,
    },
}

/// What there is to do to record a run that came to `outcome`, where `read` is
/// what reading the history came to.
pub fn record_step<P: Platform + ?Sized>(
    platform: &P,
    read: Result<History, String>,
    outcome: &DeleteOutcome,
    now_secs: i64,
    run_id: u64,
) -> (r: HistoryStep)
    requires
        outcome@.freed() <= u64::MAX,
    ensures
        r is NoPlace <==> platform.settings_dir() is None,
        r is Unread <==> platform.settings_dir() is Some && read is Err,
        r is Unread ==> r->error == read->Err_0,
        r is Keep <==> platform.settings_dir() is Some && read is Ok && entry_for(
            outcome@,
            now_secs,
            run_id,
        ) is None,
        r is Keep ==> r->Keep_history == read->Ok_0,
        r is Save <==> platform.settings_dir() is Some && read is Ok && entry_for(
            outcome@,
            now_secs,
            run_id,
        ) is Some,
        r is Save ==> is_file_in(r->path@, platform.settings_dir()->0, "history.json"@),
        r is Save ==> r->Save_history.entries@ == last_of(
            read->Ok_0.entries@.push(entry_for(outcome@, now_secs, run_id)->0),
            MAX_ENTRIES as nat,
        ),
{
    let path = match history_file_path(platform) {
        Some(path) => path,
        None => return HistoryStep::NoPlace,
    };
    match read {
        Err(error) => HistoryStep::Unread { error },
        Ok(history) => {
            let mut history = history;
            if record_outcome(&mut history, outcome, now_secs, run_id) {
                HistoryStep::Save { path, history }
            } else {
                HistoryStep::Keep { history }
            }
        },
    }
}

/// However many runs are added, no more than [`MAX_ENTRIES`] are kept, and they
/// are the newest ones in their order.
pub proof fn newest_runs_are_kept(runs: Seq<HistoryEntry>, entry: HistoryEntry)
    ensures
        last_of(last_of(runs, MAX_ENTRIES as nat).push(entry), MAX_ENTRIES as nat) == last_of(
            runs.push(entry),
            MAX_ENTRIES as nat,
        ),
        last_of(runs.push(entry), MAX_ENTRIES as nat).len() <= MAX_ENTRIES,
        last_of(runs.push(entry), MAX_ENTRIES as nat).last() == entry,
{
    assert(last_of(last_of(runs, MAX_ENTRIES as nat).push(entry), MAX_ENTRIES as nat) =~= last_of(
        runs.push(entry),
        MAX_ENTRIES as nat,
    ));
}

/// The run that was added last is the first of the recent ones.
pub proof fn added_run_is_most_recent(runs: Seq<HistoryEntry>, entry: HistoryEntry, limit: nat)
    requires
        limit > 0,
    ensures
        newest_first(last_of(runs.push(entry), MAX_ENTRIES as nat), limit)[0] == entry,
{
}

// ---- What is recorded ----

/// A run is recorded if and only if it was no dry run and deleted something.
/// What is recorded are its time, how many items were deleted and how many
/// failed, the bytes of those that were deleted, and whether they are gone for
/// good.
pub proof fn which_runs_are_recorded(
    outcome: DeleteOutcomeView,
    now_secs: i64,
    run_id: u64,
    one_deleted: spec_fn(crate::delete::ItemResultView) -> nat,
    one_failed: spec_fn(crate::delete::ItemResultView) -> nat,
    bytes: spec_fn(crate::delete::ItemResultView) -> nat,
)
    requires
        forall|r: crate::delete::ItemResultView| #[trigger]
            one_deleted(r) == (if r.outcome is Deleted {
                1nat
            } else {
                0nat
            }),
        forall|r: crate::delete::ItemResultView| #[trigger]
            one_failed(r) == (if r.outcome is Failed {
                1nat
            } else {
                0nat
            }),
        forall|r: crate::delete::ItemResultView| #[trigger]
            bytes(r) == (if r.outcome is Deleted {
                r.size as nat
            } else {
                0nat
            }),
        total(outcome.results, bytes) <= u64::MAX,
        outcome.results.len() <= usize::MAX,
    ensures
        entry_for(outcome, now_secs, run_id) is Some <==> outcome.mode.dry_run_reason is None && (
        exists|i: int| 0 <= i < outcome.results.len() && (#[trigger] outcome.results[i]).outcome is
            Deleted),
        entry_for(outcome, now_secs, run_id) matches Some(e) ==> {
            &&& e.run_id == run_id
            &&& now_secs >= 0 ==> e.timestamp_secs == now_secs
            &&& now_secs < 0 ==> e.timestamp_secs == 0
            &&& e.deleted_count == total(outcome.results, one_deleted)
            &&& e.failed_count == total(outcome.results, one_failed)
            &&& e.freed_bytes == total(outcome.results, bytes)
            &&& e.permanent <==> outcome.mode.method is Permanent
        },
{
    let results = outcome.results;
    assert(one_deleted =~= crate::delete::is_deleted());
    assert(one_failed =~= crate::delete::is_failed());
    assert(bytes =~= crate::delete::freed_by());
    counts_are_bounded(results, one_deleted);
    counts_are_bounded(results, one_failed);
    if outcome.deleted() > 0 {
        let i = crate::seqs::total_is_counted(results, one_deleted);
        assert(results[i].outcome is Deleted);
    }
    if exists|i: int| 0 <= i < results.len() && (#[trigger] results[i]).outcome is Deleted {
        let i = choose|i: int|
            0 <= i < results.len() && (#[trigger] results[i]).outcome is Deleted;
        crate::seqs::total_counts(results, one_deleted, i);
    }
}

proof fn counts_are_bounded(
    results: Seq<crate::delete::ItemResultView>,
    one: spec_fn(crate::delete::ItemResultView) -> nat,
)
    requires
        forall|r: crate::delete::ItemResultView| #[trigger] one(r) <= 1,
    ensures
        total(results, one) <= results.len(),
    decreases results.len(),
{
    if results.len() > 0 {
        counts_are_bounded(results.drop_last(), one);
        assert(one(results.last()) <= 1);
    }
}

/// Of the runs that were recorded one after the other the last hundred are kept,
/// and none of them is changed.
pub proof fn a_hundred_runs_are_kept(runs: Seq<HistoryEntry>, i: int)
    ensures
        last_of(runs, MAX_ENTRIES as nat).len() == (if runs.len() < 100 {
            runs.len()
        } else {
            100
        }),
        0 <= i < last_of(runs, MAX_ENTRIES as nat).len() ==> last_of(
            runs,
            MAX_ENTRIES as nat,
        )[i] == runs[runs.len() - last_of(runs, MAX_ENTRIES as nat).len() + i],
{
}

/// The recent runs are the last ones in reverse, as many as asked for or all
/// there are.
pub proof fn recent_runs_come_newest_first(runs: Seq<HistoryEntry>, limit: nat, i: int)
    ensures
        newest_first(runs, limit).len() == (if runs.len() < limit {
            runs.len()
        } else {
            limit
        }),
        0 <= i < newest_first(runs, limit).len() ==> newest_first(runs, limit)[i]
            == runs[runs.len() - 1 - i],
{
}

/// All runs together freed what each of them did.
pub proof fn each_run_adds_to_what_was_freed(history: History, longer: History, entry: HistoryEntry)
    requires
        longer.entries@ == history.entries@.push(entry),
    ensures
        longer.freed() == history.freed() + entry.freed_bytes,
        history.entries@.len() == 0 ==> history.freed() == 0,
{
    crate::seqs::total_push(history.entries@, entry, freed_in());
}

} // verus!
